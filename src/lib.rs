//! Template resolution and the rendering-session logic of an HTML-to-PDF
//! generator: property tokens and inline images are resolved, the scripts
//! that a browser page runs are built, print options are mapped to the
//! engine's units, and the shared browser session is driven as a state
//! machine.
pub mod encode;
mod external;
pub mod model;
pub mod print;
pub mod resolve;
pub mod scan;
pub mod scripts;
pub mod session;

pub use model::{Asset, AssetType, Property, SimplePdfGeneratorError, Template};
pub use print::{to_engine_params, EngineParams, PrintOptions};
pub use resolve::{image_sources, resolve_template, Resolved};
pub use scripts::{asset_scripts, page_plan, PagePlan};
pub use session::{set_no_sandbox, RenderSession, SessionAction, SessionState};
