//! The library's data: templates, properties, assets and errors.
use vstd::prelude::*;
use vstd::string::StringExecFns;

verus! {

/// The kind of an auxiliary file injected into the page.
#[derive(Debug, Clone, Copy, PartialEq, Eq, Structural)]
pub enum AssetType {
    Style,
    Script,
}

/// An auxiliary stylesheet or script, read from `path` for each request.
#[derive(Debug, Clone)]
pub struct Asset {
    pub path: String,
    pub asset_type: AssetType,
}

/// A resolved value. When `is_none` holds the value was absent: its token
/// shows its own name and the element holding it is hidden.
#[derive(Debug, Clone)]
pub struct Property {
    pub val: String,
    pub is_none: bool,
    pub is_tabledata: bool,
}

/// Everything one rendering request substitutes into its document: the
/// document's path, the properties by token name, and the serialized tables
/// by table name (`""` for a table without rows). Where a property name
/// occurs twice, the first entry counts; tables are emitted in order, every
/// entry, so in the payload a later table of the same name overrides an
/// earlier one. Names are meant to be unique.
#[derive(Debug, Clone)]
pub struct Template {
    pub html_path: String,
    pub properties: Vec<(String, Property)>,
    pub tables: Vec<(String, String)>,
}

/// The failures that abort a request, each with its detail.
#[derive(Debug, Clone)]
pub enum SimplePdfGeneratorError {
    BrowserError(String),
    IoError(String),
    PdfError(String),
}

pub open spec fn error_message(e: SimplePdfGeneratorError) -> Seq<char> {
    match e {
        SimplePdfGeneratorError::BrowserError(m) => "Browser error: "@ + m@,
        SimplePdfGeneratorError::IoError(m) => "IO error: "@ + m@,
        SimplePdfGeneratorError::PdfError(m) => "PDF error: "@ + m@,
    }
}

impl SimplePdfGeneratorError {
    /// The human-readable text of the error: its kind, then its detail.
    pub fn message(&self) -> (r: String)
        ensures
            r@ == error_message(*self),
    {
        match self {
            SimplePdfGeneratorError::BrowserError(m) => {
                let mut r = String::from_str("Browser error: ");
                r.append(m.as_str());
                r
            },
            SimplePdfGeneratorError::IoError(m) => {
                let mut r = String::from_str("IO error: ");
                r.append(m.as_str());
                r
            },
            SimplePdfGeneratorError::PdfError(m) => {
                let mut r = String::from_str("PDF error: ");
                r.append(m.as_str());
                r
            },
        }
    }
}

impl Template {
    /// A template for the document at `html_path`, with no properties and
    /// no tables yet.
    pub fn new(html_path: String) -> (r: Template)
        ensures
            r.html_path@ == html_path@,
            r.properties@.len() == 0,
            r.tables@.len() == 0,
    {
        Template { html_path, properties: Vec::new(), tables: Vec::new() }
    }

    /// Adds a property under the token name `name`.
    pub fn add_property(&mut self, name: String, property: Property)
        ensures
            final(self).properties@ == old(self).properties@.push((name, property)),
            final(self).tables@ == old(self).tables@,
            final(self).html_path == old(self).html_path,
    {
        self.properties.push((name, property));
    }

    /// Adds a table's serialized rows under the table name `name`.
    pub fn add_table(&mut self, name: String, data: String)
        ensures
            final(self).tables@ == old(self).tables@.push((name, data)),
            final(self).properties@ == old(self).properties@,
            final(self).html_path == old(self).html_path,
    {
        self.tables.push((name, data));
    }
}

} // verus!
