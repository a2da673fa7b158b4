//! Print options and their mapping to the engine's parameters. Lengths are
//! whole micrometres at the library's boundary and whole millionths of an
//! inch on the engine's side, so the millimetre-to-inch division by 25.4 is
//! exact up to the rounding of the last digit.
use vstd::prelude::*;

verus! {

/// The layout of the PDF. Every length is in micrometres; an unset length
/// leaves the engine's own default in force.
#[derive(Debug, Clone)]
pub struct PrintOptions {
    pub print_background: bool,
    pub paper_width: Option<u32>,
    pub paper_height: Option<u32>,
    pub margin_top: Option<u32>,
    pub margin_bottom: Option<u32>,
    pub margin_left: Option<u32>,
    pub margin_right: Option<u32>,
    pub page_ranges: Option<String>,
    pub prefer_css_page_size: bool,
    pub landscape: bool,
}

/// The engine's print parameters. Every length is in millionths of an inch.
#[derive(Debug, Clone)]
pub struct EngineParams {
    pub print_background: bool,
    pub paper_width: Option<u64>,
    pub paper_height: Option<u64>,
    pub margin_top: Option<u64>,
    pub margin_bottom: Option<u64>,
    pub margin_left: Option<u64>,
    pub margin_right: Option<u64>,
    pub page_ranges: Option<String>,
    pub prefer_css_page_size: bool,
    pub landscape: bool,
}

/// Micrometres to millionths of an inch (one inch is 25 400 micrometres),
/// rounded to the nearest.
pub open spec fn um_to_micro_inch(um: nat) -> nat {
    (um * 10000 + 127) / 254
}

pub open spec fn length_to_engine(l: Option<u32>) -> Option<u64> {
    match l {
        Some(um) => Some(um_to_micro_inch(um as nat) as u64),
        None => None,
    }
}

impl Default for PrintOptions {
    /// Backgrounds printed, zero margins, the engine's paper size, not landscape.
    fn default() -> (r: PrintOptions)
        ensures
            r.print_background,
            r.paper_width is None,
            r.paper_height is None,
            r.margin_top == Some(0u32),
            r.margin_bottom == Some(0u32),
            r.margin_left == Some(0u32),
            r.margin_right == Some(0u32),
            r.page_ranges is None,
            !r.prefer_css_page_size,
            !r.landscape,
    {
        PrintOptions {
            print_background: true,
            paper_width: None,
            paper_height: None,
            margin_top: Some(0),
            margin_bottom: Some(0),
            margin_left: Some(0),
            margin_right: Some(0),
            page_ranges: None,
            prefer_css_page_size: false,
            landscape: false,
        }
    }
}

/// One length in the engine's unit; unset stays unset.
pub fn length_in_micro_inches(l: Option<u32>) -> (r: Option<u64>)
    ensures
        r == length_to_engine(l),
{
    match l {
        Some(um) => {
            let v: u64 = (um as u64 * 10000 + 127) / 254;
            Some(v)
        },
        None => None,
    }
}

/// The engine's parameters for `o`: each length converted once, unset
/// lengths left unset, flags and page ranges passed on as they are.
pub fn to_engine_params(o: &PrintOptions) -> (r: EngineParams)
    ensures
        r.paper_width == length_to_engine(o.paper_width),
        r.paper_height == length_to_engine(o.paper_height),
        r.margin_top == length_to_engine(o.margin_top),
        r.margin_bottom == length_to_engine(o.margin_bottom),
        r.margin_left == length_to_engine(o.margin_left),
        r.margin_right == length_to_engine(o.margin_right),
        r.print_background == o.print_background,
        r.prefer_css_page_size == o.prefer_css_page_size,
        r.landscape == o.landscape,
        r.page_ranges == o.page_ranges,
{
    let page_ranges = match &o.page_ranges {
        Some(p) => Some(p.clone()),
        None => None,
    };
    EngineParams {
        print_background: o.print_background,
        paper_width: length_in_micro_inches(o.paper_width),
        paper_height: length_in_micro_inches(o.paper_height),
        margin_top: length_in_micro_inches(o.margin_top),
        margin_bottom: length_in_micro_inches(o.margin_bottom),
        margin_left: length_in_micro_inches(o.margin_left),
        margin_right: length_in_micro_inches(o.margin_right),
        page_ranges,
        prefer_css_page_size: o.prefer_css_page_size,
        landscape: o.landscape,
    }
}

/// The conversion is the division by 25.4, to a millionth of an inch: the
/// width of A4, 210 mm, is 8.267717 inches; an unset length stays unset and
/// never becomes zero.
pub proof fn lemma_length_conversion(um: u32)
    ensures
        length_to_engine(Some(210000u32)) == Some(8267717u64),
        length_to_engine(None) == None::<u64>,
        length_to_engine(Some(um)) matches Some(v) && v * 254 <= um as nat * 10000 + 127 < (v
            + 1) * 254,
{
    assert(um_to_micro_inch(210000) == 8267717);
    let n = um as nat * 10000 + 127;
    assert(n / 254 * 254 <= n < (n / 254 + 1) * 254) by (nonlinear_arith);
    assert(um_to_micro_inch(um as nat) <= u64::MAX) by (nonlinear_arith)
        requires
            um <= u32::MAX,
    ;
}

} // verus!
