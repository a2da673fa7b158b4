use simple_pdf_generator::print::length_in_micro_inches;
use simple_pdf_generator::{to_engine_params, PrintOptions};

#[test]
fn a4_width_converts_to_inches() {
    let mut o = PrintOptions::default();
    o.paper_width = Some(210_000);
    let p = to_engine_params(&o);
    assert_eq!(p.paper_width, Some(8_267_717));
    let inches = p.paper_width.unwrap() as f64 / 1_000_000.0;
    assert!((inches - 8.2677).abs() < 0.0001);
}

#[test]
fn unset_lengths_stay_unset() {
    let mut o = PrintOptions::default();
    o.margin_top = None;
    let p = to_engine_params(&o);
    assert_eq!(p.margin_top, None);
    assert_eq!(p.paper_height, None);
    assert_eq!(p.margin_bottom, Some(0));
}

#[test]
fn default_print_options() {
    let o = PrintOptions::default();
    assert!(o.print_background);
    assert!(!o.landscape);
    assert!(!o.prefer_css_page_size);
    assert_eq!(o.margin_left, Some(0));
    assert_eq!(o.paper_width, None);
    assert!(o.page_ranges.is_none());
}

#[test]
fn flags_and_ranges_pass_through() {
    let mut o = PrintOptions::default();
    o.landscape = true;
    o.print_background = false;
    o.prefer_css_page_size = true;
    o.page_ranges = Some("1-3".to_string());
    let p = to_engine_params(&o);
    assert!(p.landscape);
    assert!(!p.print_background);
    assert!(p.prefer_css_page_size);
    assert_eq!(p.page_ranges, Some("1-3".to_string()));
}

#[test]
fn length_conversion_values() {
    assert_eq!(length_in_micro_inches(Some(25_400)), Some(1_000_000));
    assert_eq!(length_in_micro_inches(Some(10_000)), Some(393_701));
    assert_eq!(length_in_micro_inches(Some(0)), Some(0));
    assert_eq!(length_in_micro_inches(None), None);
}
