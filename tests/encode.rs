use simple_pdf_generator::encode::{encode_template_literal, encode_xpath_literal};
use simple_pdf_generator::resolve::text_predicate_of;
use simple_pdf_generator::scripts::{
    hide_script, items_predicate_of, script_injection, style_injection, SCRIPT_HEAD, SCRIPT_TAIL,
    STYLE_HEAD, STYLE_TAIL,
};

#[test]
fn template_literal_escapes_backtick_dollar_backslash() {
    assert_eq!(encode_template_literal("a`b${c}\\d"), "a\\`b\\${c}\\\\d");
    assert_eq!(encode_template_literal("plain text"), "plain text");
    assert_eq!(encode_template_literal(""), "");
}

#[test]
fn script_injection_encodes_backticks() {
    let js = "const s = `hi ${name}`;";
    let r = script_injection(js);
    assert_eq!(r, format!("{}{}{}", SCRIPT_HEAD, "const s = \\`hi \\${name}\\`;", SCRIPT_TAIL));
}

#[test]
fn style_injection_encodes_backslashes() {
    let css = "q::before { content: \"\\201C\"; }";
    let r = style_injection(css);
    assert_eq!(r, format!("{}{}{}", STYLE_HEAD, "q::before { content: \"\\\\201C\"; }", STYLE_TAIL));
}

#[test]
fn xpath_literal_quotes() {
    assert_eq!(encode_xpath_literal("name"), "'name'");
    assert_eq!(encode_xpath_literal("it's"), "concat('it', \"'\", 's', '')");
    assert_eq!(encode_xpath_literal(""), "''");
}

#[test]
fn predicates_with_apostrophes() {
    assert_eq!(text_predicate_of("o'clock"), "text() = concat('o', \"'\", 'clock', '')");
    assert_eq!(items_predicate_of("rows"), "@items = 'rows'");
    assert_eq!(items_predicate_of("a'b"), "@items = concat('a', \"'\", 'b', '')");
}

#[test]
fn hide_script_encodes_selection() {
    let preds = vec!["text() = '`x`'".to_string()];
    let s = hide_script(&preds).unwrap();
    assert!(s.contains("and (text() = '\\`x\\`')]"));
}
