use base64::Engine;
use simple_pdf_generator::resolve::{data_uri_of, is_data_image_src, needs_file_src, text_predicate_of};
use simple_pdf_generator::{image_sources, resolve_template, Property, Template};

fn prop(val: &str, is_none: bool) -> Property {
    Property { val: val.to_string(), is_none, is_tabledata: false }
}

fn template_with(props: Vec<(&str, Property)>) -> Template {
    let mut t = Template::new("/tmp/doc/index.html".to_string());
    for (name, p) in props {
        t.add_property(name.to_string(), p);
    }
    t
}

#[test]
fn present_property_is_substituted() {
    let t = template_with(vec![("name", prop("Mario", false))]);
    let r = resolve_template("<p>%%name%%</p>", &t, &Vec::new());
    assert_eq!(r.html, "<p>Mario</p>");
    assert!(r.hide_predicates.is_empty());
}

#[test]
fn absent_property_shows_name_and_is_hidden() {
    let t = template_with(vec![("name", prop("", true))]);
    let r = resolve_template("<p>%%name%%</p>", &t, &Vec::new());
    assert_eq!(r.html, "<p>name</p>");
    assert_eq!(r.hide_predicates, vec!["text() = 'name'".to_string()]);
}

#[test]
fn unknown_token_is_left_in_place() {
    let t = template_with(vec![("name", prop("Mario", false))]);
    let r = resolve_template("<p>%%other%% and %%name%%</p>", &t, &Vec::new());
    assert_eq!(r.html, "<p>%%other%% and Mario</p>");
    assert!(r.hide_predicates.is_empty());
}

#[test]
fn values_are_html_escaped() {
    let t = template_with(vec![("v", prop("<b>a & b</b>", false))]);
    let r = resolve_template("<td>%%v%%</td>", &t, &Vec::new());
    assert_eq!(r.html, "<td>&lt;b&gt;a &amp; b&lt;/b&gt;</td>");
}

#[test]
fn two_tokens_on_one_line() {
    let t = template_with(vec![("a", prop("1", false)), ("b", prop("", true))]);
    let r = resolve_template("<td>%%a%%</td><td>%%b%%</td>", &t, &Vec::new());
    assert_eq!(r.html, "<td>1</td><td>b</td>");
    assert_eq!(r.hide_predicates, vec!["text() = 'b'".to_string()]);
}

#[test]
fn absent_property_named_twice_gives_two_predicates() {
    let t = template_with(vec![("x", prop("", true))]);
    let r = resolve_template("<p>%%x%%</p><span>%%x%%</span>", &t, &Vec::new());
    assert_eq!(r.hide_predicates.len(), 2);
    assert!(r.hide_predicates.iter().all(|h| h == "text() = 'x'"));
}

#[test]
fn resolved_template_has_no_delimiters() {
    let t = template_with(vec![("a", prop("first", false)), ("b", prop("second", false))]);
    let r = resolve_template("<h1>%%a%%</h1>\n<p>%%b%% %%a%%</p>", &t, &Vec::new());
    assert!(!r.html.contains("%%"));
    assert_eq!(r.html, "<h1>first</h1>\n<p>second first</p>");
}

#[test]
fn first_property_of_a_name_counts() {
    let t = template_with(vec![("a", prop("one", false)), ("a", prop("two", false))]);
    let r = resolve_template("%%a%%", &t, &Vec::new());
    assert_eq!(r.html, "one");
}

#[test]
fn single_percent_signs_stay() {
    let t = template_with(vec![("a", prop("7", false))]);
    let r = resolve_template("50% of %%a%%%", &t, &Vec::new());
    assert_eq!(r.html, "50% of 7%");
}

#[test]
fn image_is_inlined_as_data_uri() {
    let t = template_with(vec![]);
    let bytes: Vec<u8> = vec![0x89, 0x50, 0x4e, 0x47, 0, 1, 2, 255];
    let images = vec![("logo.png".to_string(), bytes.clone())];
    let html = "<div><img class=\"x\" src=\"logo.png\" alt=\"logo.png\"></div>";
    let r = resolve_template(html, &t, &images);
    let encoded = base64::engine::general_purpose::STANDARD.encode(&bytes);
    let expected = format!(
        "<div><img class=\"x\" src=\"data:image/png;base64,{}\" alt=\"logo.png\"></div>",
        encoded
    );
    assert_eq!(r.html, expected);
    let start = r.html.find("base64,").unwrap() + "base64,".len();
    let end = r.html[start..].find('"').unwrap() + start;
    let decoded = base64::engine::general_purpose::STANDARD.decode(&r.html[start..end]).unwrap();
    assert_eq!(decoded, bytes);
}

#[test]
fn unread_image_is_inlined_empty() {
    let t = template_with(vec![]);
    let r = resolve_template("<img src=\"missing.jpg\">", &t, &Vec::new());
    assert_eq!(r.html, "<img src=\"data:image/jpeg;base64,\">");
}

#[test]
fn data_image_is_left_as_is() {
    let t = template_with(vec![]);
    let html = "<img src=\"data:image/png;base64,AAAA\">";
    let r = resolve_template(html, &t, &Vec::new());
    assert_eq!(r.html, html);
    assert!(is_data_image_src("data:image/png;base64,AAAA"));
    assert!(!needs_file_src("data:image/png;base64,AAAA"));
}

#[test]
fn unknown_extension_is_left_as_is() {
    let t = template_with(vec![]);
    let html = "<img src=\"picture.unknownext\"><p>after</p>";
    let r = resolve_template(html, &t, &Vec::new());
    assert_eq!(r.html, html);
    assert!(!needs_file_src("picture.unknownext"));
}

#[test]
fn tokens_inside_image_tags_are_not_resolved() {
    let t = template_with(vec![("a", prop("A", false))]);
    let html = "<img alt=\"%%a%%\" src=\"data:image/gif;base64,R0\">%%a%%";
    let r = resolve_template(html, &t, &Vec::new());
    assert_eq!(r.html, "<img alt=\"%%a%%\" src=\"data:image/gif;base64,R0\">A");
}

#[test]
fn image_sources_lists_files_to_read() {
    let html = "<img src=\"a.png\"><img src=\"data:image/png;base64,AA\"><img src=\"b.xyzunknown\"><img src=\"c/d.jpg\">";
    let srcs = image_sources(html);
    assert_eq!(srcs, vec!["a.png".to_string(), "c/d.jpg".to_string()]);
}

#[test]
fn img_without_src_is_plain_text() {
    let t = template_with(vec![("a", prop("A", false))]);
    let r = resolve_template("<img data-src=\"x.png\">%%a%%", &t, &Vec::new());
    assert_eq!(r.html, "<img data-src=\"x.png\">A");
}

#[test]
fn data_uri_and_predicate_builders() {
    assert_eq!(data_uri_of("image/png", &vec![1, 2, 3]), "data:image/png;base64,AQID");
    assert_eq!(text_predicate_of("total"), "text() = 'total'");
}

#[test]
fn percent_in_text_leaves_no_token() {
    let t = template_with(vec![("a", prop("half", false)), ("b", prop("full", false))]);
    let html = "<div style=\"width: 50%\">%%a%% is 50% of %%b%%%</div>";
    let r = resolve_template(html, &t, &Vec::new());
    assert_eq!(r.html, "<div style=\"width: 50%\">half is 50% of full%</div>");
    assert!(!r.html.contains("%%"));
}
