use simple_pdf_generator::scripts::{
    build_tables_literal, hide_script, script_injection, style_injection, table_script,
    HIDE_HEAD, HIDE_TAIL,
};
use simple_pdf_generator::{asset_scripts, page_plan, Asset, AssetType};

#[test]
fn no_predicates_no_hide_script() {
    assert!(hide_script(&Vec::new()).is_none());
}

#[test]
fn hide_script_joins_predicates_with_or() {
    let preds = vec!["text() = 'a'".to_string(), "@items = 't'".to_string()];
    let s = hide_script(&preds).unwrap();
    let xpath = "//*[not(self::script or self::style or self::title) and (text() = 'a' or @items = 't')]";
    assert_eq!(s, format!("{}{}{}", HIDE_HEAD, xpath, HIDE_TAIL));
    assert!(s.contains("targetElement.style.display = 'none'"));
}

#[test]
fn empty_table_payload_becomes_empty_array_and_is_hidden() {
    let tables = vec![
        ("people".to_string(), "[{name:\"Mario\",},]".to_string()),
        ("empty".to_string(), "".to_string()),
    ];
    let (lit, hides) = build_tables_literal(&tables);
    assert_eq!(lit, "tablesData = {people:[{name:\"Mario\",},],empty:[],}");
    assert_eq!(hides, vec!["@items = 'empty'".to_string()]);
}

#[test]
fn table_script_replaces_first_placeholder_escaped() {
    let tables = vec![("t".to_string(), "[{a:\"<b>\",},]".to_string())];
    let gen = "const x = 1;\ntablesData;\nrender(tablesData);";
    let ts = table_script(gen, &tables).unwrap();
    assert_eq!(
        ts.script,
        "const x = 1;\ntablesData = {t:[{a:\"&lt;b&gt;\",},],};\nrender(tablesData);"
    );
    assert!(ts.hide_predicates.is_empty());
}

#[test]
fn no_tables_no_table_script() {
    assert!(table_script("tablesData", &Vec::new()).is_none());
}

#[test]
fn page_plan_combines_predicates() {
    let tables = vec![("rows".to_string(), "".to_string())];
    let plan = page_plan("tablesData", &tables, vec!["text() = 'x'".to_string()]);
    assert_eq!(plan.table_script.unwrap(), "tablesData = {rows:[],}");
    let hide = plan.hide_script.unwrap();
    assert!(hide.contains("(text() = 'x' or @items = 'rows')"));
}

#[test]
fn page_plan_without_anything_runs_nothing() {
    let plan = page_plan("tablesData", &Vec::new(), Vec::new());
    assert!(plan.table_script.is_none());
    assert!(plan.hide_script.is_none());
}

#[test]
fn asset_scripts_split_by_kind_in_order() {
    let assets = vec![
        Asset { path: "a.css".to_string(), asset_type: AssetType::Style },
        Asset { path: "b.js".to_string(), asset_type: AssetType::Script },
        Asset { path: "c.css".to_string(), asset_type: AssetType::Style },
    ];
    let contents = vec!["p{}".to_string(), "go()".to_string(), "h1{}".to_string()];
    let (styles, scripts) = asset_scripts(&assets, &contents);
    assert_eq!(styles, vec![style_injection("p{}"), style_injection("h1{}")]);
    assert_eq!(scripts, vec![script_injection("go()")]);
    assert!(styles[0].contains("document.createElement('style')"));
    assert!(styles[0].contains("style.innerHTML = `p{}`"));
    assert!(scripts[0].contains("script.innerHTML = `go()`"));
}
