//! The scripts that a page runs: the injection of a stylesheet or a
//! script, the table payload and its generator, and the pass that hides the
//! elements of absent values.
use crate::encode::{
    encode_template_literal,
    encode_xpath_literal,
    lemma_xpath_literal_injective,
    template_literal,
    xpath_literal,
};
use crate::external::{escape_text, html_escape_text};
use crate::resolve::{append_range, count_in, lemma_count_concat, views};
use crate::model::{Asset, AssetType};
use crate::scan::{chars_match_at, chars_of, matches_at};
use vstd::prelude::*;
use vstd::string::StringExecFns;

verus! {

pub const STYLE_HEAD: &'static str = "() => {\n    const style = document.createElement('style');\n    style.innerHTML = `";

pub const STYLE_TAIL: &'static str = "`;\n    document.head.appendChild(style);\n}";

pub const SCRIPT_HEAD: &'static str = "() => {\n    const script = document.createElement('script');\n    script.innerHTML = `";

pub const SCRIPT_TAIL: &'static str = "`;\n    document.head.appendChild(script);\n}";

pub const XPATH_HEAD: &'static str = "//*[not(self::script or self::style or self::title) and (";

pub const XPATH_TAIL: &'static str = ")]";

pub const HIDE_HEAD: &'static str = "() => {\n    const xpathExpression = `";

pub const HIDE_TAIL: &'static str = "`;\n    const result = document.evaluate(xpathExpression, document, null, XPathResult.UNORDERED_NODE_SNAPSHOT_TYPE, null);\n    for (let i = 0; i < result.snapshotLength; i++) {\n        const targetElement = result.snapshotItem(i);\n        targetElement.style.display = 'none';\n    }\n}";

/// The placeholder of the table generator that the payload replaces.
pub const TABLES_PLACEHOLDER: &'static str = "tablesData";

pub const TABLES_HEAD: &'static str = "tablesData = {";

/// The script that attaches `css` to the document head as a style element;
/// the text stands in a template literal, encoded so that its value is
/// `css` itself.
pub fn style_injection(css: &str) -> (r: String)
    ensures
        r@ == STYLE_HEAD@ + template_literal(css@) + STYLE_TAIL@,
{
    let mut r = String::from_str(STYLE_HEAD);
    let body = encode_template_literal(css);
    r.append(body.as_str());
    r.append(STYLE_TAIL);
    r
}

/// The script that attaches `js` to the document head as a script element;
/// the text stands in a template literal, encoded so that its value is `js`
/// itself.
pub fn script_injection(js: &str) -> (r: String)
    ensures
        r@ == SCRIPT_HEAD@ + template_literal(js@) + SCRIPT_TAIL@,
{
    let mut r = String::from_str(SCRIPT_HEAD);
    let body = encode_template_literal(js);
    r.append(body.as_str());
    r.append(SCRIPT_TAIL);
    r
}

/// The items of `v` with `sep` between each two.
pub open spec fn joined(v: Seq<Seq<char>>, sep: Seq<char>) -> Seq<char>
    decreases v.len(),
{
    if v.len() == 0 {
        Seq::empty()
    } else if v.len() == 1 {
        v[0]
    } else {
        joined(v.drop_last(), sep) + sep + v.last()
    }
}

/// The selection of every element, but scripts, styles and titles, that
/// matches one of the predicates.
pub open spec fn xpath_of(preds: Seq<Seq<char>>) -> Seq<char> {
    XPATH_HEAD@ + joined(preds, " or "@) + XPATH_TAIL@
}

/// The hiding script; the selection stands in a template literal, encoded.
pub open spec fn hide_script_of(preds: Seq<Seq<char>>) -> Seq<char> {
    HIDE_HEAD@ + template_literal(xpath_of(preds)) + HIDE_TAIL@
}

/// `x` stands somewhere in `t`.
pub open spec fn occurs_in(t: Seq<char>, x: Seq<char>) -> bool {
    exists|o: int| 0 <= o && o + x.len() <= t.len() && #[trigger] t.subrange(o, o + x.len()) == x
}

proof fn lemma_occurs_in_concat(a: Seq<char>, b: Seq<char>, x: Seq<char>)
    ensures
        occurs_in(a, x) ==> occurs_in(a + b, x),
        occurs_in(b, x) ==> occurs_in(a + b, x),
{
    if occurs_in(a, x) {
        let o = choose|o: int| 0 <= o && o + x.len() <= a.len() && #[trigger] a.subrange(o, o + x.len()) == x;
        assert((a + b).subrange(o, o + x.len()) =~= a.subrange(o, o + x.len()));
    }
    if occurs_in(b, x) {
        let o = choose|o: int| 0 <= o && o + x.len() <= b.len() && #[trigger] b.subrange(o, o + x.len()) == x;
        assert((a + b).subrange(a.len() + o, a.len() + o + x.len()) =~= b.subrange(o, o + x.len()));
    }
}

proof fn lemma_joined_holds_each(v: Seq<Seq<char>>, sep: Seq<char>, k: int)
    requires
        0 <= k < v.len(),
    ensures
        occurs_in(joined(v, sep), v[k]),
    decreases v.len(),
{
    if v.len() == 1 {
        assert(joined(v, sep).subrange(0int, 0int + v[0].len()) =~= v[0]);
    } else {
        let front = joined(v.drop_last(), sep) + sep;
        if k == v.len() - 1 {
            assert(v.last().subrange(0int, 0int + v[k].len()) =~= v[k]);
            lemma_occurs_in_concat(front, v.last(), v[k]);
        } else {
            lemma_joined_holds_each(v.drop_last(), sep, k);
            assert(v.drop_last()[k] == v[k]);
            lemma_occurs_in_concat(joined(v.drop_last(), sep), sep, v[k]);
            lemma_occurs_in_concat(front, v.last(), v[k]);
        }
    }
}

/// Every hide predicate stands in the selection that the hiding script
/// evaluates, so the script hides what each predicate selects.
pub proof fn lemma_hide_script_holds_each(preds: Seq<Seq<char>>, k: int)
    requires
        0 <= k < preds.len(),
    ensures
        occurs_in(xpath_of(preds), preds[k]),
{
    lemma_joined_holds_each(preds, " or "@, k);
    lemma_occurs_in_concat(XPATH_HEAD@, joined(preds, " or "@), preds[k]);
    lemma_occurs_in_concat(XPATH_HEAD@ + joined(preds, " or "@), XPATH_TAIL@, preds[k]);
}

/// The predicates joined by ` or `.
pub fn join_or(preds: &Vec<String>) -> (r: String)
    ensures
        r@ == joined(views(preds@), " or "@),
{
    let mut r = String::new();
    if preds.len() == 0 {
        return r;
    }
    r.append(preds[0].as_str());
    let mut k: usize = 1;
    assert(views(preds@).subrange(0, 1) =~= seq![preds@[0]@]);
    while k < preds.len()
        invariant
            1 <= k <= preds.len(),
            r@ == joined(views(preds@).subrange(0, k as int), " or "@),
        decreases preds.len() - k,
    {
        r.append(" or ");
        r.append(preds[k].as_str());
        assert(views(preds@).subrange(0, k + 1).drop_last() =~= views(preds@).subrange(
            0,
            k as int,
        ));
        k = k + 1;
    }
    assert(views(preds@).subrange(0, k as int) =~= views(preds@));
    r
}

/// The script that sets `display: none` on every element selected by one of
/// the predicates; none where there is no predicate.
pub fn hide_script(preds: &Vec<String>) -> (r: Option<String>)
    ensures
        preds.len() == 0 <==> r is None,
        r matches Some(t) ==> t@ == hide_script_of(views(preds@)),
{
    if preds.len() == 0 {
        return None;
    }
    let joined = join_or(preds);
    let mut xpath = String::from_str(XPATH_HEAD);
    xpath.append(joined.as_str());
    xpath.append(XPATH_TAIL);
    let body = encode_template_literal(xpath.as_str());
    let mut r = String::from_str(HIDE_HEAD);
    r.append(body.as_str());
    r.append(HIDE_TAIL);
    Some(r)
}

/// The predicate that selects a table by its `items` attribute, with the
/// name as an XPath string literal.
pub open spec fn items_predicate(name: Seq<char>) -> Seq<char> {
    "@items = "@ + xpath_literal(name)
}

/// A table's entry in the payload; an empty payload stands as `[]`.
pub open spec fn table_entry(name: Seq<char>, data: Seq<char>) -> Seq<char> {
    name + ":"@ + (if data.len() == 0 {
        "[]"@
    } else {
        data
    }) + ","@
}

pub open spec fn table_entries(t: Seq<(String, String)>) -> Seq<char>
    decreases t.len(),
{
    if t.len() == 0 {
        Seq::empty()
    } else {
        table_entries(t.drop_last()) + table_entry(t.last().0@, t.last().1@)
    }
}

/// The object literal that maps each table name to its payload.
pub open spec fn tables_literal(t: Seq<(String, String)>) -> Seq<char> {
    TABLES_HEAD@ + table_entries(t) + "}"@
}

/// One predicate `@items = '<name>'` for each table with an empty payload.
pub open spec fn table_hides(t: Seq<(String, String)>) -> Seq<Seq<char>>
    decreases t.len(),
{
    if t.len() == 0 {
        Seq::empty()
    } else {
        table_hides(t.drop_last()) + (if t.last().1@.len() == 0 {
            seq![items_predicate(t.last().0@)]
        } else {
            Seq::empty()
        })
    }
}

/// The first index at or after `k` at which `p` stands in `s`, or the
/// length.
pub open spec fn first_match_from(s: Seq<char>, k: int, p: Seq<char>) -> int
    decreases s.len() - k,
{
    if k >= s.len() {
        s.len() as int
    } else if matches_at(s, k, p) {
        k
    } else {
        first_match_from(s, k + 1, p)
    }
}

/// `s` with its first occurrence of `p` replaced by `r`.
pub open spec fn replace_first(s: Seq<char>, p: Seq<char>, r: Seq<char>) -> Seq<char> {
    let k = first_match_from(s, 0, p);
    if k < s.len() {
        s.subrange(0, k) + r + s.subrange(k + p.len(), s.len() as int)
    } else {
        s
    }
}

/// The table generator with its payload in place, and the hide predicates
/// of the empty tables.
pub struct TableScript {
    pub script: String,
    pub hide_predicates: Vec<String>,
}

/// The predicate `@items = '<name>'` that selects a table by its name.
pub fn items_predicate_of(name: &str) -> (r: String)
    ensures
        r@ == items_predicate(name@),
{
    let mut r = String::from_str("@items = ");
    let literal = encode_xpath_literal(name);
    r.append(literal.as_str());
    r
}

/// The payload literal of the tables, with the predicates that hide the
/// empty ones.
pub fn build_tables_literal(tables: &Vec<(String, String)>) -> (r: (String, Vec<String>))
    ensures
        r.0@ == tables_literal(tables@),
        views(r.1@) == table_hides(tables@),
{
    let mut lit = String::from_str(TABLES_HEAD);
    let mut hides: Vec<String> = Vec::new();
    let mut k: usize = 0;
    assert(tables@.subrange(0, 0) =~= Seq::<(String, String)>::empty());
    assert(views(hides@) =~= Seq::<Seq<char>>::empty());
    while k < tables.len()
        invariant
            k <= tables.len(),
            lit@ == TABLES_HEAD@ + table_entries(tables@.subrange(0, k as int)),
            views(hides@) == table_hides(tables@.subrange(0, k as int)),
        decreases tables.len() - k,
    {
        let ghost lit0 = lit@;
        let ghost hides0 = views(hides@);
        let name = &tables[k].0;
        let data = &tables[k].1;
        lit.append(name.as_str());
        lit.append(":");
        if data.as_str().is_empty() {
            lit.append("[]");
            hides.push(items_predicate_of(name.as_str()));
            assert(views(hides@) =~= hides0 + seq![items_predicate(name@)]);
        } else {
            lit.append(data.as_str());
            assert(views(hides@) =~= hides0 + Seq::<Seq<char>>::empty());
        }
        lit.append(",");
        proof {
            let t = tables@.subrange(0, k + 1);
            assert(t.drop_last() =~= tables@.subrange(0, k as int));
            assert(t.last() == tables@[k as int]);
        }
        k = k + 1;
    }
    lit.append("}");
    assert(tables@.subrange(0, k as int) =~= tables@);
    (lit, hides)
}

proof fn lemma_first_match_bounds(s: Seq<char>, k: int, p: Seq<char>)
    requires
        0 <= k <= s.len(),
    ensures
        k <= first_match_from(s, k, p) <= s.len(),
        first_match_from(s, k, p) < s.len() ==> matches_at(s, first_match_from(s, k, p), p),
    decreases s.len() - k,
{
    if k < s.len() && !matches_at(s, k, p) {
        lemma_first_match_bounds(s, k + 1, p);
    }
}

/// The first index at which `p` stands in `cs`, or the length.
pub fn find_first_match(cs: &Vec<char>, p: &Vec<char>) -> (r: usize)
    ensures
        r == first_match_from(cs@, 0, p@),
{
    let mut k: usize = 0;
    while k < cs.len()
        invariant
            k <= cs.len(),
            first_match_from(cs@, 0, p@) == first_match_from(cs@, k as int, p@),
        decreases cs.len() - k,
    {
        if chars_match_at(cs, k, p) {
            return k;
        }
        k = k + 1;
    }
    k
}

/// The table generator `generator` with its placeholder replaced by the
/// HTML-escaped payload of `tables`, and the predicates that hide the empty
/// tables; none where there is no table.
pub fn table_script(generator: &str, tables: &Vec<(String, String)>) -> (r: Option<TableScript>)
    ensures
        tables.len() == 0 <==> r is None,
        r matches Some(t) ==> t.script@ == replace_first(
            generator@,
            TABLES_PLACEHOLDER@,
            escape_text(tables_literal(tables@)),
        ) && views(t.hide_predicates@) == table_hides(tables@),
{
    if tables.len() == 0 {
        return None;
    }
    let (lit, hides) = build_tables_literal(tables);
    let escaped = html_escape_text(lit.as_str());
    let cs = chars_of(generator);
    let pat = chars_of(TABLES_PLACEHOLDER);
    let k = find_first_match(&cs, &pat);
    proof {
        lemma_first_match_bounds(cs@, 0, pat@);
    }
    let mut script = String::new();
    if k < cs.len() {
        append_range(&mut script, &cs, 0, k);
        script.append(escaped.as_str());
        append_range(&mut script, &cs, k + pat.len(), cs.len());
    } else {
        script.append(generator);
    }
    Some(TableScript { script, hide_predicates: hides })
}

/// How many tables named `name` have an empty payload.
pub open spec fn empty_table_count(t: Seq<(String, String)>, name: Seq<char>) -> nat
    decreases t.len(),
{
    if t.len() == 0 {
        0
    } else {
        empty_table_count(t.drop_last(), name) + (if t.last().0@ == name && t.last().1@.len()
            == 0 {
            1nat
        } else {
            0nat
        })
    }
}

proof fn lemma_items_predicate_injective(a: Seq<char>, b: Seq<char>)
    requires
        items_predicate(a) == items_predicate(b),
    ensures
        a == b,
{
    let p = "@items = "@;
    let t = items_predicate(a);
    assert(xpath_literal(a) =~= t.subrange(p.len() as int, t.len() as int));
    assert(xpath_literal(b) =~= t.subrange(p.len() as int, t.len() as int));
    lemma_xpath_literal_injective(a, b);
}

/// Each table with an empty payload stands as `[]` in the payload and adds
/// one predicate `@items = '<name>'`; so, where table names are unique, an
/// empty table adds exactly one.
pub proof fn lemma_empty_table_hidden(t: Seq<(String, String)>, name: Seq<char>)
    ensures
        count_in(table_hides(t), items_predicate(name)) == empty_table_count(t, name),
        table_entry(name, Seq::empty()) == name + ":"@ + "[]"@ + ","@,
    decreases t.len(),
{
    if t.len() > 0 {
        lemma_empty_table_hidden(t.drop_last(), name);
        let tail = if t.last().1@.len() == 0 {
            seq![items_predicate(t.last().0@)]
        } else {
            Seq::<Seq<char>>::empty()
        };
        lemma_count_concat(table_hides(t.drop_last()), tail, items_predicate(name));
        if tail.len() == 1 {
            assert(tail.drop_first() =~= Seq::<Seq<char>>::empty());
            assert(count_in(Seq::<Seq<char>>::empty(), items_predicate(name)) == 0);
            if tail[0] == items_predicate(name) {
                lemma_items_predicate_injective(t.last().0@, name);
            }
        } else {
            assert(count_in(tail, items_predicate(name)) == 0);
        }
    }
}

/// The scripts a prepared page runs after its assets: the table generator
/// where the template has tables, then the hiding pass where any predicate
/// came from the tokens or the tables.
pub struct PagePlan {
    pub table_script: Option<String>,
    pub hide_script: Option<String>,
}

/// Plans the table and hiding steps of one page. `hides` are the predicates
/// of the resolution pass; those of the empty tables follow them.
pub fn page_plan(generator: &str, tables: &Vec<(String, String)>, hides: Vec<String>) -> (r:
    PagePlan)
    ensures
        r.table_script is Some <==> tables.len() > 0,
        r.table_script matches Some(t) ==> t@ == replace_first(
            generator@,
            TABLES_PLACEHOLDER@,
            escape_text(tables_literal(tables@)),
        ),
        r.hide_script is None <==> views(hides@) + table_hides(tables@) == Seq::<Seq<char>>::empty(),
        r.hide_script matches Some(h) ==> h@ == hide_script_of(
            views(hides@) + table_hides(tables@),
        ),
{
    let mut all = hides;
    let table = table_script(generator, tables);
    let script = match table {
        Some(t) => {
            let mut extra = t.hide_predicates;
            let ghost a0 = views(all@);
            let ghost e0 = views(extra@);
            all.append(&mut extra);
            assert(views(all@) =~= a0 + e0);
            Some(t.script)
        },
        None => {
            assert(table_hides(tables@) =~= Seq::<Seq<char>>::empty());
            assert(views(all@) + table_hides(tables@) =~= views(all@));
            None
        },
    };
    let hide = hide_script(&all);
    proof {
        if views(all@).len() == 0 {
            assert(views(all@) =~= Seq::<Seq<char>>::empty());
        }
    }
    PagePlan { table_script: script, hide_script: hide }
}

/// The injection script of an asset of kind `kind` with text `text`.
pub open spec fn injection_of(kind: AssetType, text: Seq<char>) -> Seq<char> {
    match kind {
        AssetType::Style => STYLE_HEAD@ + template_literal(text) + STYLE_TAIL@,
        AssetType::Script => SCRIPT_HEAD@ + template_literal(text) + SCRIPT_TAIL@,
    }
}

/// The injection scripts of the first `n` assets of kind `kind`, in order.
pub open spec fn injections(assets: Seq<Asset>, contents: Seq<String>, n: int, kind: AssetType) -> Seq<
    Seq<char>,
>
    decreases n,
{
    if n <= 0 {
        Seq::empty()
    } else {
        injections(assets, contents, n - 1, kind) + (if assets[n - 1].asset_type == kind {
            seq![injection_of(kind, contents[n - 1]@)]
        } else {
            Seq::empty()
        })
    }
}

/// The injection scripts of the assets, whose texts are `contents` in the
/// same order: those of the stylesheets, then those of the scripts.
pub fn asset_scripts(assets: &Vec<Asset>, contents: &Vec<String>) -> (r: (Vec<String>, Vec<String>))
    requires
        assets.len() == contents.len(),
    ensures
        views(r.0@) == injections(assets@, contents@, assets.len() as int, AssetType::Style),
        views(r.1@) == injections(assets@, contents@, assets.len() as int, AssetType::Script),
{
    let mut styles: Vec<String> = Vec::new();
    let mut scripts: Vec<String> = Vec::new();
    let mut k: usize = 0;
    assert(views(styles@) =~= Seq::<Seq<char>>::empty());
    assert(views(scripts@) =~= Seq::<Seq<char>>::empty());
    while k < assets.len()
        invariant
            k <= assets.len() == contents.len(),
            views(styles@) == injections(assets@, contents@, k as int, AssetType::Style),
            views(scripts@) == injections(assets@, contents@, k as int, AssetType::Script),
        decreases assets.len() - k,
    {
        let ghost st0 = views(styles@);
        let ghost sc0 = views(scripts@);
        match assets[k].asset_type {
            AssetType::Style => {
                styles.push(style_injection(contents[k].as_str()));
                assert(views(styles@) =~= st0 + seq![injection_of(AssetType::Style, contents@[k as int]@)]);
                assert(views(scripts@) =~= sc0 + Seq::<Seq<char>>::empty());
            },
            AssetType::Script => {
                scripts.push(script_injection(contents[k].as_str()));
                assert(views(scripts@) =~= sc0 + seq![injection_of(AssetType::Script, contents@[k as int]@)]);
                assert(views(styles@) =~= st0 + Seq::<Seq<char>>::empty());
            },
        }
        k = k + 1;
    }
    (styles, scripts)
}

} // verus!
