//! The resolution pass over a template's HTML: each token is replaced by its
//! property, each image by an inline `data:` URI, and each absent property
//! yields a predicate that later hides its element.
use crate::external::{
    base64_of,
    encode_base64,
    escape_text,
    guess_mime,
    html_escape_text,
    mime_of,
    push_char,
};
use crate::encode::{encode_xpath_literal, lemma_xpath_literal_injective, xpath_literal};
use crate::model::{Property, Template};
use crate::scan::{
    chars_match_at,
    chars_of,
    find_name_end,
    image_starts,
    lemma_first_char_bounds,
    lemma_name_end_bounds,
    lemma_src_attr_bounds,
    lemma_step_bounds,
    name_end,
    token_starts,
    image_src,
    img_at,
    matches_at,
    src_attr,
    src_end,
    step,
    tag_end,
    token_at,
    token_name,
};
use vstd::prelude::*;
use vstd::string::StringExecFns;

verus! {

/// The resolved HTML and the hide predicates that the pass produced.
pub struct Resolved {
    pub html: String,
    pub hide_predicates: Vec<String>,
}

pub open spec fn views(v: Seq<String>) -> Seq<Seq<char>> {
    v.map_values(|h: String| h@)
}

/// The index of the first property named `name` at or after `k`, or the
/// length.
pub open spec fn prop_index(props: Seq<(String, Property)>, k: int, name: Seq<char>) -> int
    decreases props.len() - k,
{
    if k >= props.len() {
        props.len() as int
    } else if props[k].0@ == name {
        k
    } else {
        prop_index(props, k + 1, name)
    }
}

/// The bytes read for the image source `src`; nothing where none were.
pub open spec fn image_bytes(images: Seq<(String, Vec<u8>)>, k: int, src: Seq<char>) -> Seq<u8>
    decreases images.len() - k,
{
    if k >= images.len() {
        Seq::empty()
    } else if images[k].0@ == src {
        images[k].1@
    } else {
        image_bytes(images, k + 1, src)
    }
}

pub open spec fn is_data_image(src: Seq<char>) -> bool {
    matches_at(src, 0, "data:image"@)
}

/// An image source whose file the pass inlines.
pub open spec fn needs_file(src: Seq<char>) -> bool {
    !is_data_image(src) && mime_of(src) is Some
}

pub open spec fn data_uri(mime: Seq<char>, encoded: Seq<char>) -> Seq<char> {
    "data:"@ + mime + ";base64,"@ + encoded
}

/// The predicate that selects an element whose text is `name`, with the
/// name as an XPath string literal.
pub open spec fn text_predicate(name: Seq<char>) -> Seq<char> {
    "text() = "@ + xpath_literal(name)
}

/// What the token at `i` becomes: left as it is when no property has its
/// name, the bare name when the property is absent, else the escaped value.
pub open spec fn token_output(s: Seq<char>, i: int, props: Seq<(String, Property)>) -> Seq<
    char,
> {
    let name = token_name(s, i);
    let k = prop_index(props, 0, name);
    if k >= props.len() {
        s.subrange(i, step(s, i))
    } else if props[k].1.is_none {
        name
    } else {
        escape_text(props[k].1.val@)
    }
}

/// What the image tag at `i` becomes: its `src` value turns into a `data:`
/// URI when the tag needs its file; everything else stays.
pub open spec fn image_output(s: Seq<char>, i: int, images: Seq<(String, Vec<u8>)>) -> Seq<char> {
    let src = image_src(s, i);
    if needs_file(src) {
        s.subrange(i, src_attr(s, i) + 6) + data_uri(
            mime_of(src)->0,
            base64_of(image_bytes(images, 0, src)),
        ) + s.subrange(src_end(s, i), step(s, i))
    } else {
        s.subrange(i, step(s, i))
    }
}

pub open spec fn piece_output(
    s: Seq<char>,
    i: int,
    props: Seq<(String, Property)>,
    images: Seq<(String, Vec<u8>)>,
) -> Seq<char> {
    if token_at(s, i) {
        token_output(s, i, props)
    } else if img_at(s, i) {
        image_output(s, i, images)
    } else {
        seq![s[i]]
    }
}

/// The resolved text of `s` from index `i` on.
pub open spec fn rendered_from(
    s: Seq<char>,
    i: int,
    props: Seq<(String, Property)>,
    images: Seq<(String, Vec<u8>)>,
) -> Seq<char>
    decreases s.len() - i,
{
    if i < 0 || i >= s.len() || step(s, i) <= i {
        Seq::empty()
    } else {
        piece_output(s, i, props, images) + rendered_from(s, step(s, i), props, images)
    }
}

/// The hide predicate of the piece at `i`: one for a token whose property
/// is absent.
pub open spec fn piece_hides(s: Seq<char>, i: int, props: Seq<(String, Property)>) -> Seq<
    Seq<char>,
> {
    let k = prop_index(props, 0, token_name(s, i));
    if token_at(s, i) && k < props.len() && props[k].1.is_none {
        seq![text_predicate(token_name(s, i))]
    } else {
        Seq::empty()
    }
}

pub open spec fn hides_from(s: Seq<char>, i: int, props: Seq<(String, Property)>) -> Seq<
    Seq<char>,
>
    decreases s.len() - i,
{
    if i < 0 || i >= s.len() || step(s, i) <= i {
        Seq::empty()
    } else {
        piece_hides(s, i, props) + hides_from(s, step(s, i), props)
    }
}

/// The sources of the image tags from index `i` on whose files the pass
/// inlines, in document order.
pub open spec fn sources_from(s: Seq<char>, i: int) -> Seq<Seq<char>>
    decreases s.len() - i,
{
    if i < 0 || i >= s.len() || step(s, i) <= i {
        Seq::empty()
    } else if !token_at(s, i) && img_at(s, i) && needs_file(image_src(s, i)) {
        seq![image_src(s, i)] + sources_from(s, step(s, i))
    } else {
        sources_from(s, step(s, i))
    }
}

pub(crate) fn append_range(out: &mut String, cs: &Vec<char>, from: usize, to: usize)
    requires
        from <= to <= cs.len(),
    ensures
        final(out)@ == old(out)@ + cs@.subrange(from as int, to as int),
{
    let mut k: usize = from;
    while k < to
        invariant
            from <= k <= to <= cs.len(),
            out@ == old(out)@ + cs@.subrange(from as int, k as int),
        decreases to - k,
    {
        push_char(out, cs[k]);
        assert(cs@.subrange(from as int, k + 1) =~= cs@.subrange(from as int, k as int).push(
            cs@[k as int],
        ));
        k = k + 1;
    }
}

fn string_of_range(cs: &Vec<char>, from: usize, to: usize) -> (r: String)
    requires
        from <= to <= cs.len(),
    ensures
        r@ == cs@.subrange(from as int, to as int),
{
    let mut r = String::new();
    append_range(&mut r, cs, from, to);
    r
}

/// The index of the first property named `name`, or the length.
pub fn find_property(props: &Vec<(String, Property)>, name: &String) -> (r: usize)
    ensures
        r == prop_index(props@, 0, name@),
{
    let mut k: usize = 0;
    while k < props.len()
        invariant
            k <= props.len(),
            prop_index(props@, 0, name@) == prop_index(props@, k as int, name@),
        decreases props.len() - k,
    {
        if props[k].0 == *name {
            return k;
        }
        k = k + 1;
    }
    k
}

fn find_image(images: &Vec<(String, Vec<u8>)>, src: &String) -> (r: Option<usize>)
    ensures
        r matches Some(k) ==> k < images.len() && images@[k as int].1@ == image_bytes(
            images@,
            0,
            src@,
        ),
        r is None ==> image_bytes(images@, 0, src@) == Seq::<u8>::empty(),
{
    let mut k: usize = 0;
    while k < images.len()
        invariant
            k <= images.len(),
            image_bytes(images@, 0, src@) == image_bytes(images@, k as int, src@),
        decreases images.len() - k,
    {
        if images[k].0 == *src {
            return Some(k);
        }
        k = k + 1;
    }
    None
}

/// The predicate `text() = '<name>'` that selects an element by its text.
pub fn text_predicate_of(name: &str) -> (r: String)
    ensures
        r@ == text_predicate(name@),
{
    let mut r = String::from_str("text() = ");
    let literal = encode_xpath_literal(name);
    r.append(literal.as_str());
    r
}

/// Whether an image source is already an inline image.
pub fn is_data_image_src(src: &str) -> (r: bool)
    ensures
        r == is_data_image(src@),
{
    let cs = chars_of(src);
    let prefix = chars_of("data:image");
    chars_match_at(&cs, 0, &prefix)
}

/// Whether the pass inlines the file of this image source: it is no
/// `data:image` URI and its extension has a known MIME type.
pub fn needs_file_src(src: &str) -> (r: bool)
    ensures
        r == needs_file(src@),
{
    if is_data_image_src(src) {
        false
    } else {
        guess_mime(src).is_some()
    }
}

/// The `data:` URI of an image's bytes under a MIME type.
pub fn data_uri_of(mime: &str, bytes: &Vec<u8>) -> (r: String)
    requires
        bytes@.len() <= usize::MAX / 4,
    ensures
        r@ == data_uri(mime@, base64_of(bytes@)),
{
    let encoded = encode_base64(bytes);
    let mut r = String::from_str("data:");
    r.append(mime);
    r.append(";base64,");
    r.append(encoded.as_str());
    r
}

/// Resolves the tokens and images of `html` against `template`, in one
/// left-to-right scan. `images` holds the bytes read for image sources; a
/// source without an entry is inlined as empty.
pub fn resolve_template(html: &str, template: &Template, images: &Vec<(String, Vec<u8>)>) -> (r:
    Resolved)
    requires
        forall|k: int| 0 <= k < images@.len() ==> (#[trigger] images@[k]).1@.len() <= usize::MAX / 4,
    ensures
        r.html@ == rendered_from(html@, 0, template.properties@, images@),
        views(r.hide_predicates@) == hides_from(html@, 0, template.properties@),
{
    let cs = chars_of(html);
    let open = chars_of("<img");
    let attr = chars_of("src=\"");
    let props = &template.properties;
    let mut out = String::new();
    let mut hides: Vec<String> = Vec::new();
    let mut i: usize = 0;
    assert(views(hides@) =~= Seq::<Seq<char>>::empty());
    while i < cs.len()
        invariant
            i <= cs.len(),
            cs@ == html@,
            open@ == "<img"@,
            attr@ == "src=\""@,
            forall|k: int|
                0 <= k < images@.len() ==> (#[trigger] images@[k]).1@.len() <= usize::MAX / 4,
            out@ + rendered_from(cs@, i as int, props@, images@) == rendered_from(
                cs@,
                0,
                props@,
                images@,
            ),
            views(hides@) + hides_from(cs@, i as int, props@) == hides_from(cs@, 0, props@),
        decreases cs.len() - i,
    {
        proof {
            lemma_step_bounds(cs@, i as int);
        }
        let ghost s = cs@;
        let ghost out0 = out@;
        let ghost hides0 = views(hides@);
        let next: usize;
        if token_starts(&cs, i) {
            let j = find_name_end(&cs, i + 2);
            proof {
                lemma_name_end_bounds(cs@, i + 2);
            }
            let name = string_of_range(&cs, i + 2, j);
            let k = find_property(props, &name);
            if k >= props.len() {
                append_range(&mut out, &cs, i, j + 2);
            } else if props[k].1.is_none {
                out.append(name.as_str());
                let h = text_predicate_of(name.as_str());
                hides.push(h);
                assert(views(hides@) =~= hides0 + seq![text_predicate(name@)]);
            } else {
                let escaped = html_escape_text(props[k].1.val.as_str());
                out.append(escaped.as_str());
            }
            next = j + 2;
        } else {
            match image_starts(&cs, i, &open, &attr) {
                Some((e, a, q)) => {
                    proof {
                        lemma_first_char_bounds(cs@, i + 4, '>');
                        lemma_src_attr_bounds(cs@, i + 4, e as int);
                        lemma_first_char_bounds(cs@, a + 6, '"');
                    }
                    let src = string_of_range(&cs, a + 6, q);
                    let mut inlined = false;
                    if !is_data_image_src(src.as_str()) {
                        match guess_mime(src.as_str()) {
                            Some(m) => {
                                append_range(&mut out, &cs, i, a + 6);
                                let uri = match find_image(images, &src) {
                                    Some(k) => data_uri_of(m.as_str(), &images[k].1),
                                    None => data_uri_of(m.as_str(), &Vec::new()),
                                };
                                out.append(uri.as_str());
                                append_range(&mut out, &cs, q, e + 1);
                                inlined = true;
                            },
                            None => {},
                        }
                    }
                    if !inlined {
                        append_range(&mut out, &cs, i, e + 1);
                    }
                    next = e + 1;
                },
                None => {
                    push_char(&mut out, cs[i]);
                    next = i + 1;
                },
            }
        }
        proof {
            assert(next == step(s, i as int));
            assert(out@ == out0 + piece_output(s, i as int, props@, images@));
            assert(views(hides@) =~= hides0 + piece_hides(s, i as int, props@));
            assert(out0 + rendered_from(s, i as int, props@, images@) =~= out@ + rendered_from(
                s,
                next as int,
                props@,
                images@,
            ));
            assert(hides0 + hides_from(s, i as int, props@) =~= views(hides@) + hides_from(
                s,
                next as int,
                props@,
            ));
        }
        i = next;
    }
    assert(out@ =~= out@ + rendered_from(cs@, i as int, props@, images@));
    assert(views(hides@) =~= views(hides@) + hides_from(cs@, i as int, props@));
    Resolved { html: out, hide_predicates: hides }
}

/// The sources of the image tags in `html` whose files the resolution pass
/// inlines, in document order: the files to read before resolving.
pub fn image_sources(html: &str) -> (r: Vec<String>)
    ensures
        views(r@) == sources_from(html@, 0),
{
    let cs = chars_of(html);
    let open = chars_of("<img");
    let attr = chars_of("src=\"");
    let mut srcs: Vec<String> = Vec::new();
    let mut i: usize = 0;
    assert(views(srcs@) =~= Seq::<Seq<char>>::empty());
    while i < cs.len()
        invariant
            i <= cs.len(),
            cs@ == html@,
            open@ == "<img"@,
            attr@ == "src=\""@,
            views(srcs@) + sources_from(cs@, i as int) == sources_from(cs@, 0),
        decreases cs.len() - i,
    {
        proof {
            lemma_step_bounds(cs@, i as int);
        }
        let ghost s = cs@;
        let ghost srcs0 = views(srcs@);
        let next: usize;
        if token_starts(&cs, i) {
            let j = find_name_end(&cs, i + 2);
            next = j + 2;
        } else {
            match image_starts(&cs, i, &open, &attr) {
                Some((e, a, q)) => {
                    proof {
                        lemma_first_char_bounds(cs@, i + 4, '>');
                        lemma_src_attr_bounds(cs@, i + 4, e as int);
                        lemma_first_char_bounds(cs@, a + 6, '"');
                    }
                    let src = string_of_range(&cs, a + 6, q);
                    if needs_file_src(src.as_str()) {
                        srcs.push(src);
                        assert(views(srcs@) =~= srcs0 + seq![image_src(s, i as int)]);
                    }
                    next = e + 1;
                },
                None => {
                    next = i + 1;
                },
            }
        }
        proof {
            assert(next == step(s, i as int));
            if !token_at(s, i as int) && img_at(s, i as int) && needs_file(image_src(s, i as int)) {
                assert(srcs0 + sources_from(s, i as int) =~= views(srcs@) + sources_from(
                    s,
                    next as int,
                ));
            } else {
                assert(views(srcs@) =~= srcs0);
            }
        }
        i = next;
    }
    assert(views(srcs@) =~= views(srcs@) + sources_from(cs@, i as int));
    srcs
}

/// How many times `x` stands in `v`.
pub open spec fn count_in(v: Seq<Seq<char>>, x: Seq<char>) -> nat
    decreases v.len(),
{
    if v.len() == 0 {
        0
    } else {
        (if v[0] == x {
            1nat
        } else {
            0nat
        }) + count_in(v.drop_first(), x)
    }
}

/// How many tokens named `name` the scan meets from index `i` on.
pub open spec fn token_count_from(s: Seq<char>, i: int, name: Seq<char>) -> nat
    decreases s.len() - i,
{
    if i < 0 || i >= s.len() || step(s, i) <= i {
        0
    } else {
        (if token_at(s, i) && token_name(s, i) == name {
            1nat
        } else {
            0nat
        }) + token_count_from(s, step(s, i), name)
    }
}

proof fn lemma_text_predicate_injective(a: Seq<char>, b: Seq<char>)
    requires
        text_predicate(a) == text_predicate(b),
    ensures
        a == b,
{
    let p = "text() = "@;
    let t = text_predicate(a);
    assert(xpath_literal(a) =~= t.subrange(p.len() as int, t.len() as int));
    assert(xpath_literal(b) =~= t.subrange(p.len() as int, t.len() as int));
    lemma_xpath_literal_injective(a, b);
}

/// Counting in a concatenation adds the counts.
pub proof fn lemma_count_concat(a: Seq<Seq<char>>, b: Seq<Seq<char>>, x: Seq<char>)
    ensures
        count_in(a + b, x) == count_in(a, x) + count_in(b, x),
    decreases a.len(),
{
    if a.len() == 0 {
        assert(a + b =~= b);
    } else {
        assert((a + b)[0] == a[0]);
        assert((a + b).drop_first() =~= a.drop_first() + b);
        lemma_count_concat(a.drop_first(), b, x);
    }
}

/// Every absent property yields one hide predicate `text() = '<name>'` for
/// each token of its name that the scan meets, and no other predicate
/// selects that text.
pub proof fn lemma_absent_property_hidden(
    s: Seq<char>,
    i: int,
    props: Seq<(String, Property)>,
    name: Seq<char>,
)
    requires
        0 <= i,
        prop_index(props, 0, name) < props.len(),
        props[prop_index(props, 0, name)].1.is_none,
    ensures
        count_in(hides_from(s, i, props), text_predicate(name)) == token_count_from(s, i, name),
    decreases s.len() - i,
{
    if i < s.len() {
        lemma_step_bounds(s, i);
        lemma_absent_property_hidden(s, step(s, i), props, name);
        lemma_count_concat(piece_hides(s, i, props), hides_from(s, step(s, i), props), text_predicate(name));
        let ph = piece_hides(s, i, props);
        let hit = token_at(s, i) && token_name(s, i) == name;
        if ph.len() == 1 {
            assert(ph.drop_first() =~= Seq::<Seq<char>>::empty());
            assert(count_in(Seq::<Seq<char>>::empty(), text_predicate(name)) == 0);
            if ph[0] == text_predicate(name) {
                lemma_text_predicate_injective(token_name(s, i), name);
            }
            assert(count_in(ph, text_predicate(name)) == if hit {
                1nat
            } else {
                0nat
            });
        } else {
            assert(!hit);
            assert(count_in(ph, text_predicate(name)) == 0);
        }
        assert(hides_from(s, i, props) == ph + hides_from(s, step(s, i), props));
    }
}

/// A template in which one absent property is named by exactly one token
/// yields exactly one hide predicate for it.
pub proof fn lemma_single_absent_token(s: Seq<char>, props: Seq<(String, Property)>, name: Seq<char>)
    requires
        prop_index(props, 0, name) < props.len(),
        props[prop_index(props, 0, name)].1.is_none,
        token_count_from(s, 0, name) == 1,
    ensures
        count_in(hides_from(s, 0, props), text_predicate(name)) == 1,
{
    lemma_absent_property_hidden(s, 0, props, name);
}

/// An image tag whose file is inlined keeps all of its text but the value
/// of its `src` attribute, which becomes the `data:` URI of the file's
/// MIME type and bytes.
pub proof fn lemma_image_inlined(
    s: Seq<char>,
    i: int,
    props: Seq<(String, Property)>,
    images: Seq<(String, Vec<u8>)>,
)
    requires
        !token_at(s, i),
        img_at(s, i),
        needs_file(image_src(s, i)),
    ensures
        piece_output(s, i, props, images) == s.subrange(i, src_attr(s, i) + 6) + data_uri(
            mime_of(image_src(s, i))->0,
            base64_of(image_bytes(images, 0, image_src(s, i))),
        ) + s.subrange(src_end(s, i), step(s, i)),
{
}

pub open spec fn no_percent(t: Seq<char>) -> bool {
    forall|k: int| 0 <= k < t.len() ==> t[k] != '%'
}

/// The piece at `i` leaves no `%` behind: a token resolves to a present
/// property whose value has none, an image tag holds none (nor do the MIME
/// type and base64 text that replace its source), and other text is no `%`.
pub open spec fn piece_clean(
    s: Seq<char>,
    i: int,
    props: Seq<(String, Property)>,
    images: Seq<(String, Vec<u8>)>,
) -> bool {
    if token_at(s, i) {
        let k = prop_index(props, 0, token_name(s, i));
        k < props.len() && !props[k].1.is_none && no_percent(props[k].1.val@)
    } else if img_at(s, i) {
        no_percent(s.subrange(i, step(s, i))) && (needs_file(image_src(s, i)) ==> no_percent(
            mime_of(image_src(s, i))->0,
        ) && no_percent(base64_of(image_bytes(images, 0, image_src(s, i)))))
    } else {
        s[i] != '%'
    }
}

/// Every piece that the scan meets from `i` on is clean.
pub open spec fn resolves_cleanly(
    s: Seq<char>,
    i: int,
    props: Seq<(String, Property)>,
    images: Seq<(String, Vec<u8>)>,
) -> bool
    decreases s.len() - i,
{
    if i < 0 || i >= s.len() || step(s, i) <= i {
        true
    } else {
        piece_clean(s, i, props, images) && resolves_cleanly(s, step(s, i), props, images)
    }
}

proof fn lemma_escape_keeps_no_percent(t: Seq<char>)
    requires
        no_percent(t),
    ensures
        no_percent(escape_text(t)),
    decreases t.len(),
{
    if t.len() > 0 {
        lemma_escape_keeps_no_percent(t.drop_first());
        let a = crate::external::escape_char(t[0]);
        let b = escape_text(t.drop_first());
        assert(escape_text(t) == a + b);
        assert forall|k: int| 0 <= k < (a + b).len() implies (a + b)[k] != '%' by {
            if k >= a.len() {
                assert((a + b)[k] == b[k - a.len()]);
            }
        }
    }
}

/// The output of a token or image piece that `piece_clean` admits holds no
/// `%`, and is not empty where the piece is an image or a non-empty value.
proof fn lemma_piece_no_percent(
    s: Seq<char>,
    i: int,
    props: Seq<(String, Property)>,
    images: Seq<(String, Vec<u8>)>,
)
    requires
        0 <= i < s.len(),
        token_at(s, i) || img_at(s, i),
        piece_clean(s, i, props, images),
    ensures
        no_percent(piece_output(s, i, props, images)),
        img_at(s, i) && !token_at(s, i) ==> piece_output(s, i, props, images).len() > 0,
{
    let a = piece_output(s, i, props, images);
    lemma_step_bounds(s, i);
    if token_at(s, i) {
        let k = prop_index(props, 0, token_name(s, i));
        lemma_escape_keeps_no_percent(props[k].1.val@);
    } else {
        let src = image_src(s, i);
        let tag = s.subrange(i, step(s, i));
        lemma_first_char_bounds(s, i + 4, '>');
        lemma_src_attr_bounds(s, i + 4, tag_end(s, i));
        lemma_first_char_bounds(s, src_attr(s, i) + 6, '"');
        if needs_file(src) {
            let pre = s.subrange(i, src_attr(s, i) + 6);
            let post = s.subrange(src_end(s, i), step(s, i));
            assert forall|k: int| 0 <= k < pre.len() implies pre[k] != '%' by {
                assert(pre[k] == tag[k]);
            }
            assert forall|k: int| 0 <= k < post.len() implies post[k] != '%' by {
                assert(post[k] == tag[k + src_end(s, i) - i]);
            }
            reveal_strlit("data:");
            reveal_strlit(";base64,");
            let m = mime_of(src)->0;
            let e = base64_of(image_bytes(images, 0, src));
            let d = data_uri(m, e);
            assert forall|k: int| 0 <= k < d.len() implies d[k] != '%' by {
                let with_mime = "data:"@ + m;
                let with_marker = with_mime + ";base64,"@;
                if k >= with_marker.len() {
                    assert(d[k] == e[k - with_marker.len()]);
                } else if k >= with_mime.len() {
                    assert(d[k] == with_marker[k]);
                } else if k >= 5 {
                    assert(d[k] == with_mime[k]);
                    assert(with_mime[k] == m[k - 5]);
                } else {
                    assert(d[k] == with_mime[k]);
                }
            }
            let pd = pre + d;
            assert forall|k: int| 0 <= k < a.len() implies a[k] != '%' by {
                if k >= pd.len() {
                    assert(a[k] == post[k - pd.len()]);
                } else if k >= pre.len() {
                    assert(a[k] == pd[k]);
                    assert(pd[k] == d[k - pre.len()]);
                } else {
                    assert(a[k] == pd[k]);
                }
            }
        }
    }
}

proof fn lemma_no_percent_concat(a: Seq<char>, b: Seq<char>)
    requires
        no_percent(a),
        no_percent(b),
    ensures
        no_percent(a + b),
{
    assert forall|k: int| 0 <= k < (a + b).len() implies (a + b)[k] != '%' by {
        if k >= a.len() {
            assert((a + b)[k] == b[k - a.len()]);
        }
    }
}

/// A template whose tokens all resolve to present properties, and that
/// holds no stray `%`, renders to a text without any token: without a `%`
/// at all.
pub proof fn lemma_resolved_has_no_tokens(
    s: Seq<char>,
    i: int,
    props: Seq<(String, Property)>,
    images: Seq<(String, Vec<u8>)>,
)
    requires
        0 <= i,
        resolves_cleanly(s, i, props, images),
    ensures
        no_percent(rendered_from(s, i, props, images)),
        forall|k: int| !token_at(rendered_from(s, i, props, images), k),
    decreases s.len() - i,
{
    let r = rendered_from(s, i, props, images);
    if i < s.len() {
        lemma_step_bounds(s, i);
        lemma_resolved_has_no_tokens(s, step(s, i), props, images);
        if token_at(s, i) || img_at(s, i) {
            lemma_piece_no_percent(s, i, props, images);
        }
        lemma_no_percent_concat(
            piece_output(s, i, props, images),
            rendered_from(s, step(s, i), props, images),
        );
    }
    assert forall|k: int| !token_at(r, k) by {
        if token_at(r, k) {
            assert(r[k] == '%');
        }
    }
}

/// A `%` that the scan takes as plain text.
pub open spec fn stray_percent(s: Seq<char>, i: int) -> bool {
    0 <= i < s.len() && !token_at(s, i) && !img_at(s, i) && s[i] == '%'
}

/// The piece at `i` leaves no token behind: a token resolves to a present,
/// non-empty property without `%`, an image tag is clean as above, and a
/// stray `%` is not followed by another.
pub open spec fn piece_resolved(
    s: Seq<char>,
    i: int,
    props: Seq<(String, Property)>,
    images: Seq<(String, Vec<u8>)>,
) -> bool {
    if token_at(s, i) {
        let k = prop_index(props, 0, token_name(s, i));
        piece_clean(s, i, props, images) && props[k].1.val@.len() > 0
    } else if img_at(s, i) {
        piece_clean(s, i, props, images)
    } else {
        s[i] == '%' ==> !stray_percent(s, i + 1)
    }
}

/// Every piece that the scan meets from `i` on leaves no token behind.
pub open spec fn fully_resolved(
    s: Seq<char>,
    i: int,
    props: Seq<(String, Property)>,
    images: Seq<(String, Vec<u8>)>,
) -> bool
    decreases s.len() - i,
{
    if i < 0 || i >= s.len() || step(s, i) <= i {
        true
    } else {
        piece_resolved(s, i, props, images) && fully_resolved(s, step(s, i), props, images)
    }
}

/// No two `%` stand side by side.
pub open spec fn no_double_percent(t: Seq<char>) -> bool {
    forall|k: int| 0 <= k && k + 1 < t.len() ==> !(#[trigger] t[k] == '%' && t[k + 1] == '%')
}

proof fn lemma_escape_nonempty(t: Seq<char>)
    requires
        t.len() > 0,
    ensures
        escape_text(t).len() > 0,
{
    assert(escape_text(t) == crate::external::escape_char(t[0]) + escape_text(t.drop_first()));
}

/// A template whose tokens all resolve to present, non-empty values without
/// `%`, whose image tags hold no `%`, and in which no two stray `%` stand
/// side by side (a single `%`, as in `50%`, may stand anywhere) renders to a
/// text without any token.
pub proof fn lemma_no_tokens_left(
    s: Seq<char>,
    i: int,
    props: Seq<(String, Property)>,
    images: Seq<(String, Vec<u8>)>,
)
    requires
        0 <= i,
        fully_resolved(s, i, props, images),
    ensures
        no_double_percent(rendered_from(s, i, props, images)),
        forall|k: int| !token_at(rendered_from(s, i, props, images), k),
        rendered_from(s, i, props, images).len() > 0 && rendered_from(s, i, props, images)[0]
            == '%' ==> stray_percent(s, i),
    decreases s.len() - i,
{
    let r = rendered_from(s, i, props, images);
    if i < s.len() {
        lemma_step_bounds(s, i);
        let n = step(s, i);
        lemma_no_tokens_left(s, n, props, images);
        let a = piece_output(s, i, props, images);
        let b = rendered_from(s, n, props, images);
        assert(r == a + b);
        if token_at(s, i) || img_at(s, i) {
            lemma_piece_no_percent(s, i, props, images);
            if token_at(s, i) {
                let k = prop_index(props, 0, token_name(s, i));
                lemma_escape_nonempty(props[k].1.val@);
            }
            assert(a.len() > 0);
            assert(r[0] == a[0]);
        } else {
            assert(a == seq![s[i]]);
            assert(n == i + 1);
            assert(r[0] == s[i]);
        }
        assert forall|k: int| 0 <= k && k + 1 < r.len() implies !(#[trigger] r[k] == '%' && r[k + 1]
            == '%') by {
            if k + 1 < a.len() {
                assert(r[k] == a[k] && r[k + 1] == a[k + 1]);
            } else if k >= a.len() {
                assert(r[k] == b[k - a.len()] && r[k + 1] == b[k + 1 - a.len()]);
            } else {
                assert(r[k] == a[k]);
                assert(r[k + 1] == b[0]);
            }
        }
    }
    assert forall|k: int| !token_at(r, k) by {
        if token_at(r, k) {
            assert(r[k] == '%' && r[k + 1] == '%');
        }
    }
}
} // verus!
