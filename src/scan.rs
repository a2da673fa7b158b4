//! The template grammar: where property tokens (`%%name%%`) and image tags
//! (`<img ... src="...">`) stand in a text, as spec functions over its
//! characters and as executable scanners proved equal to them.
use vstd::prelude::*;
use vstd::std_specs::iter::IteratorSpec;

verus! {

/// The first index at or after `k` that holds `c`, or the length.
pub open spec fn first_char_from(s: Seq<char>, k: int, c: char) -> int
    decreases s.len() - k,
{
    if k >= s.len() {
        s.len() as int
    } else if s[k] == c {
        k
    } else {
        first_char_from(s, k + 1, c)
    }
}

/// The first index at or after `k` that ends a token name: a `%` or a line
/// break, or the length.
pub open spec fn name_end(s: Seq<char>, k: int) -> int
    decreases s.len() - k,
{
    if k >= s.len() {
        s.len() as int
    } else if s[k] == '%' || s[k] == '\n' {
        k
    } else {
        name_end(s, k + 1)
    }
}

/// `p` stands in `s` from index `k` on.
pub open spec fn matches_at(s: Seq<char>, k: int, p: Seq<char>) -> bool {
    0 <= k && k + p.len() <= s.len() && s.subrange(k, k + p.len()) == p
}

pub open spec fn is_space(c: char) -> bool {
    c == ' ' || c == '\t' || c == '\n' || c == '\r' || c == '\x0C'
}

/// A property token starts at `i`: `%%`, a name free of `%` and line
/// breaks, and `%%`.
pub open spec fn token_at(s: Seq<char>, i: int) -> bool {
    0 <= i && i + 1 < s.len() && s[i] == '%' && s[i + 1] == '%' && name_end(s, i + 2) + 1 < s.len()
        && s[name_end(s, i + 2)] == '%' && s[name_end(s, i + 2) + 1] == '%'
}

pub open spec fn token_name(s: Seq<char>, i: int) -> Seq<char> {
    s.subrange(i + 2, name_end(s, i + 2))
}

/// A `src="` attribute, preceded by white space, starts at `k`.
pub open spec fn src_attr_at(s: Seq<char>, k: int) -> bool {
    0 <= k < s.len() && is_space(s[k]) && matches_at(s, k + 1, "src=\""@)
}

/// The first attribute `src="` in `[k, e)`, or `e`.
pub open spec fn src_attr_from(s: Seq<char>, k: int, e: int) -> int
    decreases e - k,
{
    if k >= e {
        e
    } else if k + 6 <= e && src_attr_at(s, k) {
        k
    } else {
        src_attr_from(s, k + 1, e)
    }
}

/// The closing `>` of a tag opened at `i`.
pub open spec fn tag_end(s: Seq<char>, i: int) -> int {
    first_char_from(s, i + 4, '>')
}

pub open spec fn src_attr(s: Seq<char>, i: int) -> int {
    src_attr_from(s, i + 4, tag_end(s, i))
}

/// Where the value of the `src` attribute ends (its closing quote).
pub open spec fn src_end(s: Seq<char>, i: int) -> int {
    first_char_from(s, src_attr(s, i) + 6, '"')
}

/// An image tag with a `src` attribute starts at `i`.
pub open spec fn img_at(s: Seq<char>, i: int) -> bool {
    matches_at(s, i, "<img"@) && tag_end(s, i) < s.len() && src_attr(s, i) < tag_end(s, i)
        && src_end(s, i) < tag_end(s, i)
}

pub open spec fn image_src(s: Seq<char>, i: int) -> Seq<char> {
    s.subrange(src_attr(s, i) + 6, src_end(s, i))
}

/// Where the scan goes on after the piece that starts at `i`.
pub open spec fn step(s: Seq<char>, i: int) -> int {
    if token_at(s, i) {
        name_end(s, i + 2) + 2
    } else if img_at(s, i) {
        tag_end(s, i) + 1
    } else {
        i + 1
    }
}

pub proof fn lemma_first_char_bounds(s: Seq<char>, k: int, c: char)
    requires
        0 <= k <= s.len(),
    ensures
        k <= first_char_from(s, k, c) <= s.len(),
        first_char_from(s, k, c) < s.len() ==> s[first_char_from(s, k, c)] == c,
        forall|j: int| k <= j < first_char_from(s, k, c) ==> s[j] != c,
    decreases s.len() - k,
{
    if k < s.len() && s[k] != c {
        lemma_first_char_bounds(s, k + 1, c);
    }
}

pub proof fn lemma_name_end_bounds(s: Seq<char>, k: int)
    requires
        0 <= k <= s.len(),
    ensures
        k <= name_end(s, k) <= s.len(),
        forall|j: int| k <= j < name_end(s, k) ==> s[j] != '%' && s[j] != '\n',
    decreases s.len() - k,
{
    if k < s.len() && s[k] != '%' && s[k] != '\n' {
        lemma_name_end_bounds(s, k + 1);
    }
}

pub proof fn lemma_src_attr_bounds(s: Seq<char>, k: int, e: int)
    requires
        0 <= k <= e,
    ensures
        k <= src_attr_from(s, k, e) <= e,
        src_attr_from(s, k, e) < e ==> src_attr_from(s, k, e) + 6 <= e && src_attr_at(
            s,
            src_attr_from(s, k, e),
        ),
    decreases e - k,
{
    if k < e && !(k + 6 <= e && src_attr_at(s, k)) {
        lemma_src_attr_bounds(s, k + 1, e);
    }
}

/// Each piece moves the scan forward and stays within the text.
pub proof fn lemma_step_bounds(s: Seq<char>, i: int)
    requires
        0 <= i < s.len(),
    ensures
        i < step(s, i) <= s.len(),
{
    if token_at(s, i) {
        lemma_name_end_bounds(s, i + 2);
    } else if img_at(s, i) {
        lemma_first_char_bounds(s, i + 4, '>');
    }
}

/// The first index at or after `k` that holds `c`, or the length.
pub fn find_char(cs: &Vec<char>, k: usize, c: char) -> (r: usize)
    requires
        k <= cs.len(),
    ensures
        r == first_char_from(cs@, k as int, c),
{
    let mut j: usize = k;
    while j < cs.len() && cs[j] != c
        invariant
            k <= j <= cs.len(),
            first_char_from(cs@, k as int, c) == first_char_from(cs@, j as int, c),
        decreases cs.len() - j,
    {
        j = j + 1;
    }
    j
}

pub fn find_name_end(cs: &Vec<char>, k: usize) -> (r: usize)
    requires
        k <= cs.len(),
    ensures
        r == name_end(cs@, k as int),
{
    let mut j: usize = k;
    while j < cs.len() && cs[j] != '%' && cs[j] != '\n'
        invariant
            k <= j <= cs.len(),
            name_end(cs@, k as int) == name_end(cs@, j as int),
        decreases cs.len() - j,
    {
        j = j + 1;
    }
    j
}

/// Whether the characters `p` stand in `cs` from index `k` on.
pub fn chars_match_at(cs: &Vec<char>, k: usize, p: &Vec<char>) -> (r: bool)
    ensures
        r == matches_at(cs@, k as int, p@),
{
    if p.len() > cs.len() || k > cs.len() - p.len() {
        return false;
    }
    let mut j: usize = 0;
    while j < p.len()
        invariant
            k + p.len() <= cs.len(),
            j <= p.len(),
            forall|t: int| 0 <= t < j ==> cs@[k + t] == p@[t],
        decreases p.len() - j,
    {
        if cs[k + j] != p[j] {
            assert(cs@.subrange(k as int, k + p.len())[j as int] != p@[j as int]);
            return false;
        }
        j = j + 1;
    }
    assert(cs@.subrange(k as int, k + p.len()) =~= p@);
    true
}

fn find_src_attr(cs: &Vec<char>, k: usize, e: usize, attr: &Vec<char>) -> (r: usize)
    requires
        k <= e <= cs.len(),
        attr@ == "src=\""@,
    ensures
        r == src_attr_from(cs@, k as int, e as int),
{
    let mut j: usize = k;
    while j < e
        invariant
            k <= j <= e <= cs.len(),
            attr@ == "src=\""@,
            src_attr_from(cs@, k as int, e as int) == src_attr_from(cs@, j as int, e as int),
        decreases e - j,
    {
        if e - j >= 6 && is_space_char(cs[j]) && chars_match_at(cs, j + 1, attr) {
            return j;
        }
        j = j + 1;
    }
    j
}

fn is_space_char(c: char) -> (r: bool)
    ensures
        r == is_space(c),
{
    c == ' ' || c == '\t' || c == '\n' || c == '\r' || c == '\x0C'
}

/// Whether a property token starts at `i`.
pub fn token_starts(cs: &Vec<char>, i: usize) -> (r: bool)
    requires
        i <= cs.len(),
    ensures
        r == token_at(cs@, i as int),
{
    if cs.len() - i < 2 || cs[i] != '%' || cs[i + 1] != '%' {
        return false;
    }
    let j = find_name_end(cs, i + 2);
    proof {
        lemma_name_end_bounds(cs@, i + 2);
    }
    cs.len() - j >= 2 && cs[j] == '%' && cs[j + 1] == '%'
}

/// The positions of an image tag that starts at `i`: its closing `>`, its
/// `src` attribute, and the closing quote of that attribute's value.
pub fn image_starts(cs: &Vec<char>, i: usize, open: &Vec<char>, attr: &Vec<char>) -> (r: Option<
    (usize, usize, usize),
>)
    requires
        i <= cs.len(),
        open@ == "<img"@,
        attr@ == "src=\""@,
    ensures
        r is Some <==> img_at(cs@, i as int),
        r matches Some((e, a, q)) ==> e == tag_end(cs@, i as int) && a == src_attr(cs@, i as int)
            && q == src_end(cs@, i as int),
{
    proof {
        reveal_strlit("<img");
        reveal_strlit("src=\"");
    }
    if !chars_match_at(cs, i, open) {
        return None;
    }
    let e = find_char(cs, i + 4, '>');
    proof {
        lemma_first_char_bounds(cs@, i + 4, '>');
    }
    if e >= cs.len() {
        return None;
    }
    let a = find_src_attr(cs, i + 4, e, attr);
    if a >= e {
        return None;
    }
    proof {
        lemma_src_attr_bounds(cs@, i + 4, e as int);
    }
    let q = find_char(cs, a + 6, '"');
    if q >= e {
        return None;
    }
    Some((e, a, q))
}

/// The characters of a text, in order.
pub fn chars_of(s: &str) -> (r: Vec<char>)
    ensures
        r@ == s@,
{
    broadcast use vstd::string::axiom_spec_iter, vstd::string::next_postcondition;

    let mut it = s.chars();
    let mut r: Vec<char> = Vec::new();
    loop
        invariant
            r@ + it.remaining() == s@,
            it.decrease() is Some,
        ensures
            r@ == s@,
        decreases it.decrease()->0,
    {
        match it.next() {
            Some(c) => {
                r.push(c);
                assert(r@ + it.remaining() =~= s@);
            },
            None => {
                assert(r@ =~= s@);
                break;
            },
        }
    }
    r
}

} // verus!
