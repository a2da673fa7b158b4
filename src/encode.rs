//! Encodings for text that is embedded into scripts: a JavaScript template
//! literal's body, and an XPath string literal.
use crate::external::push_char;
use crate::scan::chars_of;
use vstd::prelude::*;

verus! {

/// A character inside a template literal: `\`, the backtick and `$` get a
/// backslash, so the literal neither ends early nor interpolates.
pub open spec fn template_char(c: char) -> Seq<char> {
    if c == '\\' || c == '`' || c == '$' {
        seq!['\\', c]
    } else {
        seq![c]
    }
}

/// The body of a JavaScript template literal whose value is `s`.
pub open spec fn template_literal(s: Seq<char>) -> Seq<char>
    decreases s.len(),
{
    if s.len() == 0 {
        Seq::empty()
    } else {
        template_literal(s.drop_last()) + template_char(s.last())
    }
}

/// What the body of a template literal stands for, for the escapes that
/// this module writes (`\\`, `` \` `` and `\$`): a backslash takes the
/// next character as it is.
pub open spec fn template_value(t: Seq<char>) -> Seq<char>
    decreases t.len(),
{
    if t.len() == 0 {
        Seq::empty()
    } else if t[0] == '\\' && t.len() >= 2 {
        seq![t[1]] + template_value(t.subrange(2, t.len() as int))
    } else {
        seq![t[0]] + template_value(t.drop_first())
    }
}

proof fn lemma_template_literal_concat(a: Seq<char>, b: Seq<char>)
    ensures
        template_literal(a + b) == template_literal(a) + template_literal(b),
    decreases b.len(),
{
    if b.len() == 0 {
        assert(a + b =~= a);
        assert(template_literal(a) + template_literal(b) =~= template_literal(a));
    } else {
        lemma_template_literal_concat(a, b.drop_last());
        assert((a + b).drop_last() =~= a + b.drop_last());
        assert((a + b).last() == b.last());
        assert(template_literal(a) + template_literal(b) =~= template_literal(a)
            + template_literal(b.drop_last()) + template_char(b.last()));
    }
}

/// The template literal stands for the text it encodes: a script that
/// carries it gives the element exactly that text.
pub proof fn lemma_template_literal_round_trip(s: Seq<char>)
    ensures
        template_value(template_literal(s)) == s,
    decreases s.len(),
{
    if s.len() > 0 {
        let head = seq![s[0]];
        let rest = s.drop_first();
        assert(s =~= head + rest);
        lemma_template_literal_concat(head, rest);
        assert(head.drop_last() =~= Seq::<char>::empty());
        assert(template_literal(head) == template_literal(head.drop_last()) + template_char(s[0]));
        assert(template_literal(head) =~= template_char(s[0]));
        lemma_template_literal_round_trip(rest);
        let t = template_char(s[0]) + template_literal(rest);
        if s[0] == '\\' || s[0] == '`' || s[0] == '$' {
            assert(t.subrange(2, t.len() as int) =~= template_literal(rest));
        } else {
            assert(t.drop_first() =~= template_literal(rest));
        }
        assert(template_value(t) =~= s);
    }
}

/// Encodes `s` as the body of a template literal.
pub fn encode_template_literal(s: &str) -> (r: String)
    ensures
        r@ == template_literal(s@),
{
    let cs = chars_of(s);
    let mut r = String::new();
    let mut k: usize = 0;
    while k < cs.len()
        invariant
            k <= cs.len(),
            cs@ == s@,
            r@ == template_literal(cs@.subrange(0, k as int)),
        decreases cs.len() - k,
    {
        let c = cs[k];
        if c == '\\' || c == '`' || c == '$' {
            push_char(&mut r, '\\');
        }
        push_char(&mut r, c);
        assert(cs@.subrange(0, k + 1).drop_last() =~= cs@.subrange(0, k as int));
        assert(r@ =~= template_literal(cs@.subrange(0, k as int)) + template_char(c));
        k = k + 1;
    }
    assert(cs@.subrange(0, k as int) =~= cs@);
    r
}

/// A character inside the first argument of `concat('...', '')`: an
/// apostrophe closes the string, adds a double-quoted one and reopens.
pub open spec fn quote_char(c: char) -> Seq<char> {
    if c == '\'' {
        seq!['\'', ',', ' ', '"', '\'', '"', ',', ' ', '\'']
    } else {
        seq![c]
    }
}

pub open spec fn quote_split(s: Seq<char>) -> Seq<char>
    decreases s.len(),
{
    if s.len() == 0 {
        Seq::empty()
    } else {
        quote_split(s.drop_last()) + quote_char(s.last())
    }
}

pub open spec fn has_apostrophe(s: Seq<char>) -> bool {
    exists|k: int| 0 <= k < s.len() && s[k] == '\''
}

pub open spec fn concat_open() -> Seq<char> {
    seq!['c', 'o', 'n', 'c', 'a', 't', '(', '\'']
}

pub open spec fn concat_close() -> Seq<char> {
    seq!['\'', ',', ' ', '\'', '\'', ')']
}

/// An XPath string literal whose value is `s`: `'s'` where `s` has no
/// apostrophe, else `concat('...', '')` with each apostrophe given as `"'"`.
pub open spec fn xpath_literal(s: Seq<char>) -> Seq<char> {
    if !has_apostrophe(s) {
        seq!['\''] + s + seq!['\'']
    } else {
        concat_open() + quote_split(s) + concat_close()
    }
}

/// Encodes `s` as an XPath string literal.
pub fn encode_xpath_literal(s: &str) -> (r: String)
    ensures
        r@ == xpath_literal(s@),
{
    let cs = chars_of(s);
    let mut found = false;
    let mut k: usize = 0;
    while k < cs.len()
        invariant
            k <= cs.len(),
            cs@ == s@,
            found <==> exists|j: int| 0 <= j < k && cs@[j] == '\'',
        decreases cs.len() - k,
    {
        if cs[k] == '\'' {
            found = true;
        }
        k = k + 1;
    }
    let mut r = String::new();
    if !found {
        push_char(&mut r, '\'');
        let mut j: usize = 0;
        while j < cs.len()
            invariant
                j <= cs.len(),
                r@ == seq!['\''] + cs@.subrange(0, j as int),
            decreases cs.len() - j,
        {
            push_char(&mut r, cs[j]);
            assert(cs@.subrange(0, j + 1) =~= cs@.subrange(0, j as int).push(cs@[j as int]));
            j = j + 1;
        }
        push_char(&mut r, '\'');
        assert(cs@.subrange(0, j as int) =~= cs@);
        return r;
    }
    let ghost open = concat_open();
    push_char(&mut r, 'c');
    push_char(&mut r, 'o');
    push_char(&mut r, 'n');
    push_char(&mut r, 'c');
    push_char(&mut r, 'a');
    push_char(&mut r, 't');
    push_char(&mut r, '(');
    push_char(&mut r, '\'');
    assert(r@ =~= open);
    let mut j: usize = 0;
    while j < cs.len()
        invariant
            j <= cs.len(),
            r@ == concat_open() + quote_split(cs@.subrange(0, j as int)),
        decreases cs.len() - j,
    {
        let c = cs[j];
        if c == '\'' {
            push_char(&mut r, '\'');
            push_char(&mut r, ',');
            push_char(&mut r, ' ');
            push_char(&mut r, '"');
            push_char(&mut r, '\'');
            push_char(&mut r, '"');
            push_char(&mut r, ',');
            push_char(&mut r, ' ');
            push_char(&mut r, '\'');
        } else {
            push_char(&mut r, c);
        }
        assert(cs@.subrange(0, j + 1).drop_last() =~= cs@.subrange(0, j as int));
        assert(r@ =~= concat_open() + quote_split(cs@.subrange(0, j as int)) + quote_char(c));
        j = j + 1;
    }
    push_char(&mut r, '\'');
    push_char(&mut r, ',');
    push_char(&mut r, ' ');
    push_char(&mut r, '\'');
    push_char(&mut r, '\'');
    push_char(&mut r, ')');
    assert(cs@.subrange(0, j as int) =~= cs@);
    assert(r@ =~= concat_open() + quote_split(cs@) + concat_close());
    r
}

proof fn lemma_quote_split_last(s: Seq<char>)
    requires
        s.len() > 0,
    ensures
        quote_split(s).len() > 0,
        quote_split(s).last() == s.last(),
{
    let p = quote_split(s.drop_last());
    let q = quote_char(s.last());
    assert(quote_split(s) == p + q);
    assert((p + q).last() == q.last());
}

proof fn lemma_quote_split_injective(a: Seq<char>, b: Seq<char>)
    requires
        quote_split(a) == quote_split(b),
    ensures
        a == b,
    decreases a.len(),
{
    if a.len() == 0 || b.len() == 0 {
        if a.len() > 0 {
            lemma_quote_split_last(a);
        }
        if b.len() > 0 {
            lemma_quote_split_last(b);
        }
        assert(a =~= b);
    } else {
        lemma_quote_split_last(a);
        lemma_quote_split_last(b);
        let q = quote_char(a.last());
        let pa = quote_split(a.drop_last());
        let pb = quote_split(b.drop_last());
        assert(quote_split(a) == pa + q);
        assert(quote_split(b) == pb + q);
        assert(pa =~= (pa + q).subrange(0, pa.len() as int));
        assert(pb =~= (pb + q).subrange(0, pb.len() as int));
        lemma_quote_split_injective(a.drop_last(), b.drop_last());
        assert(a =~= a.drop_last().push(a.last()));
        assert(b =~= b.drop_last().push(b.last()));
    }
}

/// Different texts have different XPath literals.
pub proof fn lemma_xpath_literal_injective(a: Seq<char>, b: Seq<char>)
    requires
        xpath_literal(a) == xpath_literal(b),
    ensures
        a == b,
{
    let la = xpath_literal(a);
    if !has_apostrophe(a) && !has_apostrophe(b) {
        assert(la.len() == a.len() + 2);
        assert(xpath_literal(b).len() == b.len() + 2);
        assert(a =~= la.subrange(1, 1 + a.len() as int));
        assert(b =~= la.subrange(1, 1 + b.len() as int));
    } else if has_apostrophe(a) && has_apostrophe(b) {
        let qa = quote_split(a);
        let qb = quote_split(b);
        assert(la.len() == qa.len() + 14);
        assert(xpath_literal(b).len() == qb.len() + 14);
        assert(qa =~= la.subrange(8, 8 + qa.len() as int));
        assert(qb =~= la.subrange(8, 8 + qb.len() as int));
        lemma_quote_split_injective(a, b);
    } else {
        assert(la[0] == xpath_literal(b)[0]);
    }
}

} // verus!
