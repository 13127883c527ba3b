//! Texts between double quotes.
//!
//! Inside the quotes a double quote and a backslash each get a backslash in
//! front, so that the quote that ends the text can be told from one inside
//! it: a quoted text can be read back in one way only.

use crate::text::chars_of;
use vstd::prelude::*;

verus! {

/// One character inside a quoted text: a quote or a backslash gets a
/// backslash in front, every other character stands for itself.
pub open spec fn escape_char(c: char) -> Seq<char> {
    if c == '"' || c == '\\' {
        seq!['\\', c]
    } else {
        seq![c]
    }
}

/// The characters of `s`, each one escaped.
pub open spec fn escaped(s: Seq<char>) -> Seq<char>
    decreases s.len(),
{
    if s.len() == 0 {
        Seq::empty()
    } else {
        escaped(s.drop_last()) + escape_char(s.last())
    }
}

/// `s` between double quotes, escaped.
pub open spec fn quoted(s: Seq<char>) -> Seq<char> {
    seq!['"'] + escaped(s) + seq!['"']
}

/// Escaping goes character by character from the front as well.
pub proof fn lemma_escaped_front(c: char, s: Seq<char>)
    ensures
        escaped(seq![c] + s) == escape_char(c) + escaped(s),
    decreases s.len(),
{
    let all = seq![c] + s;
    if s.len() == 0 {
        assert(all.drop_last() =~= Seq::<char>::empty());
        assert(escaped(all.drop_last()) =~= Seq::<char>::empty());
        assert(escaped(all) =~= escape_char(c) + escaped(s));
    } else {
        assert(all.drop_last() =~= seq![c] + s.drop_last());
        lemma_escaped_front(c, s.drop_last());
        assert(escaped(all) =~= escape_char(c) + escaped(s));
    }
}

/// Where an escaped text, a quote and more is the same as another escaped
/// text, a quote and more, the two texts are the same, and so is what
/// follows them.
pub proof fn lemma_escaped_ends(s: Seq<char>, t: Seq<char>, after_s: Seq<char>, after_t: Seq<char>)
    requires
        escaped(s) + seq!['"'] + after_s == escaped(t) + seq!['"'] + after_t,
    ensures
        s == t,
        after_s == after_t,
    decreases s.len(),
{
    let x = escaped(s) + seq!['"'] + after_s;
    let y = escaped(t) + seq!['"'] + after_t;
    if s.len() == 0 {
        assert(x[0] == '"');
        if t.len() > 0 {
            lemma_escaped_front(t[0], t.skip(1));
            assert(seq![t[0]] + t.skip(1) =~= t);
            assert(y[0] == escape_char(t[0])[0]);
            assert(false);
        }
        assert(s =~= t);
        assert(after_s =~= x.skip(1));
        assert(after_t =~= y.skip(1));
    } else {
        let c = s[0];
        lemma_escaped_front(c, s.skip(1));
        assert(seq![c] + s.skip(1) =~= s);
        assert(x[0] == escape_char(c)[0]);
        if t.len() == 0 {
            assert(y[0] == '"');
            assert(false);
        }
        let d = t[0];
        lemma_escaped_front(d, t.skip(1));
        assert(seq![d] + t.skip(1) =~= t);
        assert(y[0] == escape_char(d)[0]);
        if escape_char(c).len() == 2 {
            assert(x[1] == c);
            assert(escape_char(d).len() == 2);
            assert(y[1] == d);
        }
        assert(c == d);
        let k = escape_char(c).len() as int;
        assert(x.skip(k) =~= escaped(s.skip(1)) + seq!['"'] + after_s);
        assert(y.skip(k) =~= escaped(t.skip(1)) + seq!['"'] + after_t);
        lemma_escaped_ends(s.skip(1), t.skip(1), after_s, after_t);
        assert(s =~= t);
    }
}

/// A quoted text can be read back in one way only: where a quoted text and
/// more is the same as another quoted text and more, the two texts are the
/// same, and so is what follows them.
pub proof fn lemma_quoted_ends(s: Seq<char>, t: Seq<char>, after_s: Seq<char>, after_t: Seq<char>)
    requires
        quoted(s) + after_s == quoted(t) + after_t,
    ensures
        s == t,
        after_s == after_t,
{
    let x = quoted(s) + after_s;
    let y = quoted(t) + after_t;
    assert(x.skip(1) =~= escaped(s) + seq!['"'] + after_s);
    assert(y.skip(1) =~= escaped(t) + seq!['"'] + after_t);
    lemma_escaped_ends(s, t, after_s, after_t);
}

/// Appends `s` between double quotes, escaped, to `out`.
pub fn push_quoted(out: &mut Vec<char>, s: &str)
    ensures
        final(out)@ == old(out)@ + quoted(s@),
{
    let chars = chars_of(s);
    out.push('"');
    let ghost opened = out@;
    let mut i: usize = 0;
    while i < chars.len()
        invariant
            i <= chars.len(),
            out@ == opened + escaped(chars@.take(i as int)),
        decreases chars.len() - i,
    {
        let c = chars[i];
        assert(chars@.take(i + 1).drop_last() =~= chars@.take(i as int));
        if c == '"' || c == '\\' {
            out.push('\\');
        }
        out.push(c);
        assert(out@ =~= opened + escaped(chars@.take(i + 1)));
        i += 1;
    }
    assert(chars@.take(chars.len() as int) =~= chars@);
    out.push('"');
    assert(out@ =~= old(out)@ + quoted(s@));
}

} // verus!
