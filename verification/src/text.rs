//! Text as sequences of characters: cutting at separators, joining, and
//! decimal numbers.
//!
//! Everything here is stated over `Seq<char>`, the view of `str` and `String`.
//! The executable functions work on `Vec<char>` and `&[char]`, which give
//! constant-time access by position.

use vstd::prelude::*;

verus! {

/// `String::push`: the character is appended at the end, nothing else changes.
pub assume_specification[ String::push ](s: &mut String, ch: char)
    ensures
        final(s)@ == old(s)@.push(ch),
;

/// The views of a list of character vectors.
pub open spec fn views(parts: Seq<Vec<char>>) -> Seq<Seq<char>> {
    Seq::new(parts.len(), |i: int| parts[i]@)
}

/// `head` put in front of the first element of `parts`.
pub open spec fn prepend(head: Seq<char>, parts: Seq<Seq<char>>) -> Seq<Seq<char>> {
    seq![head + parts[0]] + parts.skip(1)
}

/// `s` cut at every occurrence of `pat`, found from left to right without
/// overlap. There is always at least one part; an empty `pat` cuts nowhere.
pub open spec fn split_text(s: Seq<char>, pat: Seq<char>) -> Seq<Seq<char>>
    decreases s.len(),
{
    if pat.len() == 0 || s.len() < pat.len() {
        seq![s]
    } else if s.take(pat.len() as int) == pat {
        seq![Seq::<char>::empty()] + split_text(s.skip(pat.len() as int), pat)
    } else {
        prepend(seq![s[0]], split_text(s.skip(1), pat))
    }
}

/// The parts written one after another with `sep` between neighbours.
pub open spec fn join_text(parts: Seq<Seq<char>>, sep: Seq<char>) -> Seq<char>
    decreases parts.len(),
{
    if parts.len() == 0 {
        Seq::empty()
    } else if parts.len() == 1 {
        parts[0]
    } else {
        join_text(parts.drop_last(), sep) + sep + parts.last()
    }
}

/// Whether `pat` stands in `s` at position `at`.
pub open spec fn occurs_at(s: Seq<char>, pat: Seq<char>, at: int) -> bool {
    0 <= at && at + pat.len() <= s.len() && s.subrange(at, at + pat.len()) == pat
}

/// The value of a decimal digit.
pub open spec fn digit_value(c: char) -> nat {
    (c as nat - '0' as nat) as nat
}

pub open spec fn is_digit(c: char) -> bool {
    '0' <= c <= '9'
}

/// The character of a digit below ten.
pub open spec fn digit_char(d: nat) -> char {
    if d == 0 {
        '0'
    } else if d == 1 {
        '1'
    } else if d == 2 {
        '2'
    } else if d == 3 {
        '3'
    } else if d == 4 {
        '4'
    } else if d == 5 {
        '5'
    } else if d == 6 {
        '6'
    } else if d == 7 {
        '7'
    } else if d == 8 {
        '8'
    } else {
        '9'
    }
}

/// Non-empty and made of decimal digits only.
pub open spec fn all_digits(s: Seq<char>) -> bool {
    s.len() > 0 && forall|i: int| 0 <= i < s.len() ==> is_digit(#[trigger] s[i])
}

/// The number that a run of decimal digits writes.
pub open spec fn decimal_value(digits: Seq<char>) -> nat
    decreases digits.len(),
{
    if digits.len() == 0 {
        0
    } else {
        decimal_value(digits.drop_last()) * 10 + digit_value(digits.last())
    }
}

/// A number in decimal, without sign or leading zeros.
pub open spec fn decimal_text(n: nat) -> Seq<char>
    decreases n,
{
    if n < 10 {
        seq![digit_char(n)]
    } else {
        decimal_text(n / 10).push(digit_char(n % 10))
    }
}

/// What a text means as an unsigned 64-bit number: an optional `+`, then one
/// or more decimal digits whose value fits; anything else means nothing.
pub open spec fn parse_decimal(s: Seq<char>) -> Option<u64> {
    let digits = if s.len() > 0 && s[0] == '+' {
        s.skip(1)
    } else {
        s
    };
    if all_digits(digits) && decimal_value(digits) <= u64::MAX {
        Some(decimal_value(digits) as u64)
    } else {
        None
    }
}

/// Cutting always leaves at least one part.
pub proof fn lemma_split_nonempty(s: Seq<char>, pat: Seq<char>)
    ensures
        split_text(s, pat).len() >= 1,
    decreases s.len(),
{
    if pat.len() == 0 || s.len() < pat.len() {
    } else if s.take(pat.len() as int) == pat {
        lemma_split_nonempty(s.skip(pat.len() as int), pat);
    } else {
        lemma_split_nonempty(s.skip(1), pat);
    }
}

/// Joining the parts of a cut with the separator gives the text back.
pub proof fn lemma_join_split(s: Seq<char>, pat: Seq<char>)
    ensures
        join_text(split_text(s, pat), pat) == s,
    decreases s.len(),
{
    if pat.len() == 0 || s.len() < pat.len() {
    } else if s.take(pat.len() as int) == pat {
        let rest = s.skip(pat.len() as int);
        lemma_join_split(rest, pat);
        lemma_split_nonempty(rest, pat);
        lemma_join_cons(Seq::empty(), split_text(rest, pat), pat);
        assert(Seq::<char>::empty() + pat + rest =~= s);
    } else {
        let rest = s.skip(1);
        lemma_join_split(rest, pat);
        lemma_split_nonempty(rest, pat);
        lemma_join_prepend(seq![s[0]], split_text(rest, pat), pat);
        assert(seq![s[0]] + rest =~= s);
    }
}

/// Joining with one more part in front.
pub proof fn lemma_join_cons(head: Seq<char>, parts: Seq<Seq<char>>, sep: Seq<char>)
    requires
        parts.len() >= 1,
    ensures
        join_text(seq![head] + parts, sep) == head + sep + join_text(parts, sep),
    decreases parts.len(),
{
    let all = seq![head] + parts;
    assert(all.drop_last() =~= seq![head] + parts.drop_last());
    assert(all.last() == parts.last());
    if parts.len() == 1 {
        assert(all.drop_last() =~= seq![head]);
        assert(join_text(all.drop_last(), sep) == head);
    } else {
        lemma_join_cons(head, parts.drop_last(), sep);
        assert(head + sep + join_text(parts.drop_last(), sep) + sep + parts.last() =~= head + sep
            + (join_text(parts.drop_last(), sep) + sep + parts.last()));
    }
}

/// Joining after text was put in front of the first part.
pub proof fn lemma_join_prepend(head: Seq<char>, parts: Seq<Seq<char>>, sep: Seq<char>)
    requires
        parts.len() >= 1,
    ensures
        join_text(prepend(head, parts), sep) == head + join_text(parts, sep),
    decreases parts.len(),
{
    let all = prepend(head, parts);
    if parts.len() == 1 {
        assert(all =~= seq![head + parts[0]]);
    } else {
        assert(all.drop_last() =~= prepend(head, parts.drop_last()));
        assert(all.last() == parts.last());
        lemma_join_prepend(head, parts.drop_last(), sep);
        assert(head + join_text(parts.drop_last(), sep) + sep + parts.last() =~= head + (join_text(
            parts.drop_last(),
            sep,
        ) + sep + parts.last()));
    }
}

/// A text without the separator is its own single part.
pub proof fn lemma_split_plain(s: Seq<char>, sep: char)
    requires
        !s.contains(sep),
    ensures
        split_text(s, seq![sep]) == seq![s],
    decreases s.len(),
{
    let pat = seq![sep];
    if s.len() >= 1 {
        assert(s.contains(s[0]));
        assert(s.take(1)[0] == s[0]);
        let rest = s.skip(1);
        assert forall|c: char| rest.contains(c) implies s.contains(c) by {
            let i = choose|i: int| 0 <= i < rest.len() && rest[i] == c;
            assert(s[i + 1] == c);
        }
        lemma_split_plain(rest, sep);
        assert(prepend(seq![s[0]], seq![rest]) =~= seq![s]) by {
            assert(seq![s[0]] + rest =~= s);
        }
    }
}

/// Cutting at one character goes part by part: the parts of two texts with
/// the separator between them are the parts of the first, then those of the
/// second.
pub proof fn lemma_split_concat(a: Seq<char>, b: Seq<char>, sep: char)
    ensures
        split_text(a + seq![sep] + b, seq![sep]) == split_text(a, seq![sep]) + split_text(
            b,
            seq![sep],
        ),
    decreases a.len(),
{
    let pat = seq![sep];
    let s = a + pat + b;
    if a.len() == 0 {
        assert(s.take(1) =~= pat);
        assert(s.skip(1) =~= b);
        assert(a =~= Seq::<char>::empty());
    } else {
        let rest = a.skip(1);
        assert(s.skip(1) =~= rest + pat + b);
        assert(s.take(1) =~= a.take(1));
        assert(s[0] == a[0]);
        lemma_split_concat(rest, b, sep);
        lemma_split_nonempty(rest, pat);
        if a.take(1) == pat {
        } else {
            assert(prepend(seq![a[0]], split_text(rest, pat) + split_text(b, pat)) =~= prepend(
                seq![a[0]],
                split_text(rest, pat),
            ) + split_text(b, pat));
        }
    }
}

/// Text without the separator, written behind another text, lengthens that
/// text's last part and changes no other.
pub proof fn lemma_split_append_plain(s: Seq<char>, t: Seq<char>, sep: char)
    requires
        !t.contains(sep),
    ensures
        split_text(s, seq![sep]).len() >= 1,
        split_text(s + t, seq![sep]) == split_text(s, seq![sep]).drop_last().push(
            split_text(s, seq![sep]).last() + t,
        ),
    decreases s.len(),
{
    let pat = seq![sep];
    lemma_split_nonempty(s, pat);
    if s.len() == 0 {
        assert(s + t =~= t);
        lemma_split_plain(t, sep);
        assert(s =~= Seq::<char>::empty());
        assert(seq![s].drop_last().push(s + t) =~= seq![t]);
    } else {
        let rest = s.skip(1);
        let all = s + t;
        assert(all.skip(1) =~= rest + t);
        assert(all.take(1) =~= s.take(1));
        assert(all[0] == s[0]);
        lemma_split_append_plain(rest, t, sep);
        let parts = split_text(rest, pat);
        let grown = parts.drop_last().push(parts.last() + t);
        if s.take(1) == pat {
            assert((seq![Seq::<char>::empty()] + parts).drop_last().push(parts.last() + t) =~= seq![
                Seq::<char>::empty(),
            ] + grown);
        } else {
            let whole = prepend(seq![s[0]], parts);
            assert(whole.drop_last().push(whole.last() + t) =~= prepend(seq![s[0]], grown)) by {
                if parts.len() == 1 {
                    assert((seq![s[0]] + parts[0]) + t =~= seq![s[0]] + (parts[0] + t));
                }
            }
        }
    }
}

/// Joining parts that hold no separator and cutting again gives the parts
/// back.
pub proof fn lemma_split_join(parts: Seq<Seq<char>>, sep: char)
    requires
        parts.len() >= 1,
        forall|i: int| 0 <= i < parts.len() ==> !(#[trigger] parts[i]).contains(sep),
    ensures
        split_text(join_text(parts, seq![sep]), seq![sep]) == parts,
    decreases parts.len(),
{
    let pat = seq![sep];
    if parts.len() == 1 {
        lemma_split_plain(parts[0], sep);
        assert(parts =~= seq![parts[0]]);
    } else {
        let tail = parts.skip(1);
        assert(parts =~= seq![parts[0]] + tail);
        lemma_join_cons(parts[0], tail, pat);
        assert forall|i: int| 0 <= i < tail.len() implies !(#[trigger] tail[i]).contains(sep) by {
            assert(tail[i] == parts[i + 1]);
        }
        lemma_split_join(tail, sep);
        lemma_split_concat(parts[0], join_text(tail, pat), sep);
        lemma_split_plain(parts[0], sep);
    }
}

/// No part of a cut at one character holds that character.
pub proof fn lemma_split_parts_plain(s: Seq<char>, sep: char)
    ensures
        forall|i: int|
            0 <= i < split_text(s, seq![sep]).len() ==> !(#[trigger] split_text(s, seq![sep])[i])
                .contains(sep),
    decreases s.len(),
{
    let pat = seq![sep];
    let parts = split_text(s, pat);
    if s.len() < 1 {
        assert(parts =~= seq![s]);
    } else if s.take(1) == pat {
        lemma_split_parts_plain(s.skip(1), sep);
        let rest = split_text(s.skip(1), pat);
        assert forall|i: int| 0 <= i < parts.len() implies !(#[trigger] parts[i]).contains(sep) by {
            if i > 0 {
                assert(parts[i] == rest[i - 1]);
            }
        }
    } else {
        lemma_split_parts_plain(s.skip(1), sep);
        lemma_split_nonempty(s.skip(1), pat);
        let rest = split_text(s.skip(1), pat);
        assert(s.take(1)[0] == s[0]);
        assert(s[0] != sep) by {
            if s[0] == sep {
                assert(s.take(1) =~= pat);
            }
        }
        assert forall|i: int| 0 <= i < parts.len() implies !(#[trigger] parts[i]).contains(sep) by {
            if i > 0 {
                assert(parts[i] == rest[i]);
            } else {
                let first = seq![s[0]] + rest[0];
                assert(parts[0] == first);
                if first.contains(sep) {
                    let k = choose|k: int| 0 <= k < first.len() && first[k] == sep;
                    assert(k > 0);
                    assert(rest[0][k - 1] == sep);
                    assert(rest[0].contains(sep));
                }
            }
        }
    }
}

/// A decimal text is made of digits only.
pub proof fn lemma_decimal_text_digits(n: nat)
    ensures
        all_digits(decimal_text(n)),
    decreases n,
{
    if n >= 10 {
        lemma_decimal_text_digits(n / 10);
    }
}

/// The digits of a number's decimal text are worth the number.
pub proof fn lemma_decimal_value_of_text(n: nat)
    ensures
        decimal_value(decimal_text(n)) == n,
    decreases n,
{
    if n < 10 {
        let t = decimal_text(n);
        assert(t.drop_last() =~= Seq::<char>::empty());
        assert(decimal_value(t.drop_last()) == 0);
    } else {
        lemma_decimal_value_of_text(n / 10);
        let t = decimal_text(n);
        assert(t.drop_last() =~= decimal_text(n / 10));
    }
}

/// A number in decimal can be read back in one way only: where the decimal
/// text of a number and more is the same as that of another and more, and
/// what follows begins with no digit, the two numbers are the same, and so is
/// what follows them.
pub proof fn lemma_decimal_ends(n: nat, m: nat, after_n: Seq<char>, after_m: Seq<char>)
    requires
        decimal_text(n) + after_n == decimal_text(m) + after_m,
        after_n.len() > 0 && !is_digit(after_n[0]),
        after_m.len() > 0 && !is_digit(after_m[0]),
    ensures
        n == m,
        after_n == after_m,
{
    let dn = decimal_text(n);
    let dm = decimal_text(m);
    let x = dn + after_n;
    let y = dm + after_m;
    lemma_decimal_text_digits(n);
    lemma_decimal_text_digits(m);
    if dn.len() < dm.len() {
        assert(x[dn.len() as int] == after_n[0]);
        assert(y[dn.len() as int] == dm[dn.len() as int]);
        assert(false);
    }
    if dm.len() < dn.len() {
        assert(y[dm.len() as int] == after_m[0]);
        assert(x[dm.len() as int] == dn[dm.len() as int]);
        assert(false);
    }
    assert(dn =~= x.take(dn.len() as int));
    assert(dm =~= y.take(dm.len() as int));
    lemma_decimal_value_of_text(n);
    lemma_decimal_value_of_text(m);
    assert(after_n =~= x.skip(dn.len() as int));
    assert(after_m =~= y.skip(dm.len() as int));
}

/// A number that is written in decimal and read again is the same number.
pub proof fn lemma_decimal_reads_back(n: u64)
    ensures
        parse_decimal(decimal_text(n as nat)) == Some(n),
{
    lemma_decimal_text_digits(n as nat);
    lemma_decimal_value_of_text(n as nat);
    assert(is_digit(decimal_text(n as nat)[0]));
}

/// The characters of a string slice.
pub fn chars_of(s: &str) -> (v: Vec<char>)
    ensures
        v@ == s@,
{
    let mut v: Vec<char> = Vec::new();
    for c in it: s.chars()
        invariant
            v@ == it.seq().take(it.index()),
            it.seq() == s@,
    {
        v.push(c);
    }
    v
}

/// A string of the given characters.
pub fn string_of(v: &[char]) -> (s: String)
    ensures
        s@ == v@,
{
    let mut s = String::new();
    let mut i: usize = 0;
    while i < v.len()
        invariant
            i <= v.len(),
            s@ == v@.take(i as int),
        decreases v.len() - i,
    {
        s.push(v[i]);
        i += 1;
    }
    s
}

/// Appends the characters of `extra` to `out`.
pub fn append_chars(out: &mut Vec<char>, extra: &[char])
    ensures
        final(out)@ == old(out)@ + extra@,
{
    let mut i: usize = 0;
    while i < extra.len()
        invariant
            i <= extra.len(),
            out@ == old(out)@ + extra@.take(i as int),
        decreases extra.len() - i,
    {
        out.push(extra[i]);
        i += 1;
    }
}

/// Appends the characters of a string slice to `out`.
pub fn append_str(out: &mut Vec<char>, extra: &str)
    ensures
        final(out)@ == old(out)@ + extra@,
{
    let chars = chars_of(extra);
    append_chars(out, chars.as_slice());
}

/// Whether `pat` stands in `s` at position `at`.
pub fn stands_at(s: &[char], pat: &[char], at: usize) -> (found: bool)
    ensures
        found == occurs_at(s@, pat@, at as int),
{
    if pat.len() > s.len() || at > s.len() - pat.len() {
        return false;
    }
    let mut k: usize = 0;
    while k < pat.len()
        invariant
            k <= pat.len(),
            at + pat.len() <= s.len(),
            s@.subrange(at as int, at + k) == pat@.take(k as int),
        decreases pat.len() - k,
    {
        if s[at + k] != pat[k] {
            assert(s@.subrange(at as int, at + pat.len())[k as int] != pat@[k as int]);
            return false;
        }
        assert(s@.subrange(at as int, at + k + 1) =~= s@.subrange(at as int, at + k).push(
            s@[at + k],
        ));
        assert(pat@.take(k + 1) =~= pat@.take(k as int).push(pat@[k as int]));
        k += 1;
    }
    assert(pat@ =~= pat@.take(pat.len() as int));
    true
}

/// Cuts `s` at every occurrence of `pat`, from left to right.
pub fn split(s: &[char], pat: &[char]) -> (parts: Vec<Vec<char>>)
    ensures
        views(parts@) == split_text(s@, pat@),
{
    let mut parts: Vec<Vec<char>> = Vec::new();
    let mut cur: Vec<char> = Vec::new();
    let n = s.len();
    let m = pat.len();
    let mut i: usize = 0;
    proof {
        assert(s@.skip(0) =~= s@);
        lemma_split_nonempty(s@, pat@);
        assert(prepend(cur@, split_text(s@, pat@)) =~= split_text(s@, pat@));
    }
    while i < n
        invariant
            i <= n,
            n == s@.len(),
            m == pat@.len(),
            split_text(s@, pat@) == views(parts@) + prepend(
                cur@,
                split_text(s@.skip(i as int), pat@),
            ),
        decreases n - i,
    {
        let ghost here = s@.skip(i as int);
        let ghost before = views(parts@);
        if m > 0 && stands_at(s, pat, i) {
            proof {
                let rest = split_text(s@.skip(i + m), pat@);
                assert(here.take(m as int) =~= s@.subrange(i as int, i + m));
                assert(here.skip(m as int) =~= s@.skip(i + m));
                lemma_split_nonempty(s@.skip(i + m), pat@);
                assert(prepend(cur@, seq![Seq::<char>::empty()] + rest) =~= seq![cur@] + rest);
                assert(prepend(Seq::<char>::empty(), rest) =~= rest);
            }
            parts.push(cur);
            cur = Vec::new();
            i += m;
            assert(views(parts@) =~= before.push(parts@.last()@));
        } else {
            proof {
                let next = s@.skip(i + 1);
                let longer = cur@.push(s@[i as int]);
                assert(here.skip(1) =~= next);
                lemma_split_nonempty(next, pat@);
                if m == 0 || here.len() < m {
                    assert(cur@ + here =~= longer + next);
                    assert(prepend(cur@, seq![here]) =~= prepend(longer, seq![next]));
                } else {
                    let rest = split_text(next, pat@);
                    assert(here.take(m as int) =~= s@.subrange(i as int, i + m));
                    assert(cur@ + (seq![here[0]] + rest[0]) =~= longer + rest[0]);
                    assert(prepend(cur@, prepend(seq![here[0]], rest)) =~= prepend(longer, rest));
                }
            }
            cur.push(s[i]);
            i += 1;
        }
    }
    proof {
        let rest = s@.skip(n as int);
        assert(rest =~= Seq::<char>::empty());
        assert(prepend(cur@, seq![rest]) =~= seq![cur@]);
    }
    let ghost before = views(parts@);
    parts.push(cur);
    assert(views(parts@) =~= before.push(parts@.last()@));
    parts
}

/// Writes the parts from `from` up to `to` one after another with `sep`
/// between neighbours.
pub(crate) fn join_between(parts: &[Vec<char>], from: usize, to: usize, sep: &[char]) -> (out: Vec<char>)
    requires
        from <= to <= parts@.len(),
    ensures
        out@ == join_text(views(parts@).subrange(from as int, to as int), sep@),
{
    let mut out: Vec<char> = Vec::new();
    let mut i: usize = from;
    while i < to
        invariant
            from <= i <= to <= parts@.len(),
            out@ == join_text(views(parts@).subrange(from as int, i as int), sep@),
        decreases to - i,
    {
        let ghost done = views(parts@).subrange(from as int, i as int);
        let ghost next = views(parts@).subrange(from as int, i + 1);
        assert(next.drop_last() =~= done);
        assert(next.last() == parts@[i as int]@);
        if i > from {
            append_chars(&mut out, sep);
        }
        append_chars(&mut out, parts[i].as_slice());
        proof {
            if i == from {
                assert(out@ =~= parts@[i as int]@);
            }
        }
        i += 1;
    }
    out
}

/// Writes the parts one after another with `sep` between neighbours.
pub fn join(parts: &[Vec<char>], sep: &[char]) -> (out: Vec<char>)
    ensures
        out@ == join_text(views(parts@), sep@),
{
    assert(views(parts@).subrange(0, parts@.len() as int) =~= views(parts@));
    join_between(parts, 0, parts.len(), sep)
}

/// A copy of the characters.
pub fn copy_chars(s: &[char]) -> (out: Vec<char>)
    ensures
        out@ == s@,
{
    let mut out: Vec<char> = Vec::new();
    append_chars(&mut out, s);
    assert(out@ =~= s@);
    out
}

/// What `s` means as an unsigned 64-bit number, if it means one.
pub fn parse_u64(s: &[char]) -> (value: Option<u64>)
    ensures
        value == parse_decimal(s@),
{
    let start: usize = if s.len() > 0 && s[0] == '+' {
        1
    } else {
        0
    };
    let ghost digits = s@.skip(start as int);
    assert(s@.skip(0) =~= s@);
    if start == s.len() {
        return None;
    }
    let mut acc: u64 = 0;
    let mut i: usize = start;
    while i < s.len()
        invariant
            start <= i <= s.len(),
            digits == s@.skip(start as int),
            digits == if s@.len() > 0 && s@[0] == '+' {
                s@.skip(1)
            } else {
                s@
            },
            forall|k: int| 0 <= k < i - start ==> is_digit(#[trigger] digits[k]),
            acc == decimal_value(digits.take(i - start)),
        decreases s.len() - i,
    {
        let c = s[i];
        let ghost seen = digits.take(i - start);
        let ghost more = digits.take(i - start + 1);
        assert(more.drop_last() =~= seen);
        assert(more.last() == c);
        if c < '0' || c > '9' {
            assert(!is_digit(digits[i - start]));
            return None;
        }
        let d: u64 = (c as u64) - ('0' as u64);
        assert(d == digit_value(c));
        if acc > (u64::MAX - d) / 10 {
            proof {
                assert(decimal_value(more) > u64::MAX);
                lemma_decimal_value_grows(digits, i - start + 1);
            }
            return None;
        }
        acc = acc * 10 + d;
        i += 1;
    }
    assert(digits.take(digits.len() as int) =~= digits);
    Some(acc)
}

/// A run of digits is worth at least as much as any of its beginnings.
pub proof fn lemma_decimal_value_grows(digits: Seq<char>, upto: int)
    requires
        0 <= upto <= digits.len(),
    ensures
        decimal_value(digits.take(upto)) <= decimal_value(digits),
    decreases digits.len() - upto,
{
    if upto < digits.len() {
        lemma_decimal_value_grows(digits, upto + 1);
        assert(digits.take(upto + 1).drop_last() =~= digits.take(upto));
    } else {
        assert(digits.take(upto) =~= digits);
    }
}

/// The decimal text of a number.
pub fn decimal(n: u64) -> (out: Vec<char>)
    ensures
        out@ == decimal_text(n as nat),
    decreases n,
{
    let last: u8 = (n % 10) as u8;
    let c = digit_of(last);
    if n < 10 {
        let mut out: Vec<char> = Vec::new();
        out.push(c);
        out
    } else {
        let mut out = decimal(n / 10);
        out.push(c);
        out
    }
}

/// The character of a digit below ten.
pub(crate) fn digit_of(d: u8) -> (c: char)
    requires
        d < 10,
    ensures
        c == digit_char(d as nat),
{
    if d == 0 {
        '0'
    } else if d == 1 {
        '1'
    } else if d == 2 {
        '2'
    } else if d == 3 {
        '3'
    } else if d == 4 {
        '4'
    } else if d == 5 {
        '5'
    } else if d == 6 {
        '6'
    } else if d == 7 {
        '7'
    } else if d == 8 {
        '8'
    } else {
        '9'
    }
}

} // verus!
