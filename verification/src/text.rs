//! Strings as sequences of characters: conversion and the order of codes.

use vstd::prelude::*;
use vstd::std_specs::iter::IteratorSpec;

verus! {

/// Taken on trust from the documentation of the standard library:
/// `String::push` appends one character to the end of the string.
pub assume_specification[ String::push ](s: &mut String, ch: char)
    ensures
        final(s)@ == old(s)@.push(ch),
;

/// Taken on trust from the documentation of the standard library:
/// `String::pop` removes the last character and returns it, or returns `None`
/// and leaves the string alone when it is empty.
pub assume_specification[ String::pop ](s: &mut String) -> (r: Option<char>)
    ensures
        old(s)@.len() == 0 ==> r is None && final(s)@ == old(s)@,
        old(s)@.len() > 0 ==> r == Some(old(s)@.last()) && final(s)@ == old(s)@.drop_last(),
;

/// The characters of `s`, in order.
pub fn to_chars(s: &str) -> (v: Vec<char>)
    ensures
        v@ == s@,
{
    let mut v: Vec<char> = Vec::new();
    for c in it: s.chars()
        invariant
            v@ == it.seq().take(it.index() as int),
            it.seq() == s@,
    {
        v.push(c);
    }
    v
}

/// The string made of the characters `chars[from..to]`.
pub fn from_chars(chars: &Vec<char>, from: usize, to: usize) -> (s: String)
    requires
        from <= to <= chars.len(),
    ensures
        s@ == chars@.subrange(from as int, to as int),
{
    let mut s = String::new();
    let mut i: usize = from;
    while i < to
        invariant
            from <= i <= to <= chars.len(),
            s@ == chars@.subrange(from as int, i as int),
        decreases to - i,
    {
        s.push(chars[i]);
        i += 1;
    }
    s
}

/// Strict lexicographic order of two character sequences, each character
/// weighed by its scalar value. This is the order in which codes and dates are
/// listed.
pub open spec fn lex_lt(a: Seq<char>, b: Seq<char>) -> bool
    decreases a.len(),
{
    if b.len() == 0 {
        false
    } else if a.len() == 0 {
        true
    } else if a[0] == b[0] {
        lex_lt(a.drop_first(), b.drop_first())
    } else {
        (a[0] as int) < (b[0] as int)
    }
}

/// No sequence comes before itself.
pub proof fn lemma_lex_lt_irreflexive(a: Seq<char>)
    ensures
        !lex_lt(a, a),
    decreases a.len(),
{
    if a.len() > 0 {
        lemma_lex_lt_irreflexive(a.drop_first());
    }
}

/// Of two different sequences exactly one comes before the other.
pub proof fn lemma_lex_lt_total(a: Seq<char>, b: Seq<char>)
    ensures
        a != b ==> (lex_lt(a, b) <==> !lex_lt(b, a)),
        a == b ==> !lex_lt(a, b) && !lex_lt(b, a),
    decreases a.len(),
{
    if a == b {
        lemma_lex_lt_irreflexive(a);
    } else if a.len() == 0 || b.len() == 0 {
        if a.len() == 0 && b.len() == 0 {
            assert(a =~= b);
        }
    } else if a[0] == b[0] {
        lemma_lex_lt_total(a.drop_first(), b.drop_first());
        if a.drop_first() == b.drop_first() {
            assert(a =~= seq![a[0]] + a.drop_first());
            assert(b =~= seq![b[0]] + b.drop_first());
        }
    }
}

/// The order is transitive.
pub proof fn lemma_lex_lt_transitive(a: Seq<char>, b: Seq<char>, c: Seq<char>)
    requires
        lex_lt(a, b),
        lex_lt(b, c),
    ensures
        lex_lt(a, c),
    decreases a.len(),
{
    if a.len() > 0 && a[0] == b[0] && b[0] == c[0] {
        lemma_lex_lt_transitive(a.drop_first(), b.drop_first(), c.drop_first());
    }
}

/// How one string stands against another in the order `lex_lt`.
#[derive(Clone, Copy, Debug, PartialEq, Eq, Structural)]
pub enum Ordem {
    Menor,
    Igual,
    Maior,
}

/// Compares two strings character by character.
pub fn compare(a: &str, b: &str) -> (r: Ordem)
    ensures
        r == Ordem::Menor <==> lex_lt(a@, b@),
        r == Ordem::Igual <==> a@ == b@,
        r == Ordem::Maior <==> lex_lt(b@, a@),
{
    let mut ia = a.chars();
    let mut ib = b.chars();
    let ghost k: int = 0;
    proof {
        lemma_lex_lt_total(a@, b@);
    }
    loop
        invariant
            0 <= k <= a@.len(),
            k <= b@.len(),
            ia.obeys_prophetic_iter_laws(),
            ib.obeys_prophetic_iter_laws(),
            ia.remaining() == a@.skip(k),
            ib.remaining() == b@.skip(k),
            a@.take(k) == b@.take(k),
            lex_lt(a@, b@) == lex_lt(a@.skip(k), b@.skip(k)),
            lex_lt(b@, a@) == lex_lt(b@.skip(k), a@.skip(k)),
        decreases a@.len() - k,
    {
        let x = ia.next();
        let y = ib.next();
        match (x, y) {
            (None, None) => {
                assert(a@ == a@.take(k));
                assert(b@ == b@.take(k));
                return Ordem::Igual;
            },
            (None, Some(_)) => {
                return Ordem::Menor;
            },
            (Some(_), None) => {
                return Ordem::Maior;
            },
            (Some(c), Some(d)) => {
                assert(a@.skip(k)[0] == a@[k]);
                assert(b@.skip(k)[0] == b@[k]);
                if c != d {
                    assert(a@ != b@);
                    if c < d {
                        return Ordem::Menor;
                    } else {
                        return Ordem::Maior;
                    }
                }
                proof {
                    assert(a@.skip(k).drop_first() == a@.skip(k + 1));
                    assert(b@.skip(k).drop_first() == b@.skip(k + 1));
                    assert(a@.take(k + 1) == a@.take(k).push(a@[k]));
                    assert(b@.take(k + 1) == b@.take(k).push(b@[k]));
                    k = k + 1;
                }
            },
        }
    }
}

/// The place of the first `c` in `s`, or the length of `s` when `c` is not in
/// it.
pub open spec fn position(s: Seq<char>, c: char) -> int
    decreases s.len(),
{
    if s.len() == 0 || s[0] == c {
        0
    } else {
        1 + position(s.drop_first(), c)
    }
}

/// No `c` stands before the place that `position` gives, and one stands there
/// unless that place is the end.
pub proof fn lemma_position(s: Seq<char>, c: char)
    ensures
        0 <= position(s, c) <= s.len(),
        forall|i: int| 0 <= i < position(s, c) ==> s[i] != c,
        position(s, c) < s.len() ==> s[position(s, c)] == c,
    decreases s.len(),
{
    if s.len() > 0 && s[0] != c {
        let rest = s.drop_first();
        lemma_position(rest, c);
        assert forall|i: int| 0 <= i < position(s, c) implies s[i] != c by {
            if i > 0 {
                assert(s[i] == rest[i - 1]);
            }
        }
    }
}

/// The place of the first `c` in `chars` from `from` on, or the length of
/// `chars` when there is none.
pub fn find_char(chars: &Vec<char>, from: usize, c: char) -> (p: usize)
    requires
        from <= chars.len(),
    ensures
        from <= p <= chars.len(),
        p == from + position(chars@.skip(from as int), c),
{
    let mut p: usize = from;
    while p < chars.len() && chars[p] != c
        invariant
            from <= p <= chars.len(),
            from + position(chars@.skip(from as int), c) == p + position(chars@.skip(p as int), c),
        decreases chars.len() - p,
    {
        assert(chars@.skip(p as int).drop_first() =~= chars@.skip(p + 1));
        p += 1;
    }
    p
}

/// Whether two strings hold the same characters.
pub fn same(a: &str, b: &str) -> (r: bool)
    ensures
        r == (a@ == b@),
{
    compare(a, b) == Ordem::Igual
}

} // verus!
