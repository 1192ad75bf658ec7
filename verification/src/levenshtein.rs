//! Edit distance between two strings, counted in characters.

use vstd::prelude::*;
use crate::text::to_chars;

verus! {

/// The least of three numbers.
pub open spec fn min3(x: nat, y: nat, z: nat) -> nat {
    if x <= y && x <= z {
        x
    } else if y <= z {
        y
    } else {
        z
    }
}

/// The least number of single-character insertions, deletions and
/// substitutions that turn `a` into `b`.
///
/// With one of the two empty, every character of the other is inserted or
/// deleted. Otherwise the last character of `a` is deleted, or the last of `b`
/// is inserted, or the one is put in place of the other, which costs nothing
/// when they are the same.
pub open spec fn distance(a: Seq<char>, b: Seq<char>) -> nat
    decreases a.len() + b.len(),
{
    if a.len() == 0 {
        b.len()
    } else if b.len() == 0 {
        a.len()
    } else {
        let delete = distance(a.drop_last(), b) + 1;
        let insert = distance(a, b.drop_last()) + 1;
        let replace = distance(a.drop_last(), b.drop_last()) + if a.last() == b.last() {
            0nat
        } else {
            1nat
        };
        min3(delete, insert, replace)
    }
}

/// The distance never exceeds the length of the longer sequence.
pub proof fn lemma_distance_bound(a: Seq<char>, b: Seq<char>)
    ensures
        distance(a, b) <= a.len() || distance(a, b) <= b.len(),
    decreases a.len() + b.len(),
{
    if a.len() > 0 && b.len() > 0 {
        lemma_distance_bound(a.drop_last(), b.drop_last());
    }
}

/// One character more at the end of `a` costs at most one edit more.
proof fn lemma_step_first(a: Seq<char>, b: Seq<char>)
    requires
        a.len() > 0,
    ensures
        distance(a, b) <= distance(a.drop_last(), b) + 1,
{
}

/// One character more at the end of `b` costs at most one edit more.
proof fn lemma_step_second(a: Seq<char>, b: Seq<char>)
    requires
        b.len() > 0,
    ensures
        distance(a, b) <= distance(a, b.drop_last()) + 1,
{
}

/// One character fewer at the end of `b` costs at most one edit more.
proof fn lemma_drop_second(a: Seq<char>, b: Seq<char>)
    requires
        b.len() > 0,
    ensures
        distance(a, b.drop_last()) <= distance(a, b) + 1,
    decreases a.len() + b.len(),
{
    if a.len() > 0 {
        lemma_drop_second(a.drop_last(), b);
        lemma_step_first(a, b.drop_last());
    }
}

/// One character fewer at the end of `a` costs at most one edit more.
proof fn lemma_drop_first(a: Seq<char>, b: Seq<char>)
    requires
        a.len() > 0,
    ensures
        distance(a.drop_last(), b) <= distance(a, b) + 1,
    decreases a.len() + b.len(),
{
    if b.len() > 0 {
        lemma_drop_first(a, b.drop_last());
        lemma_step_second(a.drop_last(), b);
    }
}

/// Where both sequences end in the same character, that character is left
/// alone: the distance is that of the two sequences without it.
pub proof fn lemma_distance_same_last(a: Seq<char>, b: Seq<char>)
    requires
        a.len() > 0,
        b.len() > 0,
        a.last() == b.last(),
    ensures
        distance(a, b) == distance(a.drop_last(), b.drop_last()),
{
    lemma_drop_second(a.drop_last(), b);
    lemma_drop_first(a, b.drop_last());
}

/// A sequence is at distance zero from itself.
pub proof fn lemma_distance_self(x: Seq<char>)
    ensures
        distance(x, x) == 0,
    decreases x.len(),
{
    if x.len() > 0 {
        lemma_distance_self(x.drop_last());
    }
}

/// From the empty sequence, the distance is the length of the other one.
pub proof fn lemma_distance_from_empty(s: Seq<char>)
    ensures
        distance(Seq::<char>::empty(), s) == s.len(),
        distance(s, Seq::<char>::empty()) == s.len(),
{
}

/// Only equal sequences are at distance zero.
pub proof fn lemma_distance_zero(a: Seq<char>, b: Seq<char>)
    requires
        distance(a, b) == 0,
    ensures
        a == b,
    decreases a.len() + b.len(),
{
    if a.len() == 0 || b.len() == 0 {
        assert(a =~= b);
    } else {
        lemma_distance_zero(a.drop_last(), b.drop_last());
        assert(a =~= a.drop_last().push(a.last()));
        assert(b =~= b.drop_last().push(b.last()));
    }
}

/// One change of a sequence of characters, at a place counted from its start:
/// a character put in before that place, the character at that place taken
/// out, or the character at that place turned into another.
pub enum Edit {
    Insert(int, char),
    Delete(int),
    Replace(int, char),
}

impl Edit {
    /// Whether the place of the edit is one of `s`.
    pub open spec fn fits(self, s: Seq<char>) -> bool {
        match self {
            Edit::Insert(i, _) => 0 <= i <= s.len(),
            Edit::Delete(i) => 0 <= i < s.len(),
            Edit::Replace(i, _) => 0 <= i < s.len(),
        }
    }

    /// The sequence that the edit makes of `s`.
    pub open spec fn apply(self, s: Seq<char>) -> Seq<char> {
        match self {
            Edit::Insert(i, c) => s.insert(i, c),
            Edit::Delete(i) => s.remove(i),
            Edit::Replace(i, c) => s.update(i, c),
        }
    }
}

/// Whether the edits, made one after the other, turn `a` into `b`.
pub open spec fn transforms(edits: Seq<Edit>, a: Seq<char>, b: Seq<char>) -> bool
    decreases edits.len(),
{
    if edits.len() == 0 {
        a == b
    } else {
        edits[0].fits(a) && transforms(edits.drop_first(), edits[0].apply(a), b)
    }
}

/// The distance is no less than the difference of the lengths.
proof fn lemma_distance_at_least(a: Seq<char>, b: Seq<char>)
    ensures
        distance(a, b) + a.len() >= b.len(),
    decreases a.len() + b.len(),
{
    if a.len() > 0 && b.len() > 0 {
        lemma_distance_at_least(a.drop_last(), b);
        lemma_distance_at_least(a, b.drop_last());
        lemma_distance_at_least(a.drop_last(), b.drop_last());
    }
}

/// One edit brings a sequence at most one step nearer to another.
proof fn lemma_one_edit(e: Edit, s: Seq<char>, b: Seq<char>)
    requires
        e.fits(s),
    ensures
        distance(s, b) <= 1 + distance(e.apply(s), b),
    decreases s.len() + b.len(),
{
    let t = e.apply(s);
    if b.len() == 0 {
    } else if s.len() == 0 {
        lemma_distance_at_least(t, b);
    } else {
        let s0 = s.drop_last();
        let b0 = b.drop_last();
        lemma_step_first(s, b);
        lemma_step_second(s, b);
        let at_end = match e {
            Edit::Insert(i, _) => i == s.len(),
            Edit::Delete(i) => i == s.len() - 1,
            Edit::Replace(i, _) => i == s.len() - 1,
        };
        if at_end {
            match e {
                Edit::Insert(_, c) => {
                    assert(t.drop_last() =~= s);
                    lemma_one_edit(e, s, b0);
                },
                Edit::Delete(_) => {
                    assert(t =~= s0);
                },
                Edit::Replace(_, c) => {
                    assert(t.drop_last() =~= s0);
                    lemma_one_edit(e, s, b0);
                },
            }
        } else {
            assert(e.fits(s0));
            assert(t.drop_last() =~= e.apply(s0));
            assert(t.last() == s.last());
            lemma_one_edit(e, s0, b);
            lemma_one_edit(e, s, b0);
            lemma_one_edit(e, s0, b0);
        }
    }
}

/// Edits that turn one sequence into another are at least as many as the
/// distance between the two.
pub proof fn lemma_edits_are_at_least_the_distance(edits: Seq<Edit>, a: Seq<char>, b: Seq<char>)
    requires
        transforms(edits, a, b),
    ensures
        distance(a, b) <= edits.len(),
    decreases edits.len(),
{
    if edits.len() == 0 {
        lemma_distance_self(a);
    } else {
        lemma_one_edit(edits[0], a, b);
        lemma_edits_are_at_least_the_distance(edits.drop_first(), edits[0].apply(a), b);
    }
}

/// Edits that lead from `a` to `m`, followed by edits that lead from `m` to
/// `b`, lead from `a` to `b`.
proof fn lemma_transforms_chain(
    first: Seq<Edit>,
    second: Seq<Edit>,
    a: Seq<char>,
    m: Seq<char>,
    b: Seq<char>,
)
    requires
        transforms(first, a, m),
        transforms(second, m, b),
    ensures
        transforms(first + second, a, b),
    decreases first.len(),
{
    if first.len() == 0 {
        assert(first + second =~= second);
    } else {
        lemma_transforms_chain(first.drop_first(), second, first[0].apply(a), m, b);
        assert((first + second).drop_first() =~= first.drop_first() + second);
    }
}

/// Edits that turn `a` into `b` turn `a` with one more character at its end
/// into `b` with that character at its end.
proof fn lemma_transforms_before(edits: Seq<Edit>, a: Seq<char>, b: Seq<char>, x: char)
    requires
        transforms(edits, a, b),
    ensures
        transforms(edits, a.push(x), b.push(x)),
    decreases edits.len(),
{
    if edits.len() > 0 {
        let e = edits[0];
        assert(e.apply(a.push(x)) =~= e.apply(a).push(x));
        lemma_transforms_before(edits.drop_first(), e.apply(a), b, x);
    }
}

/// An edit that fits `a` and makes `b` of it is, alone, a run of edits that
/// turns `a` into `b`.
proof fn lemma_transforms_single(e: Edit, a: Seq<char>, b: Seq<char>) -> (edits: Seq<Edit>)
    requires
        e.fits(a),
        e.apply(a) == b,
    ensures
        transforms(edits, a, b),
        edits.len() == 1,
{
    let edits = seq![e];
    assert(edits.drop_first() =~= Seq::<Edit>::empty());
    assert(transforms(edits.drop_first(), b, b));
    edits
}

/// As many edits as the distance says turn `a` into `b`.
pub proof fn lemma_distance_many_edits_suffice(a: Seq<char>, b: Seq<char>) -> (edits: Seq<Edit>)
    ensures
        transforms(edits, a, b),
        edits.len() == distance(a, b),
    decreases a.len() + b.len(),
{
    let a0 = a.drop_last();
    let b0 = b.drop_last();
    if a.len() == 0 && b.len() == 0 {
        assert(a =~= b);
        Seq::empty()
    } else if b.len() > 0 && (a.len() == 0 || distance(a, b) == distance(a, b0) + 1) {
        // The last character of `b` is put in at the end.
        let head = lemma_distance_many_edits_suffice(a, b0);
        let e = Edit::Insert(b0.len() as int, b.last());
        assert(e.apply(b0) =~= b);
        let last = lemma_transforms_single(e, b0, b);
        lemma_transforms_chain(head, last, a, b0, b);
        head + last
    } else if b.len() == 0 || distance(a, b) == distance(a0, b) + 1 {
        // The last character of `a` is taken out first.
        let tail = lemma_distance_many_edits_suffice(a0, b);
        let e = Edit::Delete(a0.len() as int);
        assert(e.apply(a) =~= a0);
        let first = lemma_transforms_single(e, a, a0);
        lemma_transforms_chain(first, tail, a, a0, b);
        first + tail
    } else {
        // The last character of `a` becomes the last character of `b`.
        let inner = lemma_distance_many_edits_suffice(a0, b0);
        lemma_transforms_before(inner, a0, b0, b.last());
        assert(b0.push(b.last()) =~= b);
        if a.last() == b.last() {
            assert(a0.push(b.last()) =~= a);
            inner
        } else {
            let e = Edit::Replace(a0.len() as int, b.last());
            let m = a0.push(b.last());
            assert(e.apply(a) =~= m);
            let first = lemma_transforms_single(e, a, m);
            lemma_transforms_chain(first, inner, a, m, b);
            first + inner
        }
    }
}

/// The distance from `a` to `b` is the least number of edits, each of one
/// character, that turn `a` into `b`: so many suffice, and fewer do not.
pub proof fn lemma_distance_is_least_number_of_edits(a: Seq<char>, b: Seq<char>)
    ensures
        exists|edits: Seq<Edit>| transforms(edits, a, b) && edits.len() == distance(a, b),
        forall|edits: Seq<Edit>| transforms(edits, a, b) ==> edits.len() >= distance(a, b),
{
    let witness = lemma_distance_many_edits_suffice(a, b);
    assert forall|edits: Seq<Edit>| transforms(edits, a, b) implies edits.len() >= distance(a, b) by {
        lemma_edits_are_at_least_the_distance(edits, a, b);
    }
}

/// The edit distance from `a` to `b`, both read as sequences of characters.
pub fn levenshtein_distance(a: &str, b: &str) -> (d: usize)
    ensures
        d == distance(a@, b@),
{
    let xs = to_chars(a);
    let ys = to_chars(b);
    let n = xs.len();
    let m = ys.len();
    // costs[j] is the distance from the part of `a` read so far to b[..j].
    let mut costs: Vec<usize> = Vec::new();
    costs.push(0);
    let mut j: usize = 0;
    while j < m
        invariant
            j <= m,
            m == ys.len(),
            costs.len() == j + 1,
            forall|k: int| 0 <= k <= j ==> costs[k] == distance(xs@.take(0), ys@.take(k)),
        decreases m - j,
    {
        j += 1;
        costs.push(j);
    }
    let mut i: usize = 0;
    while i < n
        invariant
            i <= n,
            n == xs.len(),
            m == ys.len(),
            costs.len() == m + 1,
            forall|k: int| 0 <= k <= m ==> costs[k] == distance(xs@.take(i as int), ys@.take(k)),
        decreases n - i,
    {
        let ghost before = xs@.take(i as int);
        let ghost now = xs@.take(i + 1);
        assert(now.drop_last() == before);
        assert(now.last() == xs@[i as int]);
        let mut corner: usize = costs[0];
        costs.set(0, i + 1);
        let mut j: usize = 0;
        while j < m
            invariant
                j <= m,
                i < n,
                n == xs.len(),
                m == ys.len(),
                costs.len() == m + 1,
                now == xs@.take(i + 1),
                before == xs@.take(i as int),
                now.drop_last() == before,
                now.last() == xs@[i as int],
                corner == distance(before, ys@.take(j as int)),
                forall|k: int| 0 <= k <= j ==> costs[k] == distance(now, ys@.take(k)),
                forall|k: int| j < k <= m ==> costs[k] == distance(before, ys@.take(k)),
            decreases m - j,
        {
            let ghost short = ys@.take(j as int);
            let ghost long = ys@.take(j + 1);
            assert(long.drop_last() == short);
            assert(long.last() == ys@[j as int]);
            let upper = costs[j + 1];
            let left = costs[j];
            proof {
                lemma_distance_bound(now, long);
            }
            if xs[i] == ys[j] {
                proof {
                    lemma_distance_same_last(now, long);
                }
                costs.set(j + 1, corner);
            } else {
                let mut least = corner;
                if upper < least {
                    least = upper;
                }
                if left < least {
                    least = left;
                }
                assert(least + 1 == distance(now, long));
                costs.set(j + 1, least + 1);
            }
            corner = upper;
            j += 1;
        }
        i += 1;
    }
    assert(xs@.take(n as int) == xs@);
    assert(ys@.take(m as int) == ys@);
    costs[m]
}

} // verus!
