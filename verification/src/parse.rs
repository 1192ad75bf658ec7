//! What the operator types: words between blanks, a whole number, and the line
//! "code quantity" of the forms.

use vstd::prelude::*;
use crate::text::{from_chars, to_chars};

verus! {

/// The blank characters: those that Unicode marks as white space.
pub open spec fn whitespace(c: char) -> bool {
    let u = c as int;
    ||| 0x09 <= u <= 0x0D
    ||| u == 0x20
    ||| u == 0x85
    ||| u == 0xA0
    ||| u == 0x1680
    ||| 0x2000 <= u <= 0x200A
    ||| u == 0x2028
    ||| u == 0x2029
    ||| u == 0x202F
    ||| u == 0x205F
    ||| u == 0x3000
}

/// Whether `c` is a blank character.
pub fn is_whitespace(c: char) -> (r: bool)
    ensures
        r == whitespace(c),
{
    let u = c as u32;
    (0x09 <= u && u <= 0x0D) || u == 0x20 || u == 0x85 || u == 0xA0 || u == 0x1680 || (0x2000 <= u
        && u <= 0x200A) || u == 0x2028 || u == 0x2029 || u == 0x202F || u == 0x205F || u == 0x3000
}

/// The words of `s`: its longest runs of characters that are not blank, in
/// order. Read from the left, a blank adds nothing, a character after a
/// character that is not blank goes on with the last word, and any other
/// character starts a word.
pub open spec fn words(s: Seq<char>) -> Seq<Seq<char>>
    decreases s.len(),
{
    if s.len() == 0 {
        Seq::empty()
    } else {
        let before = words(s.drop_last());
        if whitespace(s.last()) {
            before
        } else if s.len() >= 2 && !whitespace(s[s.len() - 2]) {
            before.drop_last().push(before.last().push(s.last()))
        } else {
            before.push(seq![s.last()])
        }
    }
}

/// `s` without the blanks at its start.
pub open spec fn trim_start(s: Seq<char>) -> Seq<char>
    decreases s.len(),
{
    if s.len() > 0 && whitespace(s[0]) {
        trim_start(s.drop_first())
    } else {
        s
    }
}

/// `s` without the blanks at its end.
pub open spec fn trim_end(s: Seq<char>) -> Seq<char>
    decreases s.len(),
{
    if s.len() > 0 && whitespace(s.last()) {
        trim_end(s.drop_last())
    } else {
        s
    }
}

/// `s` without the blanks at its start and at its end.
pub open spec fn trimmed(s: Seq<char>) -> Seq<char> {
    trim_end(trim_start(s))
}

/// Whether `c` is one of the ten digits.
pub open spec fn is_digit(c: char) -> bool {
    '0' <= c <= '9'
}

/// The number that a run of digits writes in base ten.
pub open spec fn digits_value(s: Seq<char>) -> nat
    decreases s.len(),
{
    if s.len() == 0 {
        0
    } else {
        (digits_value(s.drop_last()) * 10 + (s.last() as int - '0' as int)) as nat
    }
}

/// Every character of `s` is a digit.
pub open spec fn all_digits(s: Seq<char>) -> bool {
    forall|i: int| 0 <= i < s.len() ==> is_digit(#[trigger] s[i])
}

/// The whole number that `s` writes: an optional sign, `+` or `-`, then one
/// digit or more, the value being one that 32 bits hold. Anything else writes
/// no number.
pub open spec fn number(s: Seq<char>) -> Option<i32> {
    let signed = s.len() > 0 && (s[0] == '-' || s[0] == '+');
    let body = if signed {
        s.drop_first()
    } else {
        s
    };
    let value = if signed && s[0] == '-' {
        -(digits_value(body) as int)
    } else {
        digits_value(body) as int
    };
    if body.len() > 0 && all_digits(body) && i32::MIN <= value <= i32::MAX {
        Some(value as i32)
    } else {
        None
    }
}

/// Why a line of a form is turned down.
#[derive(Clone, Copy, Debug, PartialEq, Eq, Structural)]
pub enum ParseError {
    /// The line does not hold exactly two words.
    Formato,
    /// The second word is no whole number.
    Quantidade,
}

/// What the line `s` of a form asks for: a code and a quantity, when the line
/// holds two words of which the second writes a number.
pub open spec fn command(s: Seq<char>) -> Result<(Seq<char>, i32), ParseError> {
    let w = words(s);
    if w.len() != 2 {
        Err(ParseError::Formato)
    } else {
        match number(w[1]) {
            Some(q) => Ok((w[0], q)),
            None => Err(ParseError::Quantidade),
        }
    }
}

/// No word is empty, and no word holds a blank.
pub proof fn lemma_words_hold_no_blank(s: Seq<char>)
    ensures
        forall|i: int|
            0 <= i < words(s).len() ==> (#[trigger] words(s)[i]).len() > 0 && forall|j: int|
                0 <= j < words(s)[i].len() ==> !whitespace(#[trigger] words(s)[i][j]),
        s.len() > 0 && !whitespace(s.last()) ==> words(s).len() > 0,
    decreases s.len(),
{
    if s.len() > 0 {
        lemma_words_hold_no_blank(s.drop_last());
        let before = words(s.drop_last());
        if !whitespace(s.last()) && s.len() >= 2 && !whitespace(s[s.len() - 2]) {
            assert(s.drop_last().last() == s[s.len() - 2]);
            let grown = before.last().push(s.last());
            assert forall|i: int| 0 <= i < words(s).len() implies (#[trigger] words(s)[i]).len() > 0
                && forall|j: int|
                0 <= j < words(s)[i].len() ==> !whitespace(#[trigger] words(s)[i][j]) by {
                if i < before.len() - 1 {
                    assert(words(s)[i] == before[i]);
                } else {
                    assert(words(s)[i] == grown);
                    assert forall|j: int| 0 <= j < grown.len() implies !whitespace(
                        #[trigger] grown[j],
                    ) by {
                        if j < before.last().len() {
                            assert(grown[j] == before[before.len() - 1][j]);
                        }
                    }
                }
            }
        } else if !whitespace(s.last()) {
            assert forall|i: int| 0 <= i < words(s).len() implies (#[trigger] words(s)[i]).len() > 0
                && forall|j: int|
                0 <= j < words(s)[i].len() ==> !whitespace(#[trigger] words(s)[i][j]) by {
                if i < before.len() {
                    assert(words(s)[i] == before[i]);
                }
            }
        }
    }
}

/// A text without a blank is one word.
pub proof fn lemma_words_of_one_run(s: Seq<char>)
    requires
        s.len() > 0,
        forall|j: int| 0 <= j < s.len() ==> !whitespace(#[trigger] s[j]),
    ensures
        words(s) == seq![s],
    decreases s.len(),
{
    if s.len() == 1 {
        assert(words(s.drop_last()) =~= Seq::<Seq<char>>::empty());
        assert(seq![s.last()] =~= s);
        assert(words(s) =~= seq![s]);
    } else {
        let head = s.drop_last();
        assert forall|j: int| 0 <= j < head.len() implies !whitespace(#[trigger] head[j]) by {
            assert(head[j] == s[j]);
        }
        lemma_words_of_one_run(head);
        assert(head.push(s.last()) =~= s);
        assert(words(s) =~= seq![s]);
    }
}

/// Where a text is cut at a blank, or at its start or end, its words are those
/// of the part before the cut followed by those of the part after it.
pub proof fn lemma_words_split(a: Seq<char>, b: Seq<char>)
    requires
        a.len() == 0 || whitespace(a.last()) || b.len() == 0 || whitespace(b[0]),
    ensures
        words(a + b) == words(a) + words(b),
    decreases b.len(),
{
    if b.len() == 0 {
        assert(a + b =~= a);
        assert(words(a) + words(b) =~= words(a));
    } else {
        let b0 = b.drop_last();
        let c = b.last();
        let whole = a + b;
        assert(whole.drop_last() =~= a + b0);
        assert(whole.last() == c);
        lemma_words_split(a, b0);
        if whitespace(c) {
        } else if b0.len() > 0 {
            assert(whole[whole.len() - 2] == b0.last());
            assert(b[b.len() - 2] == b0.last());
            if !whitespace(b0.last()) {
                lemma_words_hold_no_blank(b0);
                assert(words(whole) =~= words(a) + words(b));
            } else {
                assert(words(whole) =~= words(a) + words(b));
            }
        } else {
            assert(a + b0 =~= a);
            if a.len() > 0 {
                assert(whole[whole.len() - 2] == a.last());
            }
            assert(words(b0) =~= Seq::<Seq<char>>::empty());
            assert(words(whole) =~= words(a) + words(b));
        }
    }
}

/// The code that a line of a form asks for is not empty and holds no blank.
pub proof fn lemma_command_code_is_a_word(s: Seq<char>)
    ensures
        command(s) matches Ok((code, _)) ==> code.len() > 0 && forall|j: int|
            0 <= j < code.len() ==> !whitespace(#[trigger] code[j]),
{
    lemma_words_hold_no_blank(s);
    if words(s).len() == 2 {
        assert(words(s)[0].len() > 0);
    }
}

/// A longer run of digits writes no smaller number.
proof fn lemma_digits_value_grows(s: Seq<char>, k: int)
    requires
        0 <= k <= s.len(),
        all_digits(s),
    ensures
        digits_value(s.take(k)) <= digits_value(s),
    decreases s.len() - k,
{
    if k < s.len() {
        lemma_digits_value_grows(s, k + 1);
        assert(s.take(k + 1).drop_last() =~= s.take(k));
        assert(is_digit(s[k]));
        assert(s.take(k + 1).last() == s[k]);
    } else {
        assert(s.take(k) =~= s);
    }
}

/// The words of `s`, in order.
pub fn split_words(s: &str) -> (r: Vec<String>)
    ensures
        r.deep_view() == words(s@),
{
    let chars = to_chars(s);
    let mut r: Vec<String> = Vec::new();
    let mut start: usize = 0;
    let mut i: usize = 0;
    assert(r.deep_view() =~= Seq::<Seq<char>>::empty());
    assert(chars@.take(0) =~= Seq::<char>::empty());
    // chars[start..i] is the word that is being read, if one is.
    while i < chars.len()
        invariant
            start <= i <= chars.len(),
            chars@ == s@,
            ({
                let done = words(chars@.take(i as int));
                let open = i > 0 && !whitespace(chars@[i - 1]);
                &&& open ==> start < i && done.len() > 0 && r.deep_view() == done.drop_last()
                    && done.last() == chars@.subrange(start as int, i as int)
                &&& !open ==> r.deep_view() == done
            }),
        decreases chars.len() - i,
    {
        let ghost before = words(chars@.take(i as int));
        let ghost now = chars@.take(i + 1);
        proof {
            assert(now.drop_last() =~= chars@.take(i as int));
            assert(now.last() == chars@[i as int]);
            if i > 0 {
                assert(now[now.len() - 2] == chars@[i - 1]);
            }
        }
        let open = i > 0 && !is_whitespace(chars[i - 1]);
        if is_whitespace(chars[i]) {
            if open {
                let ghost old_r = r.deep_view();
                let word = from_chars(&chars, start, i);
                r.push(word);
                assert(r.deep_view() =~= old_r.push(word@));
                assert(before =~= before.drop_last().push(before.last()));
            }
        } else {
            if !open {
                start = i;
                assert(chars@.subrange(i as int, i + 1) =~= seq![chars@[i as int]]);
            } else {
                assert(chars@.subrange(start as int, i + 1) =~= chars@.subrange(
                    start as int,
                    i as int,
                ).push(chars@[i as int]));
            }
        }
        i += 1;
    }
    assert(chars@.take(i as int) =~= chars@);
    if i > 0 && !is_whitespace(chars[i - 1]) {
        let ghost old_r = r.deep_view();
        let ghost done = words(chars@);
        let word = from_chars(&chars, start, i);
        r.push(word);
        assert(r.deep_view() =~= old_r.push(word@));
        assert(done =~= done.drop_last().push(done.last()));
    }
    r
}

/// `s` without the blanks at its start and at its end.
pub fn trim(s: &str) -> (r: String)
    ensures
        r@ == trimmed(s@),
{
    let chars = to_chars(s);
    let mut from: usize = 0;
    assert(chars@.skip(0) =~= chars@);
    while from < chars.len() && is_whitespace(chars[from])
        invariant
            from <= chars.len(),
            trim_start(chars@) == trim_start(chars@.skip(from as int)),
        decreases chars.len() - from,
    {
        assert(chars@.skip(from as int).drop_first() =~= chars@.skip(from + 1));
        from += 1;
    }
    let mut to: usize = chars.len();
    assert(chars@.skip(from as int) =~= chars@.subrange(from as int, to as int));
    while from < to && is_whitespace(chars[to - 1])
        invariant
            from <= to <= chars.len(),
            trimmed(chars@) == trim_end(chars@.subrange(from as int, to as int)),
        decreases to - from,
    {
        assert(chars@.subrange(from as int, to as int).drop_last() =~= chars@.subrange(
            from as int,
            to - 1,
        ));
        to -= 1;
    }
    from_chars(&chars, from, to)
}

/// The whole number that `s` writes, if it writes one.
pub fn parse_number(s: &str) -> (r: Option<i32>)
    ensures
        r == number(s@),
{
    let chars = to_chars(s);
    let n = chars.len();
    let signed = n > 0 && (chars[0] == '-' || chars[0] == '+');
    let negative = signed && chars[0] == '-';
    let first: usize = if signed {
        1
    } else {
        0
    };
    let ghost body = if signed {
        chars@.drop_first()
    } else {
        chars@
    };
    assert(body =~= chars@.skip(first as int));
    if first == n {
        return None;
    }
    let mut total: i64 = 0;
    let mut i: usize = first;
    assert(body.take(0) =~= Seq::<char>::empty());
    while i < n
        invariant
            first <= i <= n,
            n == chars.len(),
            chars@ == s@,
            signed == (s@.len() > 0 && (s@[0] == '-' || s@[0] == '+')),
            body == if signed {
                s@.drop_first()
            } else {
                s@
            },
            body.len() == n - first > 0,
            body == chars@.skip(first as int),
            all_digits(body.take(i - first)),
            total == digits_value(body.take(i - first)),
            total <= 0x8000_0000,
        decreases n - i,
    {
        let c = chars[i];
        let ghost head = body.take(i - first);
        let ghost next = body.take(i - first + 1);
        proof {
            assert(next.drop_last() =~= head);
            assert(next.last() == c);
        }
        if !('0' <= c && c <= '9') {
            assert(!is_digit(body[i - first]));
            return None;
        }
        assert(all_digits(next)) by {
            assert forall|k: int| 0 <= k < next.len() implies is_digit(#[trigger] next[k]) by {
                if k < head.len() {
                    assert(next[k] == head[k]);
                }
            }
        }
        let digit: i64 = (c as u32 - 48) as i64;
        total = total * 10 + digit;
        if total > 0x8000_0000 {
            proof {
                if all_digits(body) {
                    lemma_digits_value_grows(body, i - first + 1);
                }
            }
            return None;
        }
        i += 1;
    }
    assert(body.take(i - first) =~= body);
    let value: i64 = if negative {
        -total
    } else {
        total
    };
    if value > 0x7FFF_FFFF {
        None
    } else {
        Some(value as i32)
    }
}

/// Reads the line of a form: a code, blanks, a quantity.
pub fn parse_command(s: &str) -> (r: Result<(String, i32), ParseError>)
    ensures
        match r {
            Ok((code, quantity)) => command(s@) == Ok::<(Seq<char>, i32), ParseError>(
                (code@, quantity),
            ),
            Err(e) => command(s@) == Err::<(Seq<char>, i32), ParseError>(e),
        },
{
    let w = split_words(s);
    if w.len() != 2 {
        return Err(ParseError::Formato);
    }
    assert(w.deep_view()[0] == w[0]@);
    assert(w.deep_view()[1] == w[1]@);
    match parse_number(w[1].as_str()) {
        Some(q) => Ok((w[0].clone(), q)),
        None => Err(ParseError::Quantidade),
    }
}

} // verus!
