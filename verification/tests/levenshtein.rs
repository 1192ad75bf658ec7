use estoque_relogios::levenshtein::levenshtein_distance;

#[test]
fn distance_to_itself_is_zero() {
    for s in ["", "A1", "relógio", "kitten", "日本語"] {
        assert_eq!(levenshtein_distance(s, s), 0);
    }
}

#[test]
fn distance_from_empty_is_length() {
    assert_eq!(levenshtein_distance("", "abc"), 3);
    assert_eq!(levenshtein_distance("abc", ""), 3);
    assert_eq!(levenshtein_distance("", ""), 0);
}

#[test]
fn distance_counts_characters_not_bytes() {
    // Four characters, six bytes.
    assert_eq!(levenshtein_distance("", "ação"), 4);
    assert_eq!(levenshtein_distance("acao", "ação"), 2);
    assert_eq!(levenshtein_distance("relogio", "relógio"), 1);
}

#[test]
fn distance_of_known_pairs() {
    assert_eq!(levenshtein_distance("kitten", "sitting"), 3);
    assert_eq!(levenshtein_distance("sitting", "kitten"), 3);
    assert_eq!(levenshtein_distance("flaw", "lawn"), 2);
    assert_eq!(levenshtein_distance("saturday", "sunday"), 3);
    assert_eq!(levenshtein_distance("A1", "A2"), 1);
    assert_eq!(levenshtein_distance("B9", "A1"), 2);
    assert_eq!(levenshtein_distance("abc", "abcd"), 1);
    assert_eq!(levenshtein_distance("abcd", "abc"), 1);
    assert_eq!(levenshtein_distance("abc", "xyz"), 3);
}

#[test]
fn distance_is_zero_only_for_equal_strings() {
    let words = ["", "a", "b", "ab", "ba", "A1", "A2"];
    for a in words {
        for b in words {
            assert_eq!(levenshtein_distance(a, b) == 0, a == b);
        }
    }
}

#[test]
fn distance_never_exceeds_the_longer_length() {
    let words = ["", "a", "abc", "xyzw", "relógio", "A1"];
    for a in words {
        for b in words {
            let longest = a.chars().count().max(b.chars().count());
            assert!(levenshtein_distance(a, b) <= longest);
        }
    }
}
