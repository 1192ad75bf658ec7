use estoque_relogios::text::{compare, find_char, from_chars, same, to_chars, Ordem};

#[test]
fn to_chars_gives_the_characters() {
    assert_eq!(to_chars(""), Vec::<char>::new());
    assert_eq!(to_chars("A1"), vec!['A', '1']);
    assert_eq!(to_chars("ção"), vec!['ç', 'ã', 'o']);
}

#[test]
fn from_chars_gives_the_range() {
    let chars = vec!['a', 'b', 'ç', 'd'];
    assert_eq!(from_chars(&chars, 0, 4), "abçd");
    assert_eq!(from_chars(&chars, 1, 3), "bç");
    assert_eq!(from_chars(&chars, 2, 2), "");
    assert_eq!(from_chars(&chars, 4, 4), "");
}

#[test]
fn compare_orders_as_strings_are_ordered() {
    let words = ["", "A", "A1", "A10", "A2", "B", "a", "ab", "é", "z", "日本", "ç", "\u{10FFFF}", "\u{E000}"];
    for a in words {
        for b in words {
            let expected = match a.cmp(b) {
                std::cmp::Ordering::Less => Ordem::Menor,
                std::cmp::Ordering::Equal => Ordem::Igual,
                std::cmp::Ordering::Greater => Ordem::Maior,
            };
            assert_eq!(compare(a, b), expected, "{:?} against {:?}", a, b);
        }
    }
}

#[test]
fn compare_of_a_prefix_is_less() {
    assert_eq!(compare("A", "A1"), Ordem::Menor);
    assert_eq!(compare("A1", "A"), Ordem::Maior);
    assert_eq!(compare("", "x"), Ordem::Menor);
    assert_eq!(compare("", ""), Ordem::Igual);
}

#[test]
fn same_tells_equal_strings() {
    assert!(same("", ""));
    assert!(same("A1", "A1"));
    assert!(!same("A1", "A2"));
    assert!(!same("A1", "A"));
    assert!(!same("A", "A1"));
    assert!(same("relógio", "relógio"));
}

#[test]
fn find_char_gives_the_first_place() {
    let chars = to_chars("2024-01-15 10:20:30");
    assert_eq!(find_char(&chars, 0, '-'), 4);
    assert_eq!(find_char(&chars, 5, '-'), 7);
    assert_eq!(find_char(&chars, 8, '-'), chars.len());
    assert_eq!(find_char(&chars, 0, ' '), 10);
    assert_eq!(find_char(&chars, chars.len(), ' '), chars.len());
    assert_eq!(find_char(&chars, 4, '-'), 4);
}
