use estoque_relogios::parse::{is_whitespace, parse_command, parse_number, split_words, trim, ParseError};

#[test]
fn whitespace_is_what_the_standard_library_calls_whitespace() {
    let mut code: u32 = 0;
    while code <= 0x10FFFF {
        if let Some(c) = char::from_u32(code) {
            assert_eq!(is_whitespace(c), c.is_whitespace(), "U+{:04X}", code);
        }
        code += 1;
    }
}

#[test]
fn split_words_splits_as_the_standard_library_does() {
    let lines = [
        "",
        " ",
        "A1",
        "A1 10",
        "  A1   10  ",
        "A1\t10\n",
        "a b c",
        " relógio\u{00A0}5 ",
        "x\u{3000}y",
        "one",
        "   ",
        "a  b",
    ];
    for line in lines {
        let expected: Vec<String> = line.split_whitespace().map(|w| w.to_string()).collect();
        assert_eq!(split_words(line), expected, "{:?}", line);
    }
}

#[test]
fn split_words_of_a_form_line() {
    assert_eq!(split_words("A1 10"), vec!["A1".to_string(), "10".to_string()]);
    assert_eq!(split_words(""), Vec::<String>::new());
}

#[test]
fn trim_takes_the_blanks_from_both_ends() {
    let lines = ["", " ", "A1", " A1", "A1 ", "  A1 B2\t\n", "\u{2003}x\u{2003}", "a b"];
    for line in lines {
        assert_eq!(trim(line), line.trim(), "{:?}", line);
    }
}

#[test]
fn parse_number_reads_what_the_standard_library_reads() {
    let words = [
        "", "0", "7", "10", "-5", "+5", "-", "+", "--5", "+-5", "5-", "1a", "a1", " 1", "1 ",
        "007", "-007", "2147483647", "2147483648", "-2147483648", "-2147483649",
        "99999999999999999999", "-99999999999999999999", "00000000000000000000001",
        "1.5", "１２", "٣", "+0", "-0", "4294967296",
    ];
    for word in words {
        assert_eq!(parse_number(word), word.parse::<i32>().ok(), "{:?}", word);
    }
}

#[test]
fn parse_number_at_the_limits() {
    assert_eq!(parse_number("2147483647"), Some(i32::MAX));
    assert_eq!(parse_number("-2147483648"), Some(i32::MIN));
    assert_eq!(parse_number("2147483648"), None);
    assert_eq!(parse_number("-2147483649"), None);
}

#[test]
fn parse_command_reads_code_and_quantity() {
    assert_eq!(parse_command("A1 10"), Ok(("A1".to_string(), 10)));
    assert_eq!(parse_command("  A1   -3 "), Ok(("A1".to_string(), -3)));
    assert_eq!(parse_command("relógio +7"), Ok(("relógio".to_string(), 7)));
}

#[test]
fn parse_command_turns_down_a_wrong_number_of_words() {
    assert_eq!(parse_command(""), Err(ParseError::Formato));
    assert_eq!(parse_command("A1"), Err(ParseError::Formato));
    assert_eq!(parse_command("A1 "), Err(ParseError::Formato));
    assert_eq!(parse_command("A1 10 20"), Err(ParseError::Formato));
}

#[test]
fn parse_command_turns_down_a_bad_quantity() {
    assert_eq!(parse_command("A1 dez"), Err(ParseError::Quantidade));
    assert_eq!(parse_command("A1 1.5"), Err(ParseError::Quantidade));
    assert_eq!(parse_command("A1 2147483648"), Err(ParseError::Quantidade));
    assert_eq!(parse_command("A1 -"), Err(ParseError::Quantidade));
}
