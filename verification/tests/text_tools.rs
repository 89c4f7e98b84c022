use rusty_bash::feeder::{DebugInfo, Feeder};
use rusty_bash::scanner::{scanner_escaped_string, scanner_string, scanner_varname};
use rusty_bash::text::{
    char_width, chars_of, contains_char, decimal_string, is_char, join_from, parse_digits,
    parse_i32, parse_index, push_decimal, same_text, split_on, string_of, trimmed_end,
    whitespace,
};

fn chars(s: &str) -> Vec<char> {
    s.chars().collect()
}

#[test]
fn decimal_numerals_are_exact() {
    assert_eq!(decimal_string(0), "0");
    assert_eq!(decimal_string(7), "7");
    assert_eq!(decimal_string(10), "10");
    assert_eq!(decimal_string(127), "127");
    assert_eq!(decimal_string(-5), "-5");
    assert_eq!(decimal_string(i32::MAX), "2147483647");
    assert_eq!(decimal_string(i32::MIN), "-2147483648");
    let mut out = "n=".to_string();
    push_decimal(&mut out, 9080706050403020100);
    assert_eq!(out, "n=9080706050403020100");
    let mut zero = String::new();
    push_decimal(&mut zero, 0);
    assert_eq!(zero, "0");
}

#[test]
fn index_is_an_optional_plus_and_digits() {
    assert_eq!(parse_index("0"), Some(0));
    assert_eq!(parse_index("12"), Some(12));
    assert_eq!(parse_index("+3"), Some(3));
    assert_eq!(parse_index("007"), Some(7));
    assert_eq!(parse_index(""), None);
    assert_eq!(parse_index("+"), None);
    assert_eq!(parse_index("-1"), None);
    assert_eq!(parse_index("1a"), None);
    assert_eq!(parse_index(" 1"), None);
    assert_eq!(parse_index("++1"), None);
    assert_eq!(parse_index(&usize::MAX.to_string()), Some(usize::MAX));
    assert_eq!(parse_index("99999999999999999999999999"), None);
    for text in ["5", "+5", "x", "", "18446744073709551616", "1 "] {
        assert_eq!(parse_index(text), text.parse::<usize>().ok());
    }
}

#[test]
fn digits_are_read_up_to_a_limit() {
    assert_eq!(parse_digits(&chars("x123"), 1, 1000), Some(123));
    assert_eq!(parse_digits(&chars("x123"), 1, 123), Some(123));
    assert_eq!(parse_digits(&chars("x123"), 1, 122), None);
    assert_eq!(parse_digits(&chars("x"), 1, 10), None);
    assert_eq!(parse_digits(&chars("12x"), 0, 1000), None);
    assert_eq!(parse_digits(&chars("18446744073709551615"), 0, u64::MAX), Some(u64::MAX));
    assert_eq!(parse_digits(&chars("18446744073709551616"), 0, u64::MAX), None);
}

#[test]
fn signed_numbers_are_read_as_the_standard_parser_reads_them() {
    for text in
        ["0", "-0", "+0", "12", "-12", "+12", "2147483647", "2147483648", "-2147483648",
         "-2147483649", "", "-", "+", "1-", "--1", "a"]
    {
        assert_eq!(parse_i32(&chars(text), 0), text.parse::<i32>().ok());
    }
    assert_eq!(parse_i32(&chars("&2"), 1), Some(2));
}

#[test]
fn fields_are_joined_with_the_separator() {
    let items: Vec<String> = ["sh", "a", "b", "c"].iter().map(|s| s.to_string()).collect();
    assert_eq!(join_from(&items, 1, ' '), "a b c");
    assert_eq!(join_from(&items, 0, ':'), "sh:a:b:c");
    assert_eq!(join_from(&items, 3, ' '), "c");
    assert_eq!(join_from(&items, 4, ' '), "");
}

#[test]
fn text_is_split_as_the_standard_split_does() {
    for text in ["", "a", "a b", "a  b", " a", "a ", " ", "ls -l /tmp"] {
        let all = chars(text);
        let expected: Vec<String> = text.split(' ').map(|s| s.to_string()).collect();
        assert_eq!(split_on(&all, all.len(), ' '), expected);
    }
    assert_eq!(split_on(&chars("a b c"), 3, ' '), vec!["a".to_string(), "b".to_string()]);
}

#[test]
fn white_space_is_what_the_standard_library_calls_so() {
    let mut code = 0u32;
    while code <= 0x11000 {
        if let Some(c) = char::from_u32(code) {
            assert_eq!(whitespace(c), c.is_whitespace());
        }
        code += 1;
    }
    for text in ["", "a", "a \n", " \t\n", "a\u{3000}", "a b  ", "\u{a0}x\u{2003}\u{85}"] {
        assert_eq!(trimmed_end(&chars(text)), text.trim_end().chars().count());
    }
}

#[test]
fn characters_take_one_to_four_bytes() {
    for c in ['a', '\u{7f}', '\u{80}', 'é', '\u{7ff}', '\u{800}', '日', '\u{ffff}', '\u{10000}', '🦀']
    {
        assert_eq!(char_width(c), c.len_utf8());
    }
}

#[test]
fn strings_and_characters_convert_both_ways() {
    assert_eq!(chars_of("aé日"), vec!['a', 'é', '日']);
    assert_eq!(chars_of(""), Vec::<char>::new());
    assert_eq!(string_of(&chars("hello"), 1, 4), "ell");
    assert_eq!(string_of(&chars("hello"), 2, 2), "");
    assert!(is_char("-", '-'));
    assert!(!is_char("--", '-'));
    assert!(!is_char("", '-'));
    assert!(!is_char("#", '-'));
    assert!(same_text("exit\n", "exit\n"));
    assert!(!same_text("exit", "exit\n"));
    assert!(!same_text("exit\n", "exiT\n"));
    assert!(same_text("", ""));
    assert!(contains_char(&chars("abc"), 'c'));
    assert!(!contains_char(&chars("abc"), 'd'));
}

#[test]
fn feeder_counts_positions_in_bytes() {
    let mut feeder = Feeder::new_with("日本 ls\n").unwrap();
    assert_eq!(feeder.len(), 10);
    assert_eq!(feeder.nth(0), '日');
    assert_eq!(feeder.nth(2), ' ');
    assert_eq!(feeder.locate(0), Some(0));
    assert_eq!(feeder.locate(3), Some(1));
    assert_eq!(feeder.locate(6), Some(2));
    assert_eq!(feeder.locate(10), Some(6));
    assert_eq!(feeder.locate(1), None);
    assert_eq!(feeder.locate(11), None);
    let copy = feeder.duplicate();
    assert_eq!(feeder.consume(6), "日本");
    assert_eq!(feeder.pos_in_line, 6);
    assert_eq!(feeder.remaining, chars(" ls\n"));
    assert_eq!(DebugInfo::init(&feeder), DebugInfo { lineno: 0, pos: 6 });
    assert_eq!(feeder.consume(0), "");
    assert_eq!(feeder.consume_chars(3, 3), " ls");
    assert_eq!(feeder.pos_in_line, 9);
    assert_eq!(feeder.len(), 1);
    feeder.rewind(copy);
    assert_eq!(feeder.len(), 10);
    assert_eq!(feeder.pos_in_line, 0);
    let empty = Feeder::new();
    assert_eq!(empty.len(), 0);
    assert_eq!(empty.locate(0), Some(0));
}

#[test]
fn plain_scan_stops_at_the_first_stop_character() {
    let feeder = Feeder::new_with("echo hi; ls").unwrap();
    assert_eq!(scanner_string(&feeder, 0, " "), 4);
    assert_eq!(scanner_string(&feeder, 0, ";"), 7);
    assert_eq!(scanner_string(&feeder, 5, " ;"), 7);
    assert_eq!(scanner_string(&feeder, 0, "#"), 11);
    assert_eq!(scanner_string(&feeder, 11, " "), 11);
    assert_eq!(scanner_string(&feeder, 4, " "), 4);
    assert_eq!(scanner_string(&feeder, 0, ""), 11);
    let wide = Feeder::new_with("日本語 x").unwrap();
    assert_eq!(scanner_string(&wide, 0, " "), 9);
    assert_eq!(scanner_string(&wide, 3, "語"), 6);
}

#[test]
fn escaped_scan_skips_what_a_backslash_escapes() {
    let feeder = Feeder::new_with("a\\ b c").unwrap();
    assert_eq!(scanner_escaped_string(&feeder, 0, " "), 4);
    assert_eq!(scanner_string(&feeder, 0, " "), 2);
    let quoted = Feeder::new_with("x\\\"y\"z").unwrap();
    assert_eq!(scanner_escaped_string(&quoted, 0, "\""), 4);
    let doubled = Feeder::new_with("a\\\\ b").unwrap();
    assert_eq!(scanner_escaped_string(&doubled, 0, " "), 3);
    // a backslash is never a stop, and reading that starts behind one
    // does not know of it
    assert_eq!(scanner_escaped_string(&doubled, 0, "\\"), 5);
    assert_eq!(scanner_escaped_string(&feeder, 2, " "), 2);
    let open = Feeder::new_with("ab\\").unwrap();
    assert_eq!(scanner_escaped_string(&open, 0, " "), 3);
}

#[test]
fn name_scan_stops_behind_the_name() {
    let feeder = Feeder::new_with("my_Var9=1").unwrap();
    assert_eq!(scanner_varname(&feeder, 0), 7);
    assert_eq!(scanner_varname(&feeder, 7), 7);
    assert_eq!(scanner_varname(&feeder, 8), 9);
    let all = Feeder::new_with("abc").unwrap();
    assert_eq!(scanner_varname(&all, 1), 3);
    let wide = Feeder::new_with("aé").unwrap();
    assert_eq!(scanner_varname(&wide, 0), 1);
    for c in ['/', ':', '@', '[', '`', '{', '-', ' '] {
        let text = format!("a{}", c);
        assert_eq!(scanner_varname(&Feeder::new_with(&text).unwrap(), 0), 1);
    }
}
