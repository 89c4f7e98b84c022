use rusty_bash::elems_in_command::{Arg, ArgDelimiter, Substitution, VarName};
use rusty_bash::feeder::{DebugInfo, Feeder, TextPos};
use rusty_bash::parser_args::{
    arg, subarg, subarg_braced, subarg_double_qt, subarg_normal, subarg_single_qt, ArgElem,
    SubArgDoubleQuoted,
};
use rusty_bash::subword_command_substitution::SubWordCommandSubstitution;

fn feed(text: &str) -> Feeder {
    Feeder::new_with(text).unwrap()
}

fn rest(feeder: &Feeder) -> String {
    feeder.remaining.iter().collect()
}

#[test]
fn plain_piece_runs_up_to_the_end_of_the_word() {
    let mut feeder = feed("abc def\n");
    let piece = subarg_normal(&mut feeder).unwrap();
    assert_eq!(piece.text, "abc");
    assert_eq!(piece.pos, TextPos { lineno: 0, pos: 0, length: 3 });
    assert_eq!(rest(&feeder), " def\n");
    assert_eq!(feeder.pos_in_line, 3);
    assert!(subarg_normal(&mut feeder).is_none());
    assert_eq!(rest(&feeder), " def\n");
}

#[test]
fn plain_piece_needs_something_behind_it() {
    let mut feeder = feed("abc");
    assert!(subarg_normal(&mut feeder).is_none());
    assert_eq!(rest(&feeder), "abc");
    assert_eq!(feeder.pos_in_line, 0);
    assert!(subarg_normal(&mut feed("")).is_none());
    assert!(subarg_normal(&mut feed("ab\\ ")).is_none());
}

#[test]
fn plain_piece_does_not_start_with_a_word_end() {
    for text in [" a ", "\na ", "\ta ", "\"a ", "'a ", ";a "] {
        assert!(subarg_normal(&mut feed(text)).is_none());
    }
}

#[test]
fn plain_piece_keeps_escaped_characters() {
    let mut feeder = feed("a\\ b\\;c;d");
    let piece = subarg_normal(&mut feeder).unwrap();
    assert_eq!(piece.text, "a\\ b\\;c");
    assert_eq!(piece.pos.length, 7);
    assert_eq!(rest(&feeder), ";d");
    let mut doubled = feed("a\\\\ b");
    assert_eq!(subarg_normal(&mut doubled).unwrap().text, "a\\\\");
}

#[test]
fn plain_piece_stops_at_a_brace_that_is_not_its_first_character() {
    let mut feeder = feed("a{b,c} ");
    assert_eq!(subarg_normal(&mut feeder).unwrap().text, "a");
    assert_eq!(rest(&feeder), "{b,c} ");
    let mut leading = feed("{ab ");
    assert_eq!(subarg_normal(&mut leading).unwrap().text, "{ab");
    let mut escaped = feed("a\\{b ");
    assert_eq!(subarg_normal(&mut escaped).unwrap().text, "a\\{b");
}

#[test]
fn plain_piece_counts_its_length_in_bytes() {
    let mut feeder = feed("日本語 x");
    let piece = subarg_normal(&mut feeder).unwrap();
    assert_eq!(piece.text, "日本語");
    assert_eq!(piece.pos.length, 9);
    assert_eq!(feeder.pos_in_line, 9);
}

#[test]
fn single_quotes_take_everything_up_to_the_next_quote() {
    let mut feeder = feed("'a \\' b");
    let piece = subarg_single_qt(&mut feeder).unwrap();
    assert_eq!(piece.text, "'a \\'");
    assert_eq!(piece.pos, TextPos { lineno: 0, pos: 0, length: 5 });
    assert_eq!(rest(&feeder), " b");
    assert_eq!(subarg_single_qt(&mut feed("''x")).unwrap().text, "''");
    assert!(subarg_single_qt(&mut feed("'abc")).is_none());
    assert!(subarg_single_qt(&mut feed("a'b'")).is_none());
    assert!(subarg_single_qt(&mut feed("")).is_none());
    assert!(subarg_single_qt(&mut feed("'")).is_none());
}

#[test]
fn double_quotes_honour_escaped_quotes() {
    let mut feeder = feed("\"a \\\" b\" c");
    let piece = subarg_double_qt(&mut feeder).unwrap();
    assert_eq!(piece.text, "\"a \\\" b\"");
    assert_eq!(piece.pos.length, 8);
    assert_eq!(rest(&feeder), " c");
    assert_eq!(subarg_double_qt(&mut feed("\"\"")).unwrap().text, "\"\"");
    assert_eq!(subarg_double_qt(&mut feed("\"a\\\\\"b")).unwrap().text, "\"a\\\\\"");
    assert!(subarg_double_qt(&mut feed("\"abc")).is_none());
    assert!(subarg_double_qt(&mut feed("\"abc\\\"")).is_none());
    assert!(subarg_double_qt(&mut feed("x\"a\"")).is_none());
    assert!(subarg_double_qt(&mut feed("")).is_none());
}

#[test]
fn braces_need_a_comma_and_their_closing_brace() {
    let mut feeder = feed("{a,b}c ");
    let piece = subarg_braced(&mut feeder).unwrap();
    assert_eq!(piece.text, "{a,b}");
    assert_eq!(piece.pos, TextPos { lineno: 0, pos: 0, length: 5 });
    assert_eq!(rest(&feeder), "c ");
    assert_eq!(subarg_braced(&mut feed("{,}")).unwrap().text, "{,}");
    assert_eq!(subarg_braced(&mut feed("{a\\},b}")).unwrap().text, "{a\\},b}");
    assert!(subarg_braced(&mut feed("{ab}")).is_none());
    assert!(subarg_braced(&mut feed("{a\\,b}")).is_none());
    assert!(subarg_braced(&mut feed("{a,b")).is_none());
    assert!(subarg_braced(&mut feed("{a, b}")).is_none());
    assert!(subarg_braced(&mut feed("{a,'b'}")).is_none());
    assert!(subarg_braced(&mut feed("a{b,c}")).is_none());
    assert!(subarg_braced(&mut feed("")).is_none());
    let mut refused = feed("{a;b,c}");
    assert!(subarg_braced(&mut refused).is_none());
    assert_eq!(rest(&refused), "{a;b,c}");
}

#[test]
fn pieces_are_tried_in_order() {
    assert!(matches!(subarg(&mut feed("{a,b} ")), Some(ArgElem::Braced(_))));
    assert!(matches!(subarg(&mut feed("{ab} ")), Some(ArgElem::Normal(_))));
    assert!(matches!(subarg(&mut feed("ab ")), Some(ArgElem::Normal(_))));
    assert!(matches!(subarg(&mut feed("'a' ")), Some(ArgElem::SingleQuoted(_))));
    assert!(matches!(subarg(&mut feed("\"a\" ")), Some(ArgElem::DoubleQuoted(_))));
    assert!(subarg(&mut feed(" a")).is_none());
    assert!(subarg(&mut feed("")).is_none());
    let mut feeder = feed("'a b'c ");
    let piece = subarg(&mut feeder).unwrap();
    assert_eq!(piece.get_text(), "'a b'");
    assert_eq!(piece.get_length(), 5);
    assert_eq!(rest(&feeder), "c ");
}

#[test]
fn word_is_made_of_all_its_pieces() {
    let mut feeder = feed("a'b c'\"d\"{e,f}g h\n");
    let word = arg(&mut feeder).unwrap();
    assert_eq!(word.text, "a'b c'\"d\"{e,f}g");
    assert_eq!(word.pos, TextPos { lineno: 0, pos: 0, length: 15 });
    let texts: Vec<String> = word.subargs.iter().map(|p| p.get_text()).collect();
    assert_eq!(texts, vec!["a", "'b c'", "\"d\"", "{e,f}", "g"]);
    assert_eq!(rest(&feeder), " h\n");
    assert_eq!(feeder.pos_in_line, 15);
    assert_eq!(word.text(), "a'b c'\"d\"{e,f}g");
}

#[test]
fn word_is_empty_where_no_piece_stands() {
    let mut feeder = feed(" x");
    let word = arg(&mut feeder).unwrap();
    assert_eq!(word.text, "");
    assert_eq!(word.pos, TextPos { lineno: 0, pos: 0, length: 0 });
    assert!(word.subargs.is_empty());
    assert_eq!(rest(&feeder), " x");
    // a word at the very end of the text is no plain piece
    let mut open = feed("'a'bc");
    let word = arg(&mut open).unwrap();
    assert_eq!(word.text, "'a'");
    assert_eq!(rest(&open), "bc");
}

#[test]
fn delimiter_takes_the_given_bytes() {
    let mut feeder = feed("  ls");
    assert!(ArgDelimiter::return_if_valid(&mut feeder, 0).is_none());
    assert_eq!(rest(&feeder), "  ls");
    let delimiter = ArgDelimiter::return_if_valid(&mut feeder, 2).unwrap();
    assert_eq!(delimiter.text, "  ");
    assert_eq!(delimiter.text(), "  ");
    assert_eq!(delimiter.debug, DebugInfo { lineno: 0, pos: 2 });
    assert_eq!(rest(&feeder), "ls");
    assert_eq!(feeder.pos_in_line, 2);
}

#[test]
fn assignment_text_is_name_equals_value() {
    let mut feeder = feed("A=b c");
    feeder.consume(2);
    let name = VarName { text: "A".to_string(), pos: DebugInfo { lineno: 0, pos: 0 } };
    let value = arg(&mut feeder).unwrap();
    let assignment = Substitution::new(&feeder, name, value);
    assert_eq!(assignment.text, "A=b");
    assert_eq!(assignment.text(), "A=b");
    assert_eq!(assignment.name.text, "A");
    assert_eq!(assignment.value.text, "b");
    assert_eq!(assignment.debug, DebugInfo { lineno: 0, pos: 3 });
}

#[test]
fn pattern_without_a_match_stands_for_itself() {
    let found = vec!["a.txt".to_string(), "b.txt".to_string()];
    assert_eq!(Arg::expand_glob(&"*.txt".to_string(), found.clone()), found);
    assert_eq!(Arg::expand_glob(&"*.md".to_string(), vec![]), vec!["*.md"]);
    assert_eq!(Arg::expand_glob(&"a\\*b".to_string(), vec![]), vec!["a*b"]);
    assert_eq!(Arg::expand_glob(&"a\\\\b".to_string(), vec![]), vec!["a\\b"]);
    assert_eq!(Arg::expand_glob(&"\\\\*".to_string(), vec![]), vec!["\\*"]);
    assert_eq!(Arg::expand_glob(&"\\\\\\*".to_string(), vec![]), vec!["\\*"]);
    assert_eq!(Arg::expand_glob(&"".to_string(), vec![]), vec![""]);
    for text in ["\\", "\\\\\\", "\\*\\*", "x\\\\\\\\y", "\\\\\\\\*", "a\\b"] {
        let expected = text.replace("\\*", "*").replace("\\\\", "\\");
        assert_eq!(Arg::expand_glob(&text.to_string(), vec![]), vec![expected]);
    }
}

#[test]
fn escaping_backslashes_are_removed() {
    assert_eq!(Arg::remove_escape(&"a\\ b".to_string()), "a b");
    assert_eq!(Arg::remove_escape(&"a\\\\b".to_string()), "a\\b");
    assert_eq!(Arg::remove_escape(&"\\a\\b\\".to_string()), "ab");
    assert_eq!(Arg::remove_escape(&"\\\\\\\\".to_string()), "\\\\");
    assert_eq!(Arg::remove_escape(&"plain".to_string()), "plain");
    assert_eq!(Arg::remove_escape(&"".to_string()), "");
}

#[test]
fn text_from_double_quotes_is_escaped_against_patterns() {
    for text in ["", "plain", "*", "\\", "a*b", "a\\*b", "**", "\\\\", "x\\y*z\\"] {
        let expected = text.replace("\\", "\\\\").replace("*", "\\*");
        assert_eq!(SubArgDoubleQuoted::escape(&text.to_string()), expected);
    }
    assert_eq!(SubArgDoubleQuoted::escape(&"a*b".to_string()), "a\\*b");
    assert_eq!(SubArgDoubleQuoted::escape(&"a\\b".to_string()), "a\\\\b");
}

#[test]
fn command_substitution_gives_one_value_or_the_pieces_between_blanks() {
    let substitution = SubWordCommandSubstitution {
        text: "$(echo a  b)".to_string(),
        pos: DebugInfo { lineno: 0, pos: 0 },
    };
    let output = "a  b".to_string();
    assert_eq!(substitution.eval(&output, true), vec![vec!["a  b".to_string()]]);
    assert_eq!(
        substitution.eval(&output, false),
        vec![vec!["a".to_string(), "".to_string(), "b".to_string()]]
    );
    assert_eq!(substitution.eval(&"".to_string(), false), vec![vec!["".to_string()]]);
    assert_eq!(substitution.eval(&"".to_string(), true), vec![vec!["".to_string()]]);
    assert_eq!(substitution.get_text(), "$(echo a  b)");
}
