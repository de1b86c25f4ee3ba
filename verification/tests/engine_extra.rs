use regex_engine::parser::NodeType;
use regex_engine::parser::Parser;
use regex_engine::regex::RegEx;
use regex_engine::regex::RegExError;
use regex_engine::regex::compile;
use regex_engine::scanner::CharRange;
use regex_engine::scanner::Scanner;
use regex_engine::scanner::TokenType;

fn expect_err(r: Result<RegEx, RegExError>) -> RegExError {
    match r {
        Err(e) => e,
        Ok(_) => panic!("expected a compile error"),
    }
}

// --- Literal patterns: non-overlapping left-to-right occurrences. ---

#[test]
fn literal_non_overlapping() {
    let r = RegEx::new("aa");
    let m = r.match_all(String::from("aaaa"));
    assert_eq!(m.len(), 2);
    assert_eq!((m[0].start, m[0].end), (0, 2));
    assert_eq!((m[1].start, m[1].end), (2, 4));
}

#[test]
fn literal_retries_every_offset() {
    // A failed attempt advances by one codepoint, so the occurrence that
    // overlaps the failed prefix is still found.
    let r = RegEx::new("aab");
    let m = r.match_all(String::from("aaab"));
    assert_eq!(m.len(), 1);
    assert_eq!((m[0].start, m[0].end), (1, 4));
}

// --- Quantifier bounds. ---

#[test]
fn question_matches_zero_or_one() {
    let r = RegEx::new("colou?r");
    let with_u = r.match_first(String::from("colour")).unwrap();
    assert_eq!((with_u.start, with_u.end), (0, 6));
    let without_u = r.match_first(String::from("color")).unwrap();
    assert_eq!((without_u.start, without_u.end), (0, 5));
}

#[test]
fn plus_requires_at_least_one() {
    let r = RegEx::new("ab+");
    assert!(r.match_first(String::from("accc")).is_none());
    let m = r.match_first(String::from("cabbc")).unwrap();
    assert_eq!((m.start, m.end), (1, 4));
}

#[test]
fn star_with_failing_body_matches_empty() {
    let r = RegEx::new("a*");
    let m = r.match_first(String::from("zzz")).unwrap();
    assert_eq!((m.start, m.end), (0, 0));
}

#[test]
fn nested_star_terminates() {
    // The body of the outer repetition succeeds without consuming input,
    // so the repetition is cut short instead of looping.
    let r = RegEx::new("(a*)*");
    let m = r.match_all(String::from("b"));
    assert_eq!(m.len(), 2);
    assert_eq!((m[0].start, m[0].end), (0, 0));
    assert_eq!((m[1].start, m[1].end), (1, 1));
}

#[test]
fn match_first_skips_trailing_empty() {
    // match_first only tries offsets strictly inside the text.
    let r = RegEx::new("a*");
    assert!(r.match_first(String::from("")).is_none());
}

// --- Character ranges and classes. ---

#[test]
fn charrange_includes_interval() {
    let r = CharRange::new('b' as u32, 'd' as u32, false);
    assert!(!r.includes_char('a'));
    assert!(r.includes_char('b'));
    assert!(r.includes_char('c'));
    assert!(r.includes_char('d'));
    assert!(!r.includes_char('e'));
}

#[test]
fn charrange_negation_inverts() {
    let plain = CharRange::new('b' as u32, 'd' as u32, false);
    let negated = CharRange::new('b' as u32, 'd' as u32, true);
    for c in ['a', 'b', 'c', 'd', 'e', '\0', '\u{2603}'] {
        assert_eq!(negated.includes_char(c), !plain.includes_char(c));
    }
}

#[test]
fn charset_range_matches() {
    let r = RegEx::new("[a-c]+");
    let m = r.match_all(String::from("abcx"));
    assert_eq!(m.len(), 1);
    assert_eq!((m[0].start, m[0].end), (0, 3));
}

#[test]
fn charset_negated_matches() {
    let r = RegEx::new("[^a]");
    let m = r.match_first(String::from("ab")).unwrap();
    assert_eq!((m.start, m.end), (1, 2));
}

#[test]
fn digit_class_matches() {
    let r = RegEx::new("\\d+");
    let m = r.match_first(String::from("abc123")).unwrap();
    assert_eq!((m.start, m.end), (3, 6));
}

#[test]
fn whitespace_class_has_no_space() {
    // The built-in whitespace class covers U+000A..U+000D only.
    let r = RegEx::new("\\s");
    let m = r.match_first(String::from(" \n")).unwrap();
    assert_eq!((m.start, m.end), (1, 2));
}

#[test]
fn wildcard_matches_any() {
    let r = RegEx::new(".");
    let m = r.match_first(String::from("x")).unwrap();
    assert_eq!((m.start, m.end), (0, 1));
}

#[test]
fn escapes_match_their_codepoints() {
    let hex = RegEx::new("\\x41");
    let m = hex.match_first(String::from("zA")).unwrap();
    assert_eq!((m.start, m.end), (1, 2));

    let unicode = RegEx::new("\\u2603");
    let m = unicode.match_first(String::from("x\u{2603}")).unwrap();
    assert_eq!((m.start, m.end), (1, 2));
}

// --- Capture groups. ---

#[test]
fn capture_ordering() {
    let r = RegEx::new("(a)(b)");
    let m = r.match_first(String::from("ab")).unwrap();
    assert_eq!(m.groups.len(), 3);
    assert_eq!(m.groups[0].string, "ab");
    assert_eq!(m.groups[1].string, "a");
    assert_eq!(m.groups[2].string, "b");
}

#[test]
fn nested_captures_outer_first() {
    // Captures come in the order their groups were entered: the
    // enclosing group before the groups nested inside it.
    let r = RegEx::new("((a)b)");
    let m = r.match_first(String::from("ab")).unwrap();
    assert_eq!(m.groups.len(), 3);
    assert_eq!(m.groups[0].string, "ab");
    assert_eq!(m.groups[1].string, "ab");
    assert_eq!(m.groups[2].string, "a");
}

#[test]
fn capture_spans() {
    let r = RegEx::new("x(ab)");
    let m = r.match_first(String::from("zxab")).unwrap();
    assert_eq!((m.start, m.end), (1, 4));
    assert_eq!((m.groups[1].start, m.groups[1].end), (2, 4));
}

// --- Idempotence. ---

#[test]
fn match_all_twice_is_identical() {
    let r = RegEx::new("ab|a*");
    let first = r.match_all(String::from("aababb"));
    let second = r.match_all(String::from("aababb"));
    assert_eq!(first.len(), second.len());
    for i in 0..first.len() {
        assert_eq!(first[i].start, second[i].start);
        assert_eq!(first[i].end, second[i].end);
        assert_eq!(first[i].groups.len(), second[i].groups.len());
        for g in 0..first[i].groups.len() {
            assert_eq!(first[i].groups[g].string, second[i].groups[g].string);
        }
    }
}

// --- Compilation results. ---

#[test]
fn compile_accepts_valid_patterns() {
    assert!(compile("a(b|c)*[x-z]?").is_ok());
    assert!(compile("").is_ok());
}

#[test]
fn compile_reports_lexical_error() {
    let e = expect_err(compile("\\uzz"));
    assert_eq!(e, RegExError::LexicalError);
}

#[test]
fn compile_rejects_lexical_error_the_parser_recovers_from() {
    // The malformed escape swallows the closing bracket, so the parse
    // tree itself carries no error marker; the compile still fails.
    let e = expect_err(compile("[a\\u0a]"));
    assert_eq!(e, RegExError::LexicalError);
}

#[test]
fn compile_reports_syntax_error() {
    let e = expect_err(compile("a**"));
    assert_eq!(e, RegExError::SyntaxError);

    let e = expect_err(compile("[b-a]"));
    assert_eq!(e, RegExError::SyntaxError);
}

#[test]
fn compiled_pattern_still_matches() {
    let r = match compile("b+") {
        Ok(r) => r,
        Err(_) => panic!("expected a successful compile"),
    };
    let m = r.match_first(String::from("abba")).unwrap();
    assert_eq!((m.start, m.end), (1, 3));
}

// --- The parser's tree shape. ---

#[test]
fn literal_run_parses_to_one_word() {
    let mut p = Parser::new(&String::from("abc"));
    let tree = p.parse();
    assert!(matches!(tree.n_type, NodeType::Group));
    assert_eq!(tree.children.len(), 1);
    assert!(matches!(tree.children[0].n_type, NodeType::Word));
    assert_eq!(tree.children[0].image_to_str(), "abc");
}

#[test]
fn empty_alternative_matches_empty() {
    let r = RegEx::new("ab|");
    let m = r.match_all(String::from("ab"));
    assert_eq!(m.len(), 2);
    assert_eq!((m[0].start, m[0].end), (0, 2));
    assert_eq!((m[1].start, m[1].end), (2, 2));
}

// --- Escape decoding details. ---

#[test]
fn decimal_escape_takes_up_to_three_digits() {
    let mut s = Scanner::new(&String::from("\\127"));
    let t = s.scan_next();
    assert_eq!(t.t_type, TokenType::Character);
    assert_eq!(t.image, '\x7f');
    assert_eq!(s.scan_next().t_type, TokenType::EOF);
}

#[test]
fn decimal_escape_stops_before_overflow() {
    // 999 would pass 127, so only the first two digits count.
    let mut s = Scanner::new(&String::from("\\999"));
    let t = s.scan_next();
    assert_eq!(t.t_type, TokenType::Character);
    assert_eq!(t.image, 'c');
    let t = s.scan_next();
    assert_eq!(t.t_type, TokenType::Character);
    assert_eq!(t.image, '9');
    assert_eq!(s.scan_next().t_type, TokenType::EOF);
}

#[test]
fn unicode_escape_rejects_surrogates() {
    let mut s = Scanner::new(&String::from("\\ud800"));
    assert_eq!(s.scan_next().t_type, TokenType::Error);
}

#[test]
fn empty_pattern_matches_everywhere() {
    let r = RegEx::new("");
    let m = r.match_all(String::from("ab"));
    assert_eq!(m.len(), 3);
    for i in 0..m.len() {
        assert_eq!(m[i].start, i);
        assert_eq!(m[i].end, i);
    }
}
