use goglob::error::ErrorType;
use goglob::literal::Literal;
use goglob::{glob_from_tokens, scan_patterns, GlobPattern, GlobToken};

fn outcome(pattern: &str, name: &str) -> Result<bool, ()> {
    GlobPattern::new(pattern).map(|p| p.matches(name)).map_err(|_| ())
}

#[test]
fn glob_pattern_go_match_test() {
    let tests: Vec<(&str, &str, Result<bool, ()>)> = vec![
        ("abc", "abc", Ok(true)),
        ("*", "abc", Ok(true)),
        ("*c", "abc", Ok(true)),
        ("a*", "a", Ok(true)),
        ("a*", "abc", Ok(true)),
        ("a*", "ab/c", Ok(false)),
        ("a*/b", "abc/b", Ok(true)),
        ("a*/b", "a/c/b", Ok(false)),
        ("a*b*c*d*e*/f", "axbxcxdxe/f", Ok(true)),
        ("a*b*c*d*e*/f", "axbxcxdxexxx/f", Ok(true)),
        ("a*b*c*d*e*/f", "axbxcxdxe/xxx/f", Ok(false)),
        ("a*b*c*d*e*/f", "axbxcxdxexxx/fff", Ok(false)),
        ("a*b?c*x", "abxbbxdbxebxczzx", Ok(true)),
        ("a*b?c*x", "abxbbxdbxebxczzy", Ok(false)),
        ("ab[c]", "abc", Ok(true)),
        ("ab[b-d]", "abc", Ok(true)),
        ("ab[e-g]", "abc", Ok(false)),
        ("ab[^c]", "abc", Ok(false)),
        ("ab[^b-d]", "abc", Ok(false)),
        ("ab[^e-g]", "abc", Ok(true)),
        ("a\\*b", "a*b", Ok(true)),
        ("a\\*b", "ab", Ok(false)),
        ("a?b", "a☺b", Ok(true)),
        ("a[^a]b", "a☺b", Ok(true)),
        ("a???b", "a☺b", Ok(false)),
        ("a[^a][^a][^a]b", "a☺b", Ok(false)),
        ("[a-ζ]*", "α", Ok(true)),
        ("*[a-ζ]", "A", Ok(false)),
        ("a?b", "a/b", Ok(false)),
        ("a*b", "a/b", Ok(false)),
        ("[\\]a]", "]", Ok(true)),
        ("[\\-]", "-", Ok(true)),
        ("[x\\-]", "x", Ok(true)),
        ("[x\\-]", "-", Ok(true)),
        ("[x\\-]", "z", Ok(false)),
        ("[\\-x]", "x", Ok(true)),
        ("[\\-x]", "-", Ok(true)),
        ("[\\-x]", "a", Ok(false)),
        ("[]a]", "]", Err(())),
        ("[-]", "-", Err(())),
        ("[x-]", "x", Err(())),
        ("[x-]", "-", Err(())),
        ("[x-]", "z", Err(())),
        ("[-x]", "x", Err(())),
        ("[-x]", "-", Err(())),
        ("[-x]", "a", Err(())),
        ("\\", "a", Err(())),
        ("[a-b-c]", "a", Err(())),
        ("[", "a", Err(())),
        ("[^", "a", Err(())),
        ("[^bc", "a", Err(())),
        ("a[", "a", Err(())),
        ("a[", "ab", Err(())),
        ("a[", "x", Err(())),
        ("a/b[", "x", Err(())),
        ("*x", "xxx", Ok(true)),
    ];

    for (i, (pattern, name, expected)) in tests.into_iter().enumerate() {
        let got = outcome(pattern, name);
        assert!(
            got == expected,
            "[Test {i}]: ({pattern}, {name}) expected {expected:?}, got {got:?}"
        );
    }
}

fn error_of(pattern: &str) -> (ErrorType, usize) {
    let e = GlobPattern::new(pattern).unwrap_err();
    (*e.error_type(), e.position())
}

#[test]
fn empty_pattern_is_rejected() {
    assert_eq!(error_of(""), (ErrorType::EmptyPattern, usize::MAX));
}

#[test]
fn lone_star_matches_names_without_slash() {
    let p = GlobPattern::new("*").unwrap();
    assert!(p.matches("abc"));
    assert!(p.matches(""));
    assert!(p.matches("a.b-c"));
    assert!(!p.matches("a/b"));
    assert!(!p.matches("/"));
}

#[test]
fn star_runs_collapse() {
    let one = GlobPattern::new("a*b").unwrap();
    let many = GlobPattern::new("a***b").unwrap();
    assert_eq!(one, many);
    assert!(many.matches("axxb"));
}

#[test]
fn compiling_twice_gives_equal_patterns() {
    for pattern in ["abc", "a*b?c[^x-z]", "[\\]a]*", "*"] {
        assert_eq!(GlobPattern::new(pattern).unwrap(), GlobPattern::new(pattern).unwrap());
    }
}

#[test]
fn seq_wildcard_stops_at_slash() {
    let p = GlobPattern::new("a*").unwrap();
    assert!(!p.matches("ab/c"));
    assert!(p.matches("abc"));
}

#[test]
fn match_scenarios() {
    assert_eq!(outcome("abc", "abc"), Ok(true));
    assert_eq!(outcome("a*/b", "a/c/b"), Ok(false));
    assert_eq!(outcome("a*b*c*d*e*/f", "axbxcxdxe/f"), Ok(true));
    assert_eq!(outcome("ab[^e-g]", "abc"), Ok(true));
    assert_eq!(error_of("a[").0, ErrorType::UnclosedCharClass);
    assert!(GlobPattern::new("[x-]").is_err());
    assert_eq!(error_of("[]a]").0, ErrorType::UnescapedChar(']'));
}

#[test]
fn error_kinds_and_positions() {
    assert_eq!(error_of("ab\\"), (ErrorType::IllegalEscape, 2));
    assert_eq!(error_of("[a\\"), (ErrorType::IllegalEscape, 2));
    assert_eq!(error_of("x[z-a]"), (ErrorType::InvalidRangeValues('z', 'a'), 4));
    assert_eq!(error_of("ab[cd"), (ErrorType::UnclosedCharClass, 2));
    assert_eq!(error_of("a]"), (ErrorType::UnescapedChar(']'), 1));
    assert_eq!(error_of("[^]"), (ErrorType::UnescapedChar(']'), 2));
    assert_eq!(error_of("[a--f]"), (ErrorType::UnescapedChar('-'), 3));
    assert_eq!(error_of("[a-b-c]"), (ErrorType::UnescapedChar('-'), 4));
    assert_eq!(error_of("[-]"), (ErrorType::UnescapedChar('-'), 1));
    assert_eq!(error_of("[x-]"), (ErrorType::UnescapedChar('-'), 2));
}

#[test]
fn error_positions_are_byte_offsets() {
    assert_eq!(error_of("é☺]"), (ErrorType::UnescapedChar(']'), 5));
    assert_eq!(error_of("☺[ab"), (ErrorType::UnclosedCharClass, 3));
    assert_eq!(error_of("é[z-\\a]"), (ErrorType::InvalidRangeValues('z', 'a'), 5));
}

#[test]
fn dash_before_closing_bracket_is_rejected() {
    assert_eq!(error_of("[ax-]"), (ErrorType::UnescapedChar('-'), 3));
    assert_eq!(error_of("[^\\a-]"), (ErrorType::UnescapedChar('-'), 4));
    assert_eq!(error_of("[a-"), (ErrorType::UnclosedCharClass, 0));
    assert!(GlobPattern::new("[a\\-]").unwrap().matches("-"));
}

#[test]
fn caret_inside_class_is_literal() {
    let p = GlobPattern::new("[a^]").unwrap();
    assert!(p.matches("^"));
    assert!(p.matches("a"));
    let q = GlobPattern::new("[^^]").unwrap();
    assert!(!q.matches("^"));
    assert!(q.matches("b"));
}

#[test]
fn greedy_leftmost_search_for_segments() {
    // The first segment start that works is kept, as the search never
    // revisits an earlier wildcard.
    assert_eq!(outcome("*[^a]*c", "b/c"), Ok(false));
    assert_eq!(outcome("*x", ""), Ok(false));
    assert_eq!(outcome("a*b", "ab"), Ok(true));
    assert_eq!(outcome("?", ""), Ok(false));
}

#[test]
fn error_messages() {
    let msg = |p: &str| GlobPattern::new(p).unwrap_err().message();
    assert_eq!(msg(""), "empty pattern");
    assert_eq!(msg("ab\\"), "illegal use of '\\' at 2: end of pattern");
    assert_eq!(msg("x[z-a]"), "invalid character range at 4: z-a");
    assert_eq!(msg("ab[cd"), "character class opened with '[' at 2 isn't closed");
    assert_eq!(msg("a]"), "special character ] at 1 not escaped with '\\'");
    assert_eq!(
        GlobPattern::new("0123456789012[").unwrap_err().message(),
        "character class opened with '[' at 13 isn't closed"
    );
}

#[test]
fn error_type_descriptions() {
    assert_eq!(ErrorType::EmptyPattern.type_desc(), "empty pattern");
    assert_eq!(ErrorType::IllegalEscape.type_desc(), "illegal use of '\\': end of pattern");
    assert_eq!(ErrorType::InvalidRangeValues('b', 'a').type_desc(), "invalid character range");
    assert_eq!(ErrorType::UnclosedCharClass.type_desc(), "character class opened with '[' isn't closed");
    assert_eq!(ErrorType::UnescapedChar('-').type_desc(), "special character not escaped with '\\'");
    assert_eq!(ErrorType::InvalidRangeValues('b', 'a').full_desc(), "invalid character range: b-a");
    assert_eq!(ErrorType::UnescapedChar(']').full_desc(), "special character ] not escaped with '\\'");
    assert_eq!(ErrorType::EmptyPattern.full_desc(), "empty pattern");
    assert_eq!(ErrorType::IllegalEscape.fmt_with_pos(Some(120)), "illegal use of '\\' at 120: end of pattern");
    assert_eq!(ErrorType::UnescapedChar('-').fmt_with_pos(Some(0)), "special character - at 0 not escaped with '\\'");
}

#[test]
fn from_tokens_matches_like_compiled() {
    let p = glob_from_tokens(vec![
        GlobToken::Literal(Literal::new("a".to_string())),
        GlobToken::SeqWildcard,
    ]);
    assert_eq!(p, GlobPattern::new("a*").unwrap());
    let mut tokens = Vec::new();
    scan_patterns("a?[b]", &mut tokens).unwrap();
    assert_eq!(tokens.len(), 3);
    assert_eq!(tokens[1], GlobToken::SingleWildcard);
    let mut tokens = Vec::new();
    assert!(scan_patterns("", &mut tokens).is_err());
}
