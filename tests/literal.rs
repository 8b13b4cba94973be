use goglob::literal::{self, Literal};

#[test]
fn literal_matches_next() {
    let literal: Literal = Literal::new("abcde".into());
    assert_eq!(literal.matches_next("abcdefg"), Some("fg"));
    assert_eq!(literal.matches_next("fgabcde"), None);
    assert_eq!(literal.matches_next("abceefg"), None);
    assert_eq!(literal.matches_next("abcd"), None);
    assert_eq!(literal.matches_next("abcde"), Some(""));
}

#[test]
fn literal_matches_next_static() {
    let literal: Literal = literal::from_static("abcde");
    assert_eq!(literal.matches_next("abcdefg"), Some("fg"));
    assert_eq!(literal.matches_next("fgabcde"), None);
    assert_eq!(literal.matches_next("abceefg"), None);
    assert_eq!(literal.matches_next("abcd"), None);
    assert_eq!(literal.matches_next("abcde"), Some(""));
}

#[test]
fn literal_matches_next_multibyte() {
    let literal: Literal = Literal::new("☺é".into());
    assert_eq!(literal.matches_next("☺éz"), Some("z"));
    assert_eq!(literal.matches_next("☺"), None);
}
