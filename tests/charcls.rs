use goglob::charcls::{self, CharClass, CharClassType};

#[test]
fn charclass_matches_next() {
    let class = CharClass::new(
        false,
        vec!['a'.into(), 'b'.into(), CharClassType::range('c', 'e').unwrap()],
    );
    assert_eq!(class.matches_next("abcdef"), Some("bcdef"));
    assert_eq!(class.matches_next("bcdefa"), Some("cdefa"));
    assert_eq!(class.matches_next("cdefab"), Some("defab"));
    assert_eq!(class.matches_next("defabc"), Some("efabc"));
    assert_eq!(class.matches_next("efabcd"), Some("fabcd"));
    assert_eq!(class.matches_next("fabcde"), None);
    assert_eq!(class.matches_next("a"), Some(""));

    let class = CharClass::new(
        true,
        vec!['a'.into(), 'b'.into(), CharClassType::range('c', 'e').unwrap()],
    );
    assert_eq!(class.matches_next("abcdef"), None);
    assert_eq!(class.matches_next("bcdefa"), None);
    assert_eq!(class.matches_next("cdefab"), None);
    assert_eq!(class.matches_next("defabc"), None);
    assert_eq!(class.matches_next("efabcd"), None);
    assert_eq!(class.matches_next("fabcde"), Some("abcde"));
    assert_eq!(class.matches_next("f"), Some(""));
}

#[test]
fn charclass_matches_next_static() {
    let type_tokens: [CharClassType; 3] = [
        charcls::type_from_char('a'),
        charcls::type_from_char('b'),
        CharClassType::Range('c', 'e'),
    ];

    let class = charcls::from_static(false, &type_tokens);
    assert_eq!(class.matches_next("abcdef"), Some("bcdef"));
    assert_eq!(class.matches_next("bcdefa"), Some("cdefa"));
    assert_eq!(class.matches_next("cdefab"), Some("defab"));
    assert_eq!(class.matches_next("defabc"), Some("efabc"));
    assert_eq!(class.matches_next("efabcd"), Some("fabcd"));
    assert_eq!(class.matches_next("fabcde"), None);
    assert_eq!(class.matches_next("a"), Some(""));

    let class = charcls::from_static(true, &type_tokens);
    assert_eq!(class.matches_next("abcdef"), None);
    assert_eq!(class.matches_next("bcdefa"), None);
    assert_eq!(class.matches_next("cdefab"), None);
    assert_eq!(class.matches_next("defabc"), None);
    assert_eq!(class.matches_next("efabcd"), None);
    assert_eq!(class.matches_next("fabcde"), Some("abcde"));
    assert_eq!(class.matches_next("f"), Some(""));
}

#[test]
fn charclasstype_conversion() {
    let class_type: CharClassType = 'a'.into();
    assert!(class_type.matches('a'));
    assert!(!class_type.matches('b'));

    let class_type: CharClassType = CharClassType::range('a', 'e').unwrap();
    assert!(class_type.matches('a'));
    assert!(class_type.matches('b'));
    assert!(class_type.matches('c'));
    assert!(class_type.matches('d'));
    assert!(class_type.matches('e'));
    assert!(!class_type.matches('f'));

    let class_type: CharClassType = CharClassType::range('a', 'a').unwrap();
    assert!(class_type.matches('a'));
    assert!(!class_type.matches('b'));

    let class_type: Option<CharClassType> = CharClassType::range('e', 'a');
    assert!(class_type.is_none());
}

#[test]
fn negated_class_is_the_complement() {
    let items = vec!['x'.into(), CharClassType::range('0', '9').unwrap()];
    let plain = CharClass::new(false, items.clone());
    let negated = CharClass::new(true, items);
    for c in ['x', 'y', '0', '5', '9', '/', 'é'] {
        assert_eq!(negated.matches_char(c), !plain.matches_char(c));
    }
    assert!(negated.is_negated());
    assert!(!plain.is_negated());
}

#[test]
fn class_matches_next_on_empty_and_multibyte() {
    let class = CharClass::new(false, vec![CharClassType::range('α', 'ω').unwrap()]);
    assert_eq!(class.matches_next(""), None);
    assert_eq!(class.matches_next("βx"), Some("x"));
    assert_eq!(class.matches_next("b"), None);
}
