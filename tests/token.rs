use lol_html::token::{Attribute, LexUnit, TextParsingMode, Token};

#[test]
fn character_token() {
    match Token::new_character(b"hi".to_vec()) {
        Token::Character(t) => assert_eq!(t.text(), &b"hi".to_vec()),
        _ => panic!("expected a character token"),
    }
}

#[test]
fn comment_token() {
    match Token::new_comment(b" x ".to_vec()) {
        Token::Comment(t) => assert_eq!(t.text(), &b" x ".to_vec()),
        _ => panic!("expected a comment token"),
    }
}

#[test]
fn start_tag_token() {
    let attrs = vec![
        Attribute::new(b"a".to_vec(), b"1".to_vec()),
        Attribute::new(b"a".to_vec(), b"2".to_vec()),
    ];
    match Token::new_start_tag(b"div".to_vec(), attrs, true) {
        Token::StartTag(t) => {
            assert_eq!(t.name(), &b"div".to_vec());
            assert!(t.self_closing());
            assert_eq!(t.attributes().len(), 2);
            assert_eq!(t.attributes()[0].name(), &b"a".to_vec());
            assert_eq!(t.attributes()[0].value(), &b"1".to_vec());
            assert_eq!(t.attributes()[1].value(), &b"2".to_vec());
        }
        _ => panic!("expected a start tag"),
    }
}

#[test]
fn end_tag_token() {
    match Token::new_end_tag(b"p".to_vec()) {
        Token::EndTag(t) => assert_eq!(t.name(), &b"p".to_vec()),
        _ => panic!("expected an end tag"),
    }
}

#[test]
fn doctype_token_keeps_missing_apart_from_empty() {
    match Token::new_doctype(Some(b"html".to_vec()), Some(Vec::new()), None, true) {
        Token::Doctype(t) => {
            assert_eq!(t.name(), Some(&b"html".to_vec()));
            assert_eq!(t.public_id(), Some(&Vec::new()));
            assert_eq!(t.system_id(), None);
            assert!(t.force_quirks());
        }
        _ => panic!("expected a doctype"),
    }
}

#[test]
fn lex_unit_accessors() {
    let u = LexUnit::new(b"x".to_vec(), Some(Token::new_character(b"x".to_vec())), TextParsingMode::RawText);
    assert_eq!(u.raw(), &b"x".to_vec());
    assert!(matches!(u.token(), Some(Token::Character(_))));
    assert_eq!(u.parsing_mode(), TextParsingMode::RawText);
    let e = LexUnit::new(Vec::new(), None, TextParsingMode::Data);
    assert!(e.token().is_none());
}
