use saba_core::css::token::CssNumber;
use saba_core::css::token::CssToken;
use saba_core::css::token::CssTokenizer;

#[test]
fn token_test_empty() {
    let style = "".to_string();
    let mut t = CssTokenizer::new(style);
    assert!(t.next().is_none());
}

#[test]
fn token_test_one_rule() {
    let style = "p { color: red; }".to_string();
    let mut t = CssTokenizer::new(style);
    let expected = [
        CssToken::Ident("p".to_string()),
        CssToken::OpenCurly,
        CssToken::Ident("color".to_string()),
        CssToken::Colon,
        CssToken::Ident("red".to_string()),
        CssToken::SemiColon,
        CssToken::CloseCurly,
    ];

    for e in expected {
        assert_eq!(Some(e), t.next());
    }
}

#[test]
fn token_test_id_selector() {
    let style = "#id { color: red; }".to_string();
    let mut t = CssTokenizer::new(style);
    let expected = [
        CssToken::HashToken("#id".to_string()),
        CssToken::OpenCurly,
        CssToken::Ident("color".to_string()),
        CssToken::Colon,
        CssToken::Ident("red".to_string()),
        CssToken::SemiColon,
        CssToken::CloseCurly,
    ];

    for e in expected {
        assert_eq!(Some(e), t.next());
    }
}

#[test]
fn token_test_class_selector() {
    let style = ".class { color: red; }".to_string();
    let mut t = CssTokenizer::new(style);
    let expected = [
        CssToken::Delim('.'),
        CssToken::Ident("class".to_string()),
        CssToken::OpenCurly,
        CssToken::Ident("color".to_string()),
        CssToken::Colon,
        CssToken::Ident("red".to_string()),
        CssToken::SemiColon,
        CssToken::CloseCurly,
    ];

    for e in expected {
        assert_eq!(Some(e), t.next());
    }
}

#[test]
fn token_test_multiple_rules() {
    let style = "p { content: \"Hey\"; } h1 { font-size: 40; color: blue; }".to_string();
    let mut t = CssTokenizer::new(style);
    let expected = [
        CssToken::Ident("p".to_string()),
        CssToken::OpenCurly,
        CssToken::Ident("content".to_string()),
        CssToken::Colon,
        CssToken::StringToken("Hey".to_string()),
        CssToken::SemiColon,
        CssToken::CloseCurly,
        CssToken::Ident("h1".to_string()),
        CssToken::OpenCurly,
        CssToken::Ident("font-size".to_string()),
        CssToken::Colon,
        CssToken::Number(CssNumber { integer: 40, fraction: 0, frac_digits: 0 }),
        CssToken::SemiColon,
        CssToken::Ident("color".to_string()),
        CssToken::Colon,
        CssToken::Ident("blue".to_string()),
        CssToken::SemiColon,
        CssToken::CloseCurly,
    ];

    for e in expected {
        assert_eq!(Some(e), t.next());
    }

    assert!(t.next().is_none());
}

// "40" is the number forty; "0.1" accumulates one fractional digit.
#[test]
fn test_numeric_tokens() {
    let mut t = CssTokenizer::new("40".to_string());
    assert_eq!(
        Some(CssToken::Number(CssNumber { integer: 40, fraction: 0, frac_digits: 0 })),
        t.next()
    );
    assert!(t.next().is_none());

    let mut t = CssTokenizer::new("0.1".to_string());
    assert_eq!(
        Some(CssToken::Number(CssNumber { integer: 0, fraction: 1, frac_digits: 1 })),
        t.next()
    );
    assert!(t.next().is_none());

    let mut t = CssTokenizer::new("1.25".to_string());
    assert_eq!(
        Some(CssToken::Number(CssNumber { integer: 1, fraction: 25, frac_digits: 2 })),
        t.next()
    );
}

// An at-keyword needs three letters; a bare `@` is a delimiter.
#[test]
fn test_at_keyword() {
    let mut t = CssTokenizer::new("@media x".to_string());
    assert_eq!(Some(CssToken::AtKeyword("media".to_string())), t.next());
    assert_eq!(Some(CssToken::Ident("x".to_string())), t.next());

    let mut t = CssTokenizer::new("@x y".to_string());
    assert_eq!(Some(CssToken::Delim('@')), t.next());
    assert_eq!(Some(CssToken::Ident("x".to_string())), t.next());
}

// A string that never closes runs to the end of the input.
#[test]
fn test_unterminated_string() {
    let mut t = CssTokenizer::new("\"abc".to_string());
    assert_eq!(Some(CssToken::StringToken("abc".to_string())), t.next());
    assert!(t.next().is_none());
}

// `-` starts an identifier: negative numbers are not representable.
#[test]
fn test_dash_starts_ident() {
    let mut t = CssTokenizer::new("-5px".to_string());
    assert_eq!(Some(CssToken::Ident("-5px".to_string())), t.next());
}
