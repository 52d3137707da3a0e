use saba_core::html::attribute::Attribute;
use saba_core::html::token::HtmlToken;
use saba_core::html::token::HtmlTokenizer;

#[test]
fn test_empty() {
    let html = "".to_string();
    let mut tokenizer = HtmlTokenizer::new(html);

    assert!(tokenizer.next().is_none())
}

#[test]
fn test_start_and_end_tag() {
    let html = "<body></body>".to_string();
    let mut tokenizer = HtmlTokenizer::new(html);
    let expected = [
        HtmlToken::StartTag {
            tag: "body".to_string(),
            self_closing: false,
            attributes: Vec::new(),
        },
        HtmlToken::EndTag { tag: "body".to_string() },
    ];

    for e in expected {
        assert_eq!(Some(e), tokenizer.next());
    }
}

#[test]
fn test_attributes() {
    let html = "<p class=\"A\" id='B' foo=bar></p>".to_string();
    let mut tokenizer = HtmlTokenizer::new(html);

    let mut attr1 = Attribute::new();
    attr1.add_char('c', true);
    attr1.add_char('l', true);
    attr1.add_char('a', true);
    attr1.add_char('s', true);
    attr1.add_char('s', true);
    attr1.add_char('A', false);

    let mut attr2 = Attribute::new();
    attr2.add_char('i', true);
    attr2.add_char('d', true);
    attr2.add_char('B', false);

    let mut attr3 = Attribute::new();
    attr3.add_char('f', true);
    attr3.add_char('o', true);
    attr3.add_char('o', true);
    attr3.add_char('b', false);
    attr3.add_char('a', false);
    attr3.add_char('r', false);

    let expected = [
        HtmlToken::StartTag {
            tag: "p".to_string(),
            self_closing: false,
            attributes: vec![attr1, attr2, attr3],
        },
        HtmlToken::EndTag { tag: "p".to_string() },
    ];

    for e in expected {
        assert_eq!(Some(e), tokenizer.next());
    }
}

#[test]
fn test_self_closing_tag() {
    let html = "<img />".to_string();
    let mut tokenizer = HtmlTokenizer::new(html);
    let expected = [HtmlToken::StartTag {
        tag: "img".to_string(),
        self_closing: true,
        attributes: Vec::new(),
    }];

    for e in expected {
        assert_eq!(Some(e), tokenizer.next());
    }
    assert!(tokenizer.next().is_none());
}

#[test]
fn test_script_tag() {
    let html = "<script>js code;</script>".to_string();
    let mut tokenizer = HtmlTokenizer::new(html);
    let expected = [
        HtmlToken::StartTag {
            tag: "script".to_string(),
            self_closing: false,
            attributes: Vec::new(),
        },
        HtmlToken::Char('j'),
        HtmlToken::Char('s'),
        HtmlToken::Char(' '),
        HtmlToken::Char('c'),
        HtmlToken::Char('o'),
        HtmlToken::Char('d'),
        HtmlToken::Char('e'),
        HtmlToken::Char(';'),
        HtmlToken::EndTag { tag: "script".to_string() },
    ];

    for e in expected {
        assert_eq!(Some(e), tokenizer.next());
    }
}

// Plain text without markup comes through as one character token per
// character: "<p>hi</p>" is exactly a start tag, the two characters, and
// the end tag.
#[test]
fn test_plain_text_between_tags() {
    let html = "<p>hi</p>".to_string();
    let mut tokenizer = HtmlTokenizer::new(html);
    let expected = [
        HtmlToken::StartTag {
            tag: "p".to_string(),
            self_closing: false,
            attributes: Vec::new(),
        },
        HtmlToken::Char('h'),
        HtmlToken::Char('i'),
        HtmlToken::EndTag { tag: "p".to_string() },
    ];

    for e in expected {
        assert_eq!(Some(e), tokenizer.next());
    }
    assert!(tokenizer.next().is_none());
}

// Uppercase tag and attribute names fold to lowercase; attribute values
// keep their case.
#[test]
fn test_case_folding() {
    let html = "<DIV ID=Abc>".to_string();
    let mut tokenizer = HtmlTokenizer::new(html);

    let mut attr = Attribute::new();
    attr.add_char('i', true);
    attr.add_char('d', true);
    attr.add_char('A', false);
    attr.add_char('b', false);
    attr.add_char('c', false);

    assert_eq!(
        Some(HtmlToken::StartTag {
            tag: "div".to_string(),
            self_closing: false,
            attributes: vec![attr],
        }),
        tokenizer.next()
    );
}

// A tag left open at the end of the input degrades to an end marker
// instead of failing.
#[test]
fn test_unterminated_tag() {
    let html = "<p".to_string();
    let mut tokenizer = HtmlTokenizer::new(html);
    assert_eq!(Some(HtmlToken::Eof), tokenizer.next());
    assert!(tokenizer.next().is_none());
}
