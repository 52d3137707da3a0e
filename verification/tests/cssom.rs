use saba_core::css::cssom::ComponentValue;
use saba_core::css::cssom::CssParser;
use saba_core::css::cssom::Declaration;
use saba_core::css::cssom::QualifiedRule;
use saba_core::css::cssom::Selector;
use saba_core::css::token::CssNumber;
use saba_core::css::token::CssTokenizer;

#[test]
fn cssom_test_empty() {
    let style = "".to_string();
    let t = CssTokenizer::new(style);
    let cssom = CssParser::new(t).parse_stylesheet();

    assert_eq!(cssom.rules.len(), 0);
}

#[test]
fn cssom_test_one_rule() {
    let style = "p { color: red; }".to_string();
    let t = CssTokenizer::new(style);
    let cssom = CssParser::new(t).parse_stylesheet();

    let mut rule = QualifiedRule::new();
    rule.set_selector(Selector::TypeSelector("p".to_string()));
    let mut declaration = Declaration::new();
    declaration.set_property("color".to_string());
    declaration.set_value(ComponentValue::Ident("red".to_string()));
    rule.set_declarations(vec![declaration]);

    let expected = [rule];
    assert_eq!(cssom.rules.len(), 1);

    for (exp, rule) in expected.into_iter().zip(cssom.rules) {
        assert_eq!(exp, rule);
    }
}

#[test]
fn cssom_test_id_selector() {
    let style = "#id { color: blue }".to_string();
    let t = CssTokenizer::new(style);
    let cssom = CssParser::new(t).parse_stylesheet();

    let mut rule = QualifiedRule::new();
    rule.set_selector(Selector::IdSelector("id".to_string()));
    let mut declaration = Declaration::new();
    declaration.set_property("color".to_string());
    declaration.set_value(ComponentValue::Ident("blue".to_string()));
    rule.set_declarations(vec![declaration]);

    let expected = [rule];
    assert_eq!(cssom.rules.len(), expected.len());

    for (exp, rule) in expected.into_iter().zip(cssom.rules) {
        assert_eq!(exp, rule)
    }
}

#[test]
fn cssom_test_class_selector() {
    let style = ".class { color: green }".to_string();
    let t = CssTokenizer::new(style);
    let cssom = CssParser::new(t).parse_stylesheet();

    let mut rule = QualifiedRule::new();
    rule.set_selector(Selector::ClassSelector("class".to_string()));
    let mut declaration = Declaration::new();
    declaration.set_property("color".to_string());
    declaration.set_value(ComponentValue::Ident("green".to_string()));
    rule.set_declarations(vec![declaration]);

    let expected = [rule];
    assert_eq!(cssom.rules.len(), expected.len());

    for (exp, rule) in expected.into_iter().zip(cssom.rules.into_iter()) {
        assert_eq!(exp, rule);
    }
}

#[test]
fn cssom_test_multiple_rules() {
    let style = "p { content: \"Hey\"; } h1 { font-size: 40; color: yellow; }".to_string();
    let t = CssTokenizer::new(style);
    let cssom = CssParser::new(t).parse_stylesheet();

    let mut rule1 = QualifiedRule::new();
    rule1.set_selector(Selector::TypeSelector("p".to_string()));
    let mut declaration1 = Declaration::new();
    declaration1.set_property("content".to_string());
    declaration1.set_value(ComponentValue::StringToken("Hey".to_string()));
    rule1.set_declarations(vec![declaration1]);

    let mut rule2 = QualifiedRule::new();
    rule2.set_selector(Selector::TypeSelector("h1".to_string()));
    let mut declaration2 = Declaration::new();
    declaration2.set_property("font-size".to_string());
    declaration2.set_value(ComponentValue::Number(CssNumber {
        integer: 40,
        fraction: 0,
        frac_digits: 0,
    }));
    let mut declaration3 = Declaration::new();
    declaration3.set_property("color".to_string());
    declaration3.set_value(ComponentValue::Ident("yellow".to_string()));
    rule2.set_declarations(vec![declaration2, declaration3]);

    let expected = [rule1, rule2];
    assert_eq!(cssom.rules.len(), expected.len());

    for (exp, rule) in expected.into_iter().zip(cssom.rules.into_iter()) {
        assert_eq!(exp, rule);
    }
}

// A pseudo-class tail is skipped; the rule keeps the bare type selector.
#[test]
fn test_pseudo_class_degrades() {
    let style = "a:hover { color: red; }".to_string();
    let t = CssTokenizer::new(style);
    let cssom = CssParser::new(t).parse_stylesheet();

    assert_eq!(cssom.rules.len(), 1);
    assert_eq!(cssom.rules[0].selector, Selector::TypeSelector("a".to_string()));
    assert_eq!(cssom.rules[0].declarations.len(), 1);
}

// An at-rule is scanned like any rule and dropped from the output.
#[test]
fn test_at_rule_dropped() {
    let style = "@media screen { color: red; } p { color: blue; }".to_string();
    let t = CssTokenizer::new(style);
    let cssom = CssParser::new(t).parse_stylesheet();

    assert_eq!(cssom.rules.len(), 1);
    assert_eq!(cssom.rules[0].selector, Selector::TypeSelector("p".to_string()));
}

// A declaration without a colon is dropped; the ones around it stay.
#[test]
fn test_malformed_declaration_dropped() {
    let style = "p { color red; width: 1 }".to_string();
    let t = CssTokenizer::new(style);
    let cssom = CssParser::new(t).parse_stylesheet();

    assert_eq!(cssom.rules.len(), 1);
    assert_eq!(cssom.rules[0].declarations.len(), 1);
    assert_eq!(cssom.rules[0].declarations[0].property, "width".to_string());
}

// A truncated trailing rule is dropped without failing.
#[test]
fn test_truncated_rule_dropped() {
    let style = "p { color: red; } h1".to_string();
    let t = CssTokenizer::new(style);
    let cssom = CssParser::new(t).parse_stylesheet();

    assert_eq!(cssom.rules.len(), 1);
}
