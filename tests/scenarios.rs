use css_parser::error::ParseError;
use css_parser::node::{
    AttributeMatcher, AttributeSelector, Block, BlockChild, ClassSelector, CssString, Declaration,
    DeclarationList, Dimension, IdSelector, Identifier, Rule, Selector, SelectorList, StyleSheet,
    StyleSheetRule, TypeSelector, Value, ValueList,
};
use css_parser::parser::CSS3Parser;
use css_parser::tokenizer::Tokenizer;
use css_parser::tokens::{Token, TokenType};

fn ident(v: &str) -> Value {
    Value::Identifier(Identifier::from_str(v))
}

fn dim(v: &str, unit: Option<&str>) -> Value {
    Value::Dimension(Dimension::new(v.to_string(), unit.map(|u| u.to_string())))
}

fn decl(p: &str, values: Vec<Value>) -> Declaration {
    Declaration::new(p.to_string(), ValueList::new(values))
}

fn rule(selectors: Vec<Selector>, decls: Vec<Declaration>) -> StyleSheetRule {
    let block = if decls.is_empty() {
        Block::new(vec![])
    } else {
        Block::new(vec![BlockChild::DeclarationList(DeclarationList::new(decls))])
    };
    StyleSheetRule::Rule(Rule::new(SelectorList::new(selectors), block))
}

fn type_sel(n: &str) -> Selector {
    Selector::TypeSelector(TypeSelector::new(n.to_string()))
}

fn parse(src: &str) -> Result<StyleSheet, ParseError> {
    CSS3Parser::new().parse(src)
}

fn tokens(src: &str) -> Result<Vec<Token>, ParseError> {
    let mut t = Tokenizer::new();
    t.init(src);
    let mut out = Vec::new();
    while let Some(tok) = t.get_next_token()? {
        out.push(tok);
    }
    Ok(out)
}

#[test]
fn type_selector_with_identifier_value() {
    assert_eq!(
        parse("a { color: blue; }"),
        Ok(StyleSheet::new(vec![rule(vec![type_sel("a")], vec![decl("color", vec![ident("blue")])])]))
    );
}

#[test]
fn id_selector_with_dimension_value() {
    assert_eq!(
        parse("#header { width: 100px; }"),
        Ok(StyleSheet::new(vec![rule(
            vec![Selector::IdSelector(IdSelector::new("header".to_string()))],
            vec![decl("width", vec![dim("100", Some("px"))])]
        )]))
    );
}

#[test]
fn prefix_match_attribute() {
    assert_eq!(
        parse(r##"a[href^="#"] { background-color: gold; }"##),
        Ok(StyleSheet::new(vec![rule(
            vec![
                type_sel("a"),
                Selector::AttributeSelector(AttributeSelector {
                    name: Identifier::from_str("href"),
                    matcher: Some(AttributeMatcher::PrefixMatch),
                    value: Some(CssString::from_str("#")),
                    flag: None,
                })
            ],
            vec![decl("background-color", vec![ident("gold")])]
        )]))
    );
}

#[test]
fn substring_match_with_flag() {
    let sheet = parse(r#"a[href*="insensitive" i] { color: cyan; }"#).unwrap();
    let StyleSheetRule::Rule(r) = &sheet.children[0] else { panic!("expected a rule") };
    assert_eq!(
        r,
        &Rule::new(
            SelectorList::new(vec![
                type_sel("a"),
                Selector::AttributeSelector(AttributeSelector {
                    name: Identifier::from_str("href"),
                    matcher: Some(AttributeMatcher::SubstringMatch),
                    value: Some(CssString::from_str("insensitive")),
                    flag: Some(Identifier::from_str("i")),
                })
            ]),
            Block::new(vec![BlockChild::DeclarationList(DeclarationList::new(vec![decl(
                "color",
                vec![ident("cyan")]
            )]))])
        )
    );
}

#[test]
fn important_declaration() {
    let mut d = decl("font-size", vec![dim("1", Some("rem"))]);
    d.set_important_as(true);
    assert_eq!(parse("p { font-size: 1rem !important; }"), Ok(StyleSheet::new(vec![rule(vec![type_sel("p")], vec![d])])));
}

#[test]
fn missing_colon_is_unexpected_token() {
    assert_eq!(
        parse("a { color blue; }"),
        Err(ParseError::UnexpectedToken {
            expected: TokenType::Colon,
            found: TokenType::Ident,
            found_text: "blue".to_string(),
            position: 14,
        })
    );
}

#[test]
fn empty_string_literal_strips_to_empty() {
    assert_eq!(
        parse(r#"[title=""] { }"#),
        Ok(StyleSheet::new(vec![rule(
            vec![Selector::AttributeSelector(AttributeSelector {
                name: Identifier::from_str("title"),
                matcher: Some(AttributeMatcher::EqualityMatch),
                value: Some(CssString::from_str("")),
                flag: None,
            })],
            vec![]
        )]))
    );
}

#[test]
fn single_quoted_literal_strips_quotes() {
    let sheet = parse("[lang|='en'] { }").unwrap();
    let expected = rule(
        vec![Selector::AttributeSelector(AttributeSelector {
            name: Identifier::from_str("lang"),
            matcher: Some(AttributeMatcher::DashMatch),
            value: Some(CssString::from_str("en")),
            flag: None,
        })],
        vec![],
    );
    assert_eq!(sheet, StyleSheet::new(vec![expected]));
}

#[test]
fn attribute_without_matcher_has_no_value() {
    let sheet = parse("[disabled] { }").unwrap();
    assert_eq!(
        sheet,
        StyleSheet::new(vec![rule(
            vec![Selector::AttributeSelector(AttributeSelector {
                name: Identifier::from_str("disabled"),
                matcher: None,
                value: None,
                flag: None,
            })],
            vec![]
        )])
    );
}

#[test]
fn every_matcher_operator() {
    let sheet = parse(r#"[a~="1"][b$="2"][c="3"] { }"#).unwrap();
    let expected: Vec<Selector> = vec![
        ("a", AttributeMatcher::IncludeMatch, "1"),
        ("b", AttributeMatcher::SuffixMatch, "2"),
        ("c", AttributeMatcher::EqualityMatch, "3"),
    ]
    .into_iter()
    .map(|(n, m, v)| {
        Selector::AttributeSelector(AttributeSelector {
            name: Identifier::from_str(n),
            matcher: Some(m),
            value: Some(CssString::from_str(v)),
            flag: None,
        })
    })
    .collect();
    assert_eq!(sheet, StyleSheet::new(vec![rule(expected, vec![])]));
}

#[test]
fn rules_and_declarations_keep_source_order() {
    let sheet = parse(".b { z: 2; y: 1; x: 3; } .a { w: 0; }").unwrap();
    assert_eq!(
        sheet,
        StyleSheet::new(vec![
            rule(
                vec![Selector::ClassSelector(ClassSelector::new("b".to_string()))],
                vec![decl("z", vec![dim("2", None)]), decl("y", vec![dim("1", None)]), decl("x", vec![dim("3", None)])]
            ),
            rule(
                vec![Selector::ClassSelector(ClassSelector::new("a".to_string()))],
                vec![decl("w", vec![dim("0", None)])]
            ),
        ])
    );
}

#[test]
fn whitespace_and_comments_do_not_change_the_tree() {
    let plain = parse("a{margin:0 auto;}").unwrap();
    let spaced = parse("  /* x */ a /* y */ {\n\tmargin : 0 /**/ auto ;\n} /* end */ ").unwrap();
    assert_eq!(plain, spaced);
    assert_eq!(plain, StyleSheet::new(vec![rule(vec![type_sel("a")], vec![decl("margin", vec![dim("0", Some("auto"))])])]));
}

#[test]
fn empty_input_gives_empty_sheet() {
    assert_eq!(parse(""), Ok(StyleSheet::new(vec![])));
    assert_eq!(parse("  /* nothing */  "), Ok(StyleSheet::new(vec![])));
}

#[test]
fn end_of_input_in_declaration() {
    assert_eq!(parse("a { color"), Err(ParseError::UnexpectedEndOfInput { expected: TokenType::Colon }));
}

#[test]
fn end_of_input_in_selector_list() {
    assert_eq!(parse("a"), Err(ParseError::UnexpectedEndOfInput { expected: TokenType::LCurly }));
}

#[test]
fn bad_selector_token() {
    assert_eq!(parse("; { }"), Err(ParseError::UnexpectedSelectorToken { found: TokenType::Semicolon }));
}

#[test]
fn unrecognized_input_is_an_error() {
    assert_eq!(parse("a { color: %; }"), Err(ParseError::UnrecognizedInput { position: 11 }));
    assert_eq!(parse("/* open"), Err(ParseError::UnrecognizedInput { position: 0 }));
}

#[test]
fn tokenizer_orders_number_before_ident() {
    let toks = tokens("1px -x ~= = !important").unwrap();
    let kinds: Vec<TokenType> = toks.iter().map(|t| t.token_type).collect();
    assert_eq!(
        kinds,
        vec![TokenType::Number, TokenType::Ident, TokenType::Ident, TokenType::IncludeMatch, TokenType::Equal, TokenType::Important]
    );
    let texts: Vec<String> = toks.into_iter().map(|t| t.value).collect();
    assert_eq!(texts, vec!["1", "px", "-x", "~=", "=", "!important"]);
}

#[test]
fn tokenizer_keeps_quotes_and_reports_cursor() {
    let mut t = Tokenizer::new();
    t.init("  'ab' ;");
    let tok = t.get_next_token().unwrap().unwrap();
    assert_eq!(tok, Token::new(TokenType::String, "'ab'".to_string()));
    assert_eq!(t.cursor(), 6);
    assert_eq!(t.get_next_token().unwrap().unwrap().token_type, TokenType::Semicolon);
    assert_eq!(t.get_next_token(), Ok(None));
}

#[test]
fn tokenizer_restarts_on_init() {
    let mut t = Tokenizer::new();
    t.init("a b");
    t.get_next_token().unwrap();
    t.init("c");
    assert_eq!(t.get_next_token().unwrap().unwrap().value, "c");
    assert_eq!(t.get_next_token(), Ok(None));
}

#[test]
fn node_builders_append() {
    let mut list = SelectorList::new(vec![]);
    list.add_child(type_sel("a"));
    list.add_child(type_sel("b"));
    assert_eq!(list, SelectorList::new(vec![type_sel("a"), type_sel("b")]));
    let mut values = ValueList::new(vec![]);
    values.add_child(ident("x"));
    assert_eq!(values.children.len(), 1);
    let mut d = decl("p", vec![]);
    d.set_property("q".to_string());
    d.set_value(ValueList::new(vec![ident("v")]));
    assert_eq!(d, decl("q", vec![ident("v")]));
    let mut dl = DeclarationList::new(vec![]);
    dl.add_child(decl("a", vec![]));
    let mut b = Block::new(vec![]);
    b.add_child(BlockChild::DeclarationList(dl));
    assert_eq!(b, Block::new(vec![BlockChild::DeclarationList(DeclarationList::new(vec![decl("a", vec![])]))]));
    assert_eq!(CssString::new("s".to_string()), CssString::from_str("s"));
    assert_eq!(Identifier::new("i".to_string()), Identifier::from_str("i"));
}

#[test]
fn node_defaults_are_empty() {
    assert_eq!(Declaration::default(), decl("", vec![]));
    assert_eq!(Rule::default(), Rule::new(SelectorList::new(vec![]), Block::new(vec![])));
    assert_eq!(StyleSheet::default(), StyleSheet::new(vec![]));
    assert_eq!(Dimension::default(), Dimension::new(String::new(), None));
    assert_eq!(IdSelector::default(), IdSelector::new(String::new()));
    assert_eq!(ClassSelector::default(), ClassSelector::new(String::new()));
    assert_eq!(Identifier::default(), Identifier::from_str(""));
    assert_eq!(ValueList::default(), ValueList::new(vec![]));
    assert_eq!(DeclarationList::default(), DeclarationList::new(vec![]));
    assert_eq!(CSS3Parser::default().parse("b{}"), Ok(StyleSheet::new(vec![rule(vec![type_sel("b")], vec![])])));
}

#[test]
fn missing_semicolon_then_spaced_flag() {
    let tight = parse(r#"a[href$='.org'i]{color:red}"#);
    assert_eq!(
        tight,
        Err(ParseError::UnexpectedToken {
            expected: TokenType::Number,
            found: TokenType::RCurly,
            found_text: "}".to_string(),
            position: 27,
        })
    );
    let spaced = parse("a[href$='.org' i] { color : red ; }").unwrap();
    let expected = rule(
        vec![
            type_sel("a"),
            Selector::AttributeSelector(AttributeSelector {
                name: Identifier::from_str("href"),
                matcher: Some(AttributeMatcher::SuffixMatch),
                value: Some(CssString::from_str(".org")),
                flag: Some(Identifier::from_str("i")),
            }),
        ],
        vec![decl("color", vec![ident("red")])],
    );
    assert_eq!(spaced, StyleSheet::new(vec![expected]));
}
