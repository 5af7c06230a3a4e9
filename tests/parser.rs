use css_parser::node::{
    AttributeMatcher, AttributeSelector, Block, BlockChild, CssString, Declaration,
    DeclarationList, Dimension, IdSelector, Identifier, Rule, Selector, SelectorList, StyleSheet,
    StyleSheetRule, TypeSelector, Value, ValueList,
};
use css_parser::parser::CSS3Parser;

#[test]
fn parse_css() {
    let mut parser = CSS3Parser::new();
    let style_sheet = parser.parse(
        r#"
        
            #header {
                display: flex;
                width: 100px;
                font-size: 1rem !important;
            }
        "#,
    );

    assert_eq!(
        style_sheet,
        Ok(StyleSheet::new(vec![StyleSheetRule::Rule(Rule::new(
            SelectorList::new(vec![Selector::IdSelector(IdSelector::new(
                "header".to_string()
            ))]),
            Block::new(vec![BlockChild::DeclarationList(DeclarationList::new(
                vec![
                    Declaration::new(
                        "display".to_string(),
                        ValueList::new(vec![Value::Identifier(Identifier::new(
                            "flex".to_string()
                        ))])
                    ),
                    Declaration::new(
                        "width".to_string(),
                        ValueList::new(vec![Value::Dimension(Dimension::new(
                            "100".to_string(),
                            Some("px".to_string())
                        ))])
                    ),
                    Declaration {
                        important: true,
                        property: "font-size".to_string(),
                        value: ValueList::new(vec![Value::Dimension(Dimension::new(
                            "1".to_string(),
                            Some("rem".to_string())
                        ))])
                    }
                ]
            ))])
        ))]))
    )
}

#[test]
fn parse_attribute_selectors() {
    let mut parser = CSS3Parser::new();

    assert_eq!(
        parser.parse(
            r##"
        a {
            color: blue;
        }
    "##
        ),
        Ok(StyleSheet::new(vec![StyleSheetRule::Rule(Rule::new(
            SelectorList::new(vec![Selector::TypeSelector(TypeSelector::new(
                "a".to_string()
            ))]),
            Block::new(vec![BlockChild::DeclarationList(DeclarationList::new(
                vec![Declaration::new(
                    "color".to_string(),
                    ValueList::new(vec![Value::Identifier(Identifier::new(
                        "blue".to_string()
                    ))])
                ),]
            ))])
        )),]))
    );

    assert_eq!(
        parser.parse(
            r##"
        /* Internal links, beginning with "#" */
        a[href^="#"] {
            background-color: gold;
        }
    "##,
        ),
        Ok(StyleSheet::new(vec![StyleSheetRule::Rule(Rule::new(
            SelectorList::new(vec![
                Selector::TypeSelector(TypeSelector::new("a".to_string())),
                Selector::AttributeSelector(AttributeSelector {
                    name: Identifier::new("href".to_string()),
                    matcher: Some(AttributeMatcher::PrefixMatch),
                    value: Some(CssString::from_str("#")),
                    flag: None
                })
            ]),
            Block::new(vec![BlockChild::DeclarationList(DeclarationList::new(
                vec![Declaration::new(
                    "background-color".to_string(),
                    ValueList::new(vec![Value::Identifier(Identifier::new(
                        "gold".to_string()
                    ))])
                ),]
            ))])
        )),]))
    );

    assert_eq!(
        parser.parse(
            r##"
        /* Links with "example" anywhere in the URL */
        a[href*="example"] {
            background-color: silver;
        }
    "##
        ),
        Ok(StyleSheet::new(vec![StyleSheetRule::Rule(Rule::new(
            SelectorList::new(vec![
                Selector::TypeSelector(TypeSelector::new("a".to_string())),
                Selector::AttributeSelector(AttributeSelector {
                    name: Identifier::new("href".to_string()),
                    matcher: Some(AttributeMatcher::SubstringMatch),
                    value: Some(CssString::from_str("example")),
                    flag: None
                })
            ]),
            Block::new(vec![BlockChild::DeclarationList(DeclarationList::new(
                vec![Declaration::new(
                    "background-color".to_string(),
                    ValueList::new(vec![Value::Identifier(Identifier::new(
                        "silver".to_string()
                    ))])
                ),]
            ))])
        )),]))
    );

    assert_eq!(
        parser.parse(
            r##"
        /* Links with "insensitive" anywhere in the URL,
        regardless of capitalization */
        a[href*="insensitive" i] {
            color: cyan;
        }
    "##
        ),
        Ok(StyleSheet::new(vec![StyleSheetRule::Rule(Rule::new(
            SelectorList::new(vec![
                Selector::TypeSelector(TypeSelector::new("a".to_string())),
                Selector::AttributeSelector(AttributeSelector {
                    name: Identifier::new("href".to_string()),
                    matcher: Some(AttributeMatcher::SubstringMatch),
                    value: Some(CssString::from_str("insensitive")),
                    flag: Some(Identifier::from_str("i"))
                })
            ]),
            Block::new(vec![BlockChild::DeclarationList(DeclarationList::new(
                vec![Declaration::new(
                    "color".to_string(),
                    ValueList::new(vec![Value::Identifier(Identifier::new(
                        "cyan".to_string()
                    ))])
                ),]
            ))])
        )),]))
    );

    assert_eq!(
        parser.parse(
            r##"
                /* Links with "cAsE" anywhere in the URL,
                with matching capitalization */
                a[href*="cAsE" s] {
                    color: pink;
                }
            "##,
        ),
        Ok(StyleSheet::new(vec![StyleSheetRule::Rule(Rule::new(
            SelectorList::new(vec![
                Selector::TypeSelector(TypeSelector::new("a".to_string())),
                Selector::AttributeSelector(AttributeSelector {
                    name: Identifier::new("href".to_string()),
                    matcher: Some(AttributeMatcher::SubstringMatch),
                    value: Some(CssString::from_str("cAsE")),
                    flag: Some(Identifier::from_str("s"))
                })
            ]),
            Block::new(vec![BlockChild::DeclarationList(DeclarationList::new(
                vec![Declaration::new(
                    "color".to_string(),
                    ValueList::new(vec![Value::Identifier(Identifier::new(
                        "pink".to_string()
                    ))])
                ),]
            ))])
        )),]))
    );

    assert_eq!(
        parser.parse(
            r##"
        
        /* Links that end in ".org" */
        a[href$=".org"] {
            color: red;
        }

        "##
        ),
        Ok(StyleSheet::new(vec![StyleSheetRule::Rule(Rule::new(
            SelectorList::new(vec![
                Selector::TypeSelector(TypeSelector::new("a".to_string())),
                Selector::AttributeSelector(AttributeSelector {
                    name: Identifier::new("href".to_string()),
                    matcher: Some(AttributeMatcher::SuffixMatch),
                    value: Some(CssString::from_str(".org")),
                    flag: None
                })
            ]),
            Block::new(vec![BlockChild::DeclarationList(DeclarationList::new(
                vec![Declaration::new(
                    "color".to_string(),
                    ValueList::new(vec![Value::Identifier(Identifier::new("red".to_string()))])
                ),]
            ))])
        )),]))
    );

    assert_eq!(
        parser.parse(
            r##"
        /* Links that start with "https://" and end in ".org" */
        a[href^="https://"][href$=".org"] {
            color: green;
        } 
        "##
        ),
        Ok(StyleSheet::new(vec![StyleSheetRule::Rule(Rule::new(
            SelectorList::new(vec![
                Selector::TypeSelector(TypeSelector::new("a".to_string())),
                Selector::AttributeSelector(AttributeSelector {
                    name: Identifier::new("href".to_string()),
                    matcher: Some(AttributeMatcher::PrefixMatch),
                    value: Some(CssString::from_str("https://")),
                    flag: None
                }),
                Selector::AttributeSelector(AttributeSelector {
                    name: Identifier::new("href".to_string()),
                    matcher: Some(AttributeMatcher::SuffixMatch),
                    value: Some(CssString::from_str(".org")),
                    flag: None
                })
            ]),
            Block::new(vec![BlockChild::DeclarationList(DeclarationList::new(
                vec![Declaration::new(
                    "color".to_string(),
                    ValueList::new(vec![Value::Identifier(Identifier::new(
                        "green".to_string()
                    ))])
                ),]
            ))])
        )),]))
    );
}
