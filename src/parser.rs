use vstd::prelude::*;
use vstd::string::StrSliceExecFns;
use vstd::string::StringExecFns;

use crate::error::{ParseError, ParseErrorV};
use crate::grammar::{
    Parsed, attribute_matcher_at, attribute_selector_at, block_at, consume_at, declaration_at,
    declaration_list_at, dimension_at, identifier_at, lemma_declaration_advances,
    lemma_rule_advances, lemma_selector_advances, lemma_value_advances, parse_spec,
    prefixed_name_at, rule_at, rules_list_at, selector_at, selector_list_at, string_at, token_text,
    value_at, value_list_at,
};
use crate::node::{
    AttributeMatcher, AttributeSelector, Block, BlockChild, BlockChildV, ClassSelector, CssString,
    Declaration, DeclarationList, Dimension, IdSelector, Identifier, Rule, Selector, SelectorList,
    StyleSheet, StyleSheetRule, StyleSheetRuleV, TypeSelector, Value, ValueList,
};
use crate::tokenizer::{Lex, Tokenizer, next_tok};
use crate::tokens::{Token, TokenType};

verus! {

proof fn lemma_push_concat<T>(a: Seq<T>, x: T, b: Seq<T>)
    ensures
        a.push(x) + b == a + (seq![x] + b),
{
    assert(a.push(x) + b =~= a + (seq![x] + b));
}

/// CSS parser: a predictive recursive-descent parser with one token of
/// lookahead over the tokenizer it owns.
pub struct CSS3Parser {
    tokenizer: Tokenizer,
    lookahead: Option<Token>,
}

impl Default for CSS3Parser {
    fn default() -> (r: CSS3Parser)
        ensures
            r.at(0),
    {
        CSS3Parser::new()
    }
}

impl CSS3Parser {
    /// The source being parsed.
    pub closed spec fn src(&self) -> Seq<char> {
        self.tokenizer.src()
    }

    /// The parser stands at position `p`: the lookahead is the token that
    /// the scan from `p` finds, and the cursor is just past it.
    pub closed spec fn at(&self, p: int) -> bool {
        &&& self.tokenizer.wf()
        &&& 0 <= p <= self.src().len()
        &&& match next_tok(self.src(), p) {
            Lex::End => self.lookahead is None,
            Lex::Tok(k, st, e) => {
                &&& self.lookahead is Some
                &&& self.lookahead->0.token_type == k
                &&& self.lookahead->0.value@ == self.src().subrange(st, e)
                &&& self.tokenizer.cursor == e
            },
            Lex::Bad(_) => false,
        }
    }

    /// What a production returned agrees with its outcome in the grammar.
    pub closed spec fn yields<T: View>(&self, r: Result<T, ParseError>, expect: Parsed<T::V>) -> bool {
        match expect {
            Ok((v, q)) => r is Ok && r->Ok_0@ == v && self.at(q),
            Err(e) => r is Err && r->Err_0@ == e,
        }
    }

    pub fn new() -> (r: CSS3Parser)
        ensures
            r.at(0),
    {
        CSS3Parser { tokenizer: Tokenizer::new(), lookahead: None }
    }

    /// Parses `raw` into a style sheet, or reports the error that ends the parse.
    pub fn parse(&mut self, raw: &str) -> (r: Result<StyleSheet, ParseError>)
        ensures
            match parse_spec(raw@) {
                Ok(v) => r is Ok && r->Ok_0@ == v,
                Err(e) => r is Err && r->Err_0@ == e,
            },
    {
        self.tokenizer.init(raw);
        match self.tokenizer.get_next_token() {
            Err(e) => {
                return Err(e);
            },
            Ok(t) => {
                self.lookahead = t;
            },
        }
        self.style_sheet(Ghost(0))
    }

    /// `StyleSheet : RulesList`
    fn style_sheet(&mut self, Ghost(p): Ghost<int>) -> (r: Result<StyleSheet, ParseError>)
        requires
            old(self).at(p),
        ensures
            match rules_list_at(old(self).src(), p) {
                Ok((v, _)) => r is Ok && r->Ok_0@ == v,
                Err(e) => r is Err && r->Err_0@ == e,
            },
    {
        match self.rules_list(Ghost(p)) {
            Ok(rules) => Ok(StyleSheet::new(rules)),
            Err(e) => Err(e),
        }
    }

    /// `RulesList : Rule*`, while a lookahead exists that does not close a block.
    #[verifier::rlimit(40)]
    fn rules_list(&mut self, Ghost(p): Ghost<int>) -> (r: Result<Vec<StyleSheetRule>, ParseError>)
        requires
            old(self).at(p),
        ensures
            final(self).src() == old(self).src(),
            match rules_list_at(old(self).src(), p) {
                Ok((v, q)) => r is Ok && r->Ok_0@.map_values(|x: StyleSheetRule| x@) == v
                    && final(self).at(q),
                Err(e) => r is Err && r->Err_0@ == e,
            },
    {
        let ghost s = self.src();
        let mut rules: Vec<StyleSheetRule> = Vec::new();
        let ghost mut q = p;
        while !self.is_next_token(TokenType::RCurly) && self.lookahead.is_some()
            invariant
                self.at(q),
                self.src() == s,
                s == old(self).src(),
                rules_list_at(s, p) == match rules_list_at(s, q) {
                    Ok((rest, t)) => Ok(
                        (rules@.map_values(|x: StyleSheetRule| x@) + rest, t),
                    ),
                    Err(e) => Err(e),
                },
            decreases s.len() - q,
        {
            proof {
                lemma_rule_advances(s, q);
            }
            match self.rule(Ghost(q)) {
                Err(e) => {
                    return Err(e);
                },
                Ok(rule) => {
                    let ghost before = rules@.map_values(|x: StyleSheetRule| x@);
                    let ghost rv = rule@;
                    rules.push(StyleSheetRule::Rule(rule));
                    proof {
                        assert(rules@.map_values(|x: StyleSheetRule| x@) =~= before.push(
                            StyleSheetRuleV::Rule(rv),
                        ));
                        q = rule_at(s, q)->Ok_0.1;
                        if let Ok((rest, t)) = rules_list_at(s, q) {
                            lemma_push_concat(before, StyleSheetRuleV::Rule(rv), rest);
                        }
                    }
                },
            }
        }
        assert(rules@.map_values(|x: StyleSheetRule| x@) + Seq::empty() =~= rules@.map_values(
            |x: StyleSheetRule| x@,
        ));
        Ok(rules)
    }

    /// `Rule : SelectorList Block`
    fn rule(&mut self, Ghost(p): Ghost<int>) -> (r: Result<Rule, ParseError>)
        requires
            old(self).at(p),
        ensures
            final(self).src() == old(self).src(),
            final(self).yields(r, rule_at(old(self).src(), p)),
    {
        let ghost s = self.src();
        let selectors = match self.selector_list(Ghost(p)) {
            Ok(l) => l,
            Err(e) => {
                return Err(e);
            },
        };
        let ghost p1 = selector_list_at(s, p)->Ok_0.1;
        match self.block(Ghost(p1)) {
            Ok(block) => Ok(Rule::new(selectors, block)),
            Err(e) => Err(e),
        }
    }

    /// `SelectorList : Selector*`, up to the lookahead `{`.
    #[verifier::rlimit(40)]
    fn selector_list(&mut self, Ghost(p): Ghost<int>) -> (r: Result<SelectorList, ParseError>)
        requires
            old(self).at(p),
        ensures
            final(self).src() == old(self).src(),
            final(self).yields(r, selector_list_at(old(self).src(), p)),
    {
        let ghost s = self.src();
        let mut list = SelectorList::new(Vec::new());
        assert(list@ =~= Seq::empty());
        let ghost mut q = p;
        while !self.is_next_token(TokenType::LCurly)
            invariant
                self.at(q),
                self.src() == s,
                s == old(self).src(),
                selector_list_at(s, p) == match selector_list_at(s, q) {
                    Ok((rest, t)) => Ok((list@ + rest, t)),
                    Err(e) => Err(e),
                },
            decreases s.len() - q,
        {
            proof {
                lemma_selector_advances(s, q);
            }
            match self.selector(Ghost(q)) {
                Err(e) => {
                    return Err(e);
                },
                Ok(sel) => {
                    let ghost before = list@;
                    let ghost sv = sel@;
                    list.add_child(sel);
                    proof {
                        q = selector_at(s, q)->Ok_0.1;
                        if let Ok((rest, t)) = selector_list_at(s, q) {
                            lemma_push_concat(before, sv, rest);
                        }
                    }
                },
            }
        }
        assert(list@ + Seq::empty() =~= list@);
        Ok(list)
    }

    /// `Selector : IdSelector | ClassSelector | AttributeSelector | TypeSelector`
    fn selector(&mut self, Ghost(p): Ghost<int>) -> (r: Result<Selector, ParseError>)
        requires
            old(self).at(p),
        ensures
            final(self).src() == old(self).src(),
            final(self).yields(r, selector_at(old(self).src(), p)),
    {
        match self.get_next_token_type() {
            None => Err(ParseError::UnexpectedEndOfInput { expected: TokenType::LCurly }),
            Some(k) => match k {
                TokenType::Hash => match self.id_selector(Ghost(p)) {
                    Ok(sel) => Ok(Selector::IdSelector(sel)),
                    Err(e) => Err(e),
                },
                TokenType::Dot => match self.class_selector(Ghost(p)) {
                    Ok(sel) => Ok(Selector::ClassSelector(sel)),
                    Err(e) => Err(e),
                },
                TokenType::LBracket => match self.attribute_selector(Ghost(p)) {
                    Ok(sel) => Ok(Selector::AttributeSelector(sel)),
                    Err(e) => Err(e),
                },
                TokenType::Ident => match self.type_selector(Ghost(p)) {
                    Ok(sel) => Ok(Selector::TypeSelector(sel)),
                    Err(e) => Err(e),
                },
                _ => Err(ParseError::UnexpectedSelectorToken { found: k }),
            },
        }
    }

    /// `TypeSelector : IDENT`
    fn type_selector(&mut self, Ghost(p): Ghost<int>) -> (r: Result<TypeSelector, ParseError>)
        requires
            old(self).at(p),
        ensures
            final(self).src() == old(self).src(),
            final(self).yields(r, identifier_at(old(self).src(), p)),
    {
        match self.consume(TokenType::Ident, Ghost(p)) {
            Ok(t) => Ok(TypeSelector::new(t.value)),
            Err(e) => Err(e),
        }
    }

    /// `IdSelector : HASH IDENT`
    fn id_selector(&mut self, Ghost(p): Ghost<int>) -> (r: Result<IdSelector, ParseError>)
        requires
            old(self).at(p),
        ensures
            final(self).src() == old(self).src(),
            final(self).yields(r, prefixed_name_at(old(self).src(), p, TokenType::Hash)),
    {
        if let Err(e) = self.consume(TokenType::Hash, Ghost(p)) {
            return Err(e);
        }
        let ghost q = consume_at(self.src(), p, TokenType::Hash)->Ok_0;
        match self.consume(TokenType::Ident, Ghost(q)) {
            Ok(t) => Ok(IdSelector::new(t.value)),
            Err(e) => Err(e),
        }
    }

    /// `ClassSelector : DOT IDENT`
    fn class_selector(&mut self, Ghost(p): Ghost<int>) -> (r: Result<ClassSelector, ParseError>)
        requires
            old(self).at(p),
        ensures
            final(self).src() == old(self).src(),
            final(self).yields(r, prefixed_name_at(old(self).src(), p, TokenType::Dot)),
    {
        if let Err(e) = self.consume(TokenType::Dot, Ghost(p)) {
            return Err(e);
        }
        let ghost q = consume_at(self.src(), p, TokenType::Dot)->Ok_0;
        match self.consume(TokenType::Ident, Ghost(q)) {
            Ok(t) => Ok(ClassSelector::new(t.value)),
            Err(e) => Err(e),
        }
    }

    /// `AttributeSelector : LBRACKET IDENT [AttributeMatcher STRING IDENT?]? RBRACKET`
    fn attribute_selector(&mut self, Ghost(p): Ghost<int>) -> (r: Result<
        AttributeSelector,
        ParseError,
    >)
        requires
            old(self).at(p),
        ensures
            final(self).src() == old(self).src(),
            final(self).yields(r, attribute_selector_at(old(self).src(), p)),
    {
        let ghost s = self.src();
        if let Err(e) = self.consume(TokenType::LBracket, Ghost(p)) {
            return Err(e);
        }
        let ghost p1 = consume_at(s, p, TokenType::LBracket)->Ok_0;
        let name = match self.identifier(Ghost(p1)) {
            Ok(n) => n,
            Err(e) => {
                return Err(e);
            },
        };
        let ghost p2 = identifier_at(s, p1)->Ok_0.1;
        if self.is_next_token(TokenType::RBracket) {
            return match self.consume(TokenType::RBracket, Ghost(p2)) {
                Ok(_) => Ok(AttributeSelector { name, matcher: None, value: None, flag: None }),
                Err(e) => Err(e),
            };
        }
        let matcher = match self.attribute_matcher(Ghost(p2)) {
            Ok(m) => m,
            Err(e) => {
                return Err(e);
            },
        };
        let ghost p3 = attribute_matcher_at(s, p2)->Ok_0.1;
        let value = match self.string(Ghost(p3)) {
            Ok(v) => v,
            Err(e) => {
                return Err(e);
            },
        };
        let ghost p4 = string_at(s, p3)->Ok_0.1;
        let flag = if !self.is_next_token(TokenType::RBracket) {
            match self.identifier(Ghost(p4)) {
                Ok(f) => Some(f),
                Err(e) => {
                    return Err(e);
                },
            }
        } else {
            None
        };
        let ghost p5 = if flag is Some {
            identifier_at(s, p4)->Ok_0.1
        } else {
            p4
        };
        match self.consume(TokenType::RBracket, Ghost(p5)) {
            Ok(_) => Ok(AttributeSelector { name, matcher: Some(matcher), value: Some(value), flag }),
            Err(e) => Err(e),
        }
    }

    /// `AttributeMatcher : INCLUDE_MATCH | DASH_MATCH | PREFIX_MATCH | SUFFIX_MATCH
    /// | SUBSTRING_MATCH | EQUAL`
    fn attribute_matcher(&mut self, Ghost(p): Ghost<int>) -> (r: Result<
        AttributeMatcher,
        ParseError,
    >)
        requires
            old(self).at(p),
        ensures
            final(self).src() == old(self).src(),
            final(self).yields(r, attribute_matcher_at(old(self).src(), p)),
    {
        match self.get_next_token_type() {
            None => Err(ParseError::UnexpectedEndOfInput { expected: TokenType::RBracket }),
            Some(k) => {
                let matcher = match k {
                    TokenType::IncludeMatch => AttributeMatcher::IncludeMatch,
                    TokenType::DashMatch => AttributeMatcher::DashMatch,
                    TokenType::PrefixMatch => AttributeMatcher::PrefixMatch,
                    TokenType::SuffixMatch => AttributeMatcher::SuffixMatch,
                    TokenType::SubstringMatch => AttributeMatcher::SubstringMatch,
                    TokenType::Equal => AttributeMatcher::EqualityMatch,
                    _ => {
                        return Err(ParseError::UnexpectedSelectorToken { found: k });
                    },
                };
                match self.consume(k, Ghost(p)) {
                    Ok(_) => Ok(matcher),
                    Err(e) => Err(e),
                }
            },
        }
    }

    /// `String : STRING`, without its outer quotes.
    fn string(&mut self, Ghost(p): Ghost<int>) -> (r: Result<CssString, ParseError>)
        requires
            old(self).at(p),
        ensures
            final(self).src() == old(self).src(),
            final(self).yields(r, string_at(old(self).src(), p)),
    {
        match self.consume(TokenType::String, Ghost(p)) {
            Ok(t) => {
                let text = t.value.as_str();
                let n = text.unicode_len();
                let inner = if n >= 2 {
                    <String as StringExecFns>::from_str(text.substring_char(1, n - 1))
                } else {
                    String::new()
                };
                Ok(CssString::new(inner))
            },
            Err(e) => Err(e),
        }
    }

    /// `Block : LCURLY DeclarationList? RCURLY`
    fn block(&mut self, Ghost(p): Ghost<int>) -> (r: Result<Block, ParseError>)
        requires
            old(self).at(p),
        ensures
            final(self).src() == old(self).src(),
            final(self).yields(r, block_at(old(self).src(), p)),
    {
        let ghost s = self.src();
        let mut block = Block::new(Vec::new());
        assert(block@ =~= Seq::<BlockChildV>::empty());
        if let Err(e) = self.consume(TokenType::LCurly, Ghost(p)) {
            return Err(e);
        }
        let ghost p1 = consume_at(s, p, TokenType::LCurly)->Ok_0;
        let ghost mut p2 = p1;
        if !self.is_next_token(TokenType::RCurly) {
            match self.declaration_list(Ghost(p1)) {
                Ok(list) => {
                    block.add_child(BlockChild::DeclarationList(list));
                    proof {
                        p2 = declaration_list_at(s, p1)->Ok_0.1;
                        assert(block@ =~= seq![
                            BlockChildV::DeclarationList(declaration_list_at(s, p1)->Ok_0.0),
                        ]);
                    }
                },
                Err(e) => {
                    return Err(e);
                },
            }
        }
        match self.consume(TokenType::RCurly, Ghost(p2)) {
            Ok(_) => Ok(block),
            Err(e) => Err(e),
        }
    }

    /// `DeclarationList : Declaration*`, up to the lookahead `}`.
    #[verifier::rlimit(40)]
    fn declaration_list(&mut self, Ghost(p): Ghost<int>) -> (r: Result<
        DeclarationList,
        ParseError,
    >)
        requires
            old(self).at(p),
        ensures
            final(self).src() == old(self).src(),
            final(self).yields(r, declaration_list_at(old(self).src(), p)),
    {
        let ghost s = self.src();
        let mut list = DeclarationList::new(Vec::new());
        assert(list@ =~= Seq::empty());
        let ghost mut q = p;
        while !self.is_next_token(TokenType::RCurly)
            invariant
                self.at(q),
                self.src() == s,
                s == old(self).src(),
                declaration_list_at(s, p) == match declaration_list_at(s, q) {
                    Ok((rest, t)) => Ok((list@ + rest, t)),
                    Err(e) => Err(e),
                },
            decreases s.len() - q,
        {
            proof {
                lemma_declaration_advances(s, q);
            }
            match self.declaration(Ghost(q)) {
                Err(e) => {
                    return Err(e);
                },
                Ok(d) => {
                    let ghost before = list@;
                    let ghost dv = d@;
                    list.add_child(d);
                    proof {
                        q = declaration_at(s, q)->Ok_0.1;
                        if let Ok((rest, t)) = declaration_list_at(s, q) {
                            lemma_push_concat(before, dv, rest);
                        }
                    }
                },
            }
        }
        assert(list@ + Seq::empty() =~= list@);
        Ok(list)
    }

    /// `Declaration : IDENT COLON ValueList IMPORTANT? SEMICOLON`
    fn declaration(&mut self, Ghost(p): Ghost<int>) -> (r: Result<Declaration, ParseError>)
        requires
            old(self).at(p),
        ensures
            final(self).src() == old(self).src(),
            final(self).yields(r, declaration_at(old(self).src(), p)),
    {
        let ghost s = self.src();
        let property = match self.consume(TokenType::Ident, Ghost(p)) {
            Ok(t) => t.value,
            Err(e) => {
                return Err(e);
            },
        };
        let ghost p1 = consume_at(s, p, TokenType::Ident)->Ok_0;
        if let Err(e) = self.consume(TokenType::Colon, Ghost(p1)) {
            return Err(e);
        }
        let ghost p2 = consume_at(s, p1, TokenType::Colon)->Ok_0;
        let values = match self.value_ist(Ghost(p2)) {
            Ok(v) => v,
            Err(e) => {
                return Err(e);
            },
        };
        let ghost p3 = value_list_at(s, p2)->Ok_0.1;
        let mut declaration = Declaration::new(property, values);
        let ghost mut p4 = p3;
        if self.is_next_token(TokenType::Important) {
            if let Err(e) = self.consume(TokenType::Important, Ghost(p3)) {
                return Err(e);
            }
            proof {
                p4 = consume_at(s, p3, TokenType::Important)->Ok_0;
            }
            declaration.set_important_as(true);
        }
        match self.consume(TokenType::Semicolon, Ghost(p4)) {
            Ok(_) => Ok(declaration),
            Err(e) => Err(e),
        }
    }

    /// `ValueList : Value*`, up to the lookahead `;` or `!important`.
    #[verifier::rlimit(40)]
    fn value_ist(&mut self, Ghost(p): Ghost<int>) -> (r: Result<ValueList, ParseError>)
        requires
            old(self).at(p),
        ensures
            final(self).src() == old(self).src(),
            final(self).yields(r, value_list_at(old(self).src(), p)),
    {
        let ghost s = self.src();
        let mut list = ValueList::new(Vec::new());
        assert(list@ =~= Seq::empty());
        let ghost mut q = p;
        while !self.is_next_tokens(vec![TokenType::Semicolon, TokenType::Important])
            invariant
                self.at(q),
                self.src() == s,
                s == old(self).src(),
                value_list_at(s, p) == match value_list_at(s, q) {
                    Ok((rest, t)) => Ok((list@ + rest, t)),
                    Err(e) => Err(e),
                },
            decreases s.len() - q,
        {
            proof {
                lemma_value_advances(s, q);
            }
            match self.value(Ghost(q)) {
                Err(e) => {
                    return Err(e);
                },
                Ok(v) => {
                    let ghost before = list@;
                    let ghost vv = v@;
                    list.add_child(v);
                    proof {
                        q = value_at(s, q)->Ok_0.1;
                        if let Ok((rest, t)) = value_list_at(s, q) {
                            lemma_push_concat(before, vv, rest);
                        }
                    }
                },
            }
        }
        assert(list@ + Seq::empty() =~= list@);
        Ok(list)
    }

    /// `Value : Identifier | Dimension`
    fn value(&mut self, Ghost(p): Ghost<int>) -> (r: Result<Value, ParseError>)
        requires
            old(self).at(p),
        ensures
            final(self).src() == old(self).src(),
            final(self).yields(r, value_at(old(self).src(), p)),
    {
        if self.is_next_token(TokenType::Ident) {
            return match self.identifier(Ghost(p)) {
                Ok(i) => Ok(Value::Identifier(i)),
                Err(e) => Err(e),
            };
        }
        match self.dimension(Ghost(p)) {
            Ok(d) => Ok(Value::Dimension(d)),
            Err(e) => Err(e),
        }
    }

    /// `Identifier : IDENT`
    fn identifier(&mut self, Ghost(p): Ghost<int>) -> (r: Result<Identifier, ParseError>)
        requires
            old(self).at(p),
        ensures
            final(self).src() == old(self).src(),
            final(self).yields(r, identifier_at(old(self).src(), p)),
    {
        match self.consume(TokenType::Ident, Ghost(p)) {
            Ok(t) => Ok(Identifier::new(t.value)),
            Err(e) => Err(e),
        }
    }

    /// `Dimension : NUMBER IDENT?`
    fn dimension(&mut self, Ghost(p): Ghost<int>) -> (r: Result<Dimension, ParseError>)
        requires
            old(self).at(p),
        ensures
            final(self).src() == old(self).src(),
            final(self).yields(r, dimension_at(old(self).src(), p)),
    {
        let ghost s = self.src();
        let value = match self.consume(TokenType::Number, Ghost(p)) {
            Ok(t) => t.value,
            Err(e) => {
                return Err(e);
            },
        };
        let ghost q = consume_at(s, p, TokenType::Number)->Ok_0;
        let unit = if self.is_next_token(TokenType::Ident) {
            match self.consume(TokenType::Ident, Ghost(q)) {
                Ok(t) => Some(t.value),
                Err(e) => {
                    return Err(e);
                },
            }
        } else {
            None
        };
        Ok(Dimension::new(value, unit))
    }

    /// Consumes the lookahead if it is of kind `token_type`, and scans the next one.
    fn consume(&mut self, token_type: TokenType, Ghost(p): Ghost<int>) -> (r: Result<
        Token,
        ParseError,
    >)
        requires
            old(self).at(p),
        ensures
            final(self).src() == old(self).src(),
            match consume_at(old(self).src(), p, token_type) {
                Ok(q) => {
                    &&& r is Ok
                    &&& r->Ok_0.token_type == token_type
                    &&& r->Ok_0.value@ == token_text(old(self).src(), p)
                    &&& final(self).at(q)
                },
                Err(e) => r is Err && r->Err_0@ == e,
            },
    {
        match &self.lookahead {
            None => {
                return Err(ParseError::UnexpectedEndOfInput { expected: token_type });
            },
            Some(token) => {
                if token.token_type != token_type {
                    return Err(
                        ParseError::UnexpectedToken {
                            expected: token_type,
                            found: token.token_type,
                            found_text: token.value.clone(),
                            position: self.tokenizer.cursor(),
                        },
                    );
                }
            },
        }
        match self.tokenizer.get_next_token() {
            Err(e) => Err(e),
            Ok(next) => {
                let token = self.lookahead.take();
                self.lookahead = next;
                Ok(token.unwrap())
            },
        }
    }

    /// Whether the lookahead is of kind `token_type`.
    fn is_next_token(&self, token_type: TokenType) -> (r: bool)
        ensures
            r == (self.lookahead is Some && self.lookahead->0.token_type == token_type),
    {
        match &self.lookahead {
            Some(token) => token.token_type == token_type,
            None => false,
        }
    }

    /// Whether the lookahead is of one of the kinds `token_types`.
    fn is_next_tokens(&self, token_types: Vec<TokenType>) -> (r: bool)
        ensures
            r == (self.lookahead is Some && token_types@.contains(
                self.lookahead->0.token_type,
            )),
    {
        let mut i: usize = 0;
        while i < token_types.len()
            invariant
                i <= token_types.len(),
                forall|j: int|
                    0 <= j < i ==> !(self.lookahead is Some && token_types@[j]
                        == self.lookahead->0.token_type),
            decreases token_types.len() - i,
        {
            if self.is_next_token(token_types[i]) {
                return true;
            }
            i = i + 1;
        }
        false
    }

    /// The kind of the lookahead, if any.
    fn get_next_token_type(&self) -> (r: Option<TokenType>)
        ensures
            r == match self.lookahead {
                Some(t) => Some(t.token_type),
                None => None::<TokenType>,
            },
    {
        match &self.lookahead {
            Some(token) => Some(token.token_type),
            None => None,
        }
    }
}

} // verus!
