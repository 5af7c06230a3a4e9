//! The grammar, stated over positions in the source text. A production
//! applied at position `p` (where the scan for its first token starts)
//! either yields a node model and the position after its last token, or the
//! error that ends the parse.
use vstd::prelude::*;

use crate::error::ParseErrorV;
use crate::node::{
    AttributeMatcher, AttributeV, BlockChildV, DeclarationV, RuleV, SelectorV, StyleSheetRuleV,
    ValueV, matcher_of,
};
use crate::tokenizer::{Lex, lemma_next_tok_bounds, next_tok};
use crate::tokens::TokenType;

verus! {

/// A production's outcome: the node model and the position after it.
pub type Parsed<T> = Result<(T, int), ParseErrorV>;

/// The kind of the lookahead token at `p`, if there is one.
pub open spec fn peek_kind(s: Seq<char>, p: int) -> Option<TokenType> {
    match next_tok(s, p) {
        Lex::Tok(k, _, _) => Some(k),
        _ => None,
    }
}

/// The text of the lookahead token at `p`.
pub open spec fn token_text(s: Seq<char>, p: int) -> Seq<char> {
    match next_tok(s, p) {
        Lex::Tok(_, st, e) => s.subrange(st, e),
        _ => Seq::empty(),
    }
}

/// Consumes a token of kind `k`: the position after it. Scanning the token
/// that follows happens at once, so a scan failure there is reported here.
pub open spec fn consume_at(s: Seq<char>, p: int, k: TokenType) -> Result<int, ParseErrorV> {
    match next_tok(s, p) {
        Lex::End => Err(ParseErrorV::UnexpectedEndOfInput { expected: k }),
        Lex::Tok(found, st, e) => if found != k {
            Err(
                ParseErrorV::UnexpectedToken {
                    expected: k,
                    found,
                    found_text: s.subrange(st, e),
                    position: e,
                },
            )
        } else {
            match next_tok(s, e) {
                Lex::Bad(q) => Err(ParseErrorV::UnrecognizedInput { position: q }),
                _ => Ok(e),
            }
        },
        Lex::Bad(q) => Err(ParseErrorV::UnrecognizedInput { position: q }),
    }
}

/// `IDENT`, as its text.
pub open spec fn identifier_at(s: Seq<char>, p: int) -> Parsed<Seq<char>> {
    match consume_at(s, p, TokenType::Ident) {
        Ok(q) => Ok((token_text(s, p), q)),
        Err(e) => Err(e),
    }
}

/// `HASH IDENT` (id selector) or `DOT IDENT` (class selector): the name.
pub open spec fn prefixed_name_at(s: Seq<char>, p: int, prefix: TokenType) -> Parsed<Seq<char>> {
    match consume_at(s, p, prefix) {
        Ok(q) => identifier_at(s, q),
        Err(e) => Err(e),
    }
}

/// `~= | |= | ^= | $= | *= | =`
pub open spec fn attribute_matcher_at(s: Seq<char>, p: int) -> Parsed<AttributeMatcher> {
    match next_tok(s, p) {
        Lex::End => Err(ParseErrorV::UnexpectedEndOfInput { expected: TokenType::RBracket }),
        Lex::Tok(k, _, _) => match matcher_of(k) {
            Some(m) => match consume_at(s, p, k) {
                Ok(q) => Ok((m, q)),
                Err(e) => Err(e),
            },
            None => Err(ParseErrorV::UnexpectedSelectorToken { found: k }),
        },
        Lex::Bad(q) => Err(ParseErrorV::UnrecognizedInput { position: q }),
    }
}

/// A string token's text without its outer quotes; a text too short to
/// hold two quotes leaves nothing.
pub open spec fn strip_quotes(t: Seq<char>) -> Seq<char> {
    if t.len() >= 2 {
        t.subrange(1, t.len() - 1)
    } else {
        Seq::empty()
    }
}

/// `STRING`, as its contents.
pub open spec fn string_at(s: Seq<char>, p: int) -> Parsed<Seq<char>> {
    match consume_at(s, p, TokenType::String) {
        Ok(q) => Ok((strip_quotes(token_text(s, p)), q)),
        Err(e) => Err(e),
    }
}

/// The end of an attribute selector after its value: `IDENT? RBRACKET`.
pub open spec fn attribute_flag_at(s: Seq<char>, p: int) -> Parsed<Option<Seq<char>>> {
    if peek_kind(s, p) == Some(TokenType::RBracket) {
        match consume_at(s, p, TokenType::RBracket) {
            Ok(q) => Ok((None, q)),
            Err(e) => Err(e),
        }
    } else {
        match identifier_at(s, p) {
            Ok((f, q)) => match consume_at(s, q, TokenType::RBracket) {
                Ok(r) => Ok((Some(f), r)),
                Err(e) => Err(e),
            },
            Err(e) => Err(e),
        }
    }
}

/// `LBRACKET IDENT [AttributeMatcher STRING IDENT?]? RBRACKET`
pub open spec fn attribute_selector_at(s: Seq<char>, p: int) -> Parsed<AttributeV> {
    match consume_at(s, p, TokenType::LBracket) {
        Err(e) => Err(e),
        Ok(p1) => match identifier_at(s, p1) {
            Err(e) => Err(e),
            Ok((name, p2)) => if peek_kind(s, p2) == Some(TokenType::RBracket) {
                match consume_at(s, p2, TokenType::RBracket) {
                    Ok(p3) => Ok(
                        (AttributeV { name, matcher: None, value: None, flag: None }, p3),
                    ),
                    Err(e) => Err(e),
                }
            } else {
                match attribute_matcher_at(s, p2) {
                    Err(e) => Err(e),
                    Ok((m, p3)) => match string_at(s, p3) {
                        Err(e) => Err(e),
                        Ok((v, p4)) => match attribute_flag_at(s, p4) {
                            Err(e) => Err(e),
                            Ok((flag, p5)) => Ok(
                                (AttributeV { name, matcher: Some(m), value: Some(v), flag }, p5),
                            ),
                        },
                    },
                }
            },
        },
    }
}

/// `IdSelector | ClassSelector | AttributeSelector | TypeSelector`, chosen
/// by the lookahead's kind.
pub open spec fn selector_at(s: Seq<char>, p: int) -> Parsed<SelectorV> {
    match next_tok(s, p) {
        Lex::End => Err(ParseErrorV::UnexpectedEndOfInput { expected: TokenType::LCurly }),
        Lex::Tok(k, _, _) => match k {
            TokenType::Hash => match prefixed_name_at(s, p, TokenType::Hash) {
                Ok((n, q)) => Ok((SelectorV::Id(n), q)),
                Err(e) => Err(e),
            },
            TokenType::Dot => match prefixed_name_at(s, p, TokenType::Dot) {
                Ok((n, q)) => Ok((SelectorV::Class(n), q)),
                Err(e) => Err(e),
            },
            TokenType::LBracket => match attribute_selector_at(s, p) {
                Ok((a, q)) => Ok((SelectorV::Attribute(a), q)),
                Err(e) => Err(e),
            },
            TokenType::Ident => match identifier_at(s, p) {
                Ok((n, q)) => Ok((SelectorV::Type(n), q)),
                Err(e) => Err(e),
            },
            _ => Err(ParseErrorV::UnexpectedSelectorToken { found: k }),
        },
        Lex::Bad(q) => Err(ParseErrorV::UnrecognizedInput { position: q }),
    }
}

/// `Selector*`, up to the lookahead `{`.
pub open spec fn selector_list_at(s: Seq<char>, p: int) -> Parsed<Seq<SelectorV>>
    decreases s.len() - p,
    via selector_list_at_decreases
{
    if peek_kind(s, p) == Some(TokenType::LCurly) {
        Ok((Seq::empty(), p))
    } else {
        match selector_at(s, p) {
            Err(e) => Err(e),
            Ok((sel, q)) => match selector_list_at(s, q) {
                Ok((rest, r)) => Ok((seq![sel] + rest, r)),
                Err(e) => Err(e),
            },
        }
    }
}

/// `NUMBER IDENT?`: the number's text and the unit, if any.
pub open spec fn dimension_at(s: Seq<char>, p: int) -> Parsed<(Seq<char>, Option<Seq<char>>)> {
    match consume_at(s, p, TokenType::Number) {
        Err(e) => Err(e),
        Ok(q) => if peek_kind(s, q) == Some(TokenType::Ident) {
            match identifier_at(s, q) {
                Ok((unit, r)) => Ok(((token_text(s, p), Some(unit)), r)),
                Err(e) => Err(e),
            }
        } else {
            Ok(((token_text(s, p), None), q))
        },
    }
}

/// `Identifier | Dimension`: an identifier where the lookahead is one,
/// a dimension otherwise.
pub open spec fn value_at(s: Seq<char>, p: int) -> Parsed<ValueV> {
    if peek_kind(s, p) == Some(TokenType::Ident) {
        match identifier_at(s, p) {
            Ok((n, q)) => Ok((ValueV::Identifier(n), q)),
            Err(e) => Err(e),
        }
    } else {
        match dimension_at(s, p) {
            Ok(((n, unit), q)) => Ok((ValueV::Dimension(n, unit), q)),
            Err(e) => Err(e),
        }
    }
}

/// Whether the lookahead at `p` ends a value list: `;` or `!important`.
pub open spec fn ends_values(s: Seq<char>, p: int) -> bool {
    peek_kind(s, p) == Some(TokenType::Semicolon) || peek_kind(s, p) == Some(
        TokenType::Important,
    )
}

/// `Value*`, up to the lookahead `;` or `!important`.
pub open spec fn value_list_at(s: Seq<char>, p: int) -> Parsed<Seq<ValueV>>
    decreases s.len() - p,
    via value_list_at_decreases
{
    if ends_values(s, p) {
        Ok((Seq::empty(), p))
    } else {
        match value_at(s, p) {
            Err(e) => Err(e),
            Ok((v, q)) => match value_list_at(s, q) {
                Ok((rest, r)) => Ok((seq![v] + rest, r)),
                Err(e) => Err(e),
            },
        }
    }
}

/// `IDENT COLON ValueList IMPORTANT? SEMICOLON`
pub open spec fn declaration_at(s: Seq<char>, p: int) -> Parsed<DeclarationV> {
    match consume_at(s, p, TokenType::Ident) {
        Err(e) => Err(e),
        Ok(p1) => match consume_at(s, p1, TokenType::Colon) {
            Err(e) => Err(e),
            Ok(p2) => match value_list_at(s, p2) {
                Err(e) => Err(e),
                Ok((values, p3)) => {
                    let important = peek_kind(s, p3) == Some(TokenType::Important);
                    let p4 = if important {
                        consume_at(s, p3, TokenType::Important)
                    } else {
                        Ok(p3)
                    };
                    match p4 {
                        Err(e) => Err(e),
                        Ok(p4) => match consume_at(s, p4, TokenType::Semicolon) {
                            Err(e) => Err(e),
                            Ok(p5) => Ok(
                                (
                                    DeclarationV {
                                        property: token_text(s, p),
                                        value: values,
                                        important,
                                    },
                                    p5,
                                ),
                            ),
                        },
                    }
                },
            },
        },
    }
}

/// `Declaration*`, up to the lookahead `}`.
pub open spec fn declaration_list_at(s: Seq<char>, p: int) -> Parsed<Seq<DeclarationV>>
    decreases s.len() - p,
    via declaration_list_at_decreases
{
    if peek_kind(s, p) == Some(TokenType::RCurly) {
        Ok((Seq::empty(), p))
    } else {
        match declaration_at(s, p) {
            Err(e) => Err(e),
            Ok((d, q)) => match declaration_list_at(s, q) {
                Ok((rest, r)) => Ok((seq![d] + rest, r)),
                Err(e) => Err(e),
            },
        }
    }
}

/// `LCURLY DeclarationList? RCURLY`: an empty block has no children, any
/// other holds one declaration list.
pub open spec fn block_at(s: Seq<char>, p: int) -> Parsed<Seq<BlockChildV>> {
    match consume_at(s, p, TokenType::LCurly) {
        Err(e) => Err(e),
        Ok(p1) => if peek_kind(s, p1) == Some(TokenType::RCurly) {
            match consume_at(s, p1, TokenType::RCurly) {
                Ok(p2) => Ok((Seq::empty(), p2)),
                Err(e) => Err(e),
            }
        } else {
            match declaration_list_at(s, p1) {
                Err(e) => Err(e),
                Ok((ds, p2)) => match consume_at(s, p2, TokenType::RCurly) {
                    Ok(p3) => Ok((seq![BlockChildV::DeclarationList(ds)], p3)),
                    Err(e) => Err(e),
                },
            }
        },
    }
}

/// `SelectorList Block`
pub open spec fn rule_at(s: Seq<char>, p: int) -> Parsed<RuleV> {
    match selector_list_at(s, p) {
        Err(e) => Err(e),
        Ok((sels, p1)) => match block_at(s, p1) {
            Ok((b, p2)) => Ok((RuleV { selectors: sels, block: b }, p2)),
            Err(e) => Err(e),
        },
    }
}

/// Whether the rule list goes on at `p`: a token is there and it does not
/// close a block.
pub open spec fn more_rules(s: Seq<char>, p: int) -> bool {
    peek_kind(s, p) is Some && peek_kind(s, p) != Some(TokenType::RCurly)
}

/// `Rule*`, while a lookahead exists that does not close a block.
pub open spec fn rules_list_at(s: Seq<char>, p: int) -> Parsed<Seq<StyleSheetRuleV>>
    decreases s.len() - p,
    via rules_list_at_decreases
{
    if !more_rules(s, p) {
        Ok((Seq::empty(), p))
    } else {
        match rule_at(s, p) {
            Err(e) => Err(e),
            Ok((r, q)) => match rules_list_at(s, q) {
                Ok((rest, t)) => Ok((seq![StyleSheetRuleV::Rule(r)] + rest, t)),
                Err(e) => Err(e),
            },
        }
    }
}

/// The style sheet that `s` parses to, or the error that ends the parse.
pub open spec fn parse_spec(s: Seq<char>) -> Result<Seq<StyleSheetRuleV>, ParseErrorV> {
    match next_tok(s, 0) {
        Lex::Bad(q) => Err(ParseErrorV::UnrecognizedInput { position: q }),
        _ => match rules_list_at(s, 0) {
            Ok((rules, _)) => Ok(rules),
            Err(e) => Err(e),
        },
    }
}

// ---------------------------------------------------------------------------
// Every production moves forward
// ---------------------------------------------------------------------------
/// Whether a production's outcome, applied at `p`, lies within `(p, len]`
/// (`strict`) or `[p, len]`.
pub open spec fn advances<T>(r: Parsed<T>, s: Seq<char>, p: int, strict: bool) -> bool {
    match r {
        Ok((_, q)) => (if strict {
            p < q
        } else {
            p <= q
        }) && q <= s.len(),
        Err(_) => true,
    }
}

pub proof fn lemma_consume_advances(s: Seq<char>, p: int, k: TokenType)
    requires
        0 <= p,
    ensures
        consume_at(s, p, k) is Ok ==> p < consume_at(s, p, k)->Ok_0 <= s.len(),
{
    lemma_next_tok_bounds(s, p);
}

pub proof fn lemma_identifier_advances(s: Seq<char>, p: int)
    requires
        0 <= p,
    ensures
        advances(identifier_at(s, p), s, p, true),
{
    lemma_consume_advances(s, p, TokenType::Ident);
}

pub proof fn lemma_attribute_selector_advances(s: Seq<char>, p: int)
    requires
        0 <= p,
    ensures
        advances(attribute_selector_at(s, p), s, p, true),
{
    lemma_consume_advances(s, p, TokenType::LBracket);
    if let Ok(p1) = consume_at(s, p, TokenType::LBracket) {
        lemma_identifier_advances(s, p1);
        if let Ok((_, p2)) = identifier_at(s, p1) {
            lemma_consume_advances(s, p2, TokenType::RBracket);
            lemma_next_tok_bounds(s, p2);
            if let Lex::Tok(k, _, _) = next_tok(s, p2) {
                lemma_consume_advances(s, p2, k);
            }
            if let Ok((_, p3)) = attribute_matcher_at(s, p2) {
                lemma_consume_advances(s, p3, TokenType::String);
                if let Ok((_, p4)) = string_at(s, p3) {
                    lemma_consume_advances(s, p4, TokenType::RBracket);
                    lemma_identifier_advances(s, p4);
                    if let Ok((_, p5)) = identifier_at(s, p4) {
                        lemma_consume_advances(s, p5, TokenType::RBracket);
                    }
                }
            }
        }
    }
}

pub proof fn lemma_selector_advances(s: Seq<char>, p: int)
    requires
        0 <= p,
    ensures
        advances(selector_at(s, p), s, p, true),
{
    lemma_identifier_advances(s, p);
    lemma_attribute_selector_advances(s, p);
    lemma_consume_advances(s, p, TokenType::Hash);
    lemma_consume_advances(s, p, TokenType::Dot);
    if let Ok(q) = consume_at(s, p, TokenType::Hash) {
        lemma_identifier_advances(s, q);
    }
    if let Ok(q) = consume_at(s, p, TokenType::Dot) {
        lemma_identifier_advances(s, q);
    }
}

#[via_fn]
proof fn selector_list_at_decreases(s: Seq<char>, p: int) {
    if 0 <= p {
        lemma_selector_advances(s, p);
    }
}

pub proof fn lemma_selector_list_advances(s: Seq<char>, p: int)
    requires
        0 <= p <= s.len(),
    ensures
        advances(selector_list_at(s, p), s, p, false),
    decreases s.len() - p,
{
    lemma_selector_advances(s, p);
    if peek_kind(s, p) != Some(TokenType::LCurly) {
        if let Ok((_, q)) = selector_at(s, p) {
            lemma_selector_list_advances(s, q);
        }
    }
}

pub proof fn lemma_value_advances(s: Seq<char>, p: int)
    requires
        0 <= p,
    ensures
        advances(value_at(s, p), s, p, true),
{
    lemma_identifier_advances(s, p);
    lemma_consume_advances(s, p, TokenType::Number);
    if let Ok(q) = consume_at(s, p, TokenType::Number) {
        lemma_identifier_advances(s, q);
    }
}

#[via_fn]
proof fn value_list_at_decreases(s: Seq<char>, p: int) {
    if 0 <= p {
        lemma_value_advances(s, p);
    }
}

pub proof fn lemma_value_list_advances(s: Seq<char>, p: int)
    requires
        0 <= p <= s.len(),
    ensures
        advances(value_list_at(s, p), s, p, false),
    decreases s.len() - p,
{
    lemma_value_advances(s, p);
    if !ends_values(s, p) {
        if let Ok((_, q)) = value_at(s, p) {
            lemma_value_list_advances(s, q);
        }
    }
}

pub proof fn lemma_declaration_advances(s: Seq<char>, p: int)
    requires
        0 <= p,
    ensures
        advances(declaration_at(s, p), s, p, true),
{
    lemma_consume_advances(s, p, TokenType::Ident);
    if let Ok(p1) = consume_at(s, p, TokenType::Ident) {
        lemma_consume_advances(s, p1, TokenType::Colon);
        if let Ok(p2) = consume_at(s, p1, TokenType::Colon) {
            lemma_value_list_advances(s, p2);
            if let Ok((_, p3)) = value_list_at(s, p2) {
                lemma_consume_advances(s, p3, TokenType::Important);
                lemma_consume_advances(s, p3, TokenType::Semicolon);
                if let Ok(p4) = consume_at(s, p3, TokenType::Important) {
                    lemma_consume_advances(s, p4, TokenType::Semicolon);
                }
            }
        }
    }
}

#[via_fn]
proof fn declaration_list_at_decreases(s: Seq<char>, p: int) {
    if 0 <= p {
        lemma_declaration_advances(s, p);
    }
}

pub proof fn lemma_declaration_list_advances(s: Seq<char>, p: int)
    requires
        0 <= p <= s.len(),
    ensures
        advances(declaration_list_at(s, p), s, p, false),
    decreases s.len() - p,
{
    lemma_declaration_advances(s, p);
    if peek_kind(s, p) != Some(TokenType::RCurly) {
        if let Ok((_, q)) = declaration_at(s, p) {
            lemma_declaration_list_advances(s, q);
        }
    }
}

pub proof fn lemma_rule_advances(s: Seq<char>, p: int)
    requires
        0 <= p <= s.len(),
    ensures
        advances(rule_at(s, p), s, p, true),
{
    lemma_selector_list_advances(s, p);
    if let Ok((_, p1)) = selector_list_at(s, p) {
        lemma_consume_advances(s, p1, TokenType::LCurly);
        if let Ok(p2) = consume_at(s, p1, TokenType::LCurly) {
            lemma_consume_advances(s, p2, TokenType::RCurly);
            lemma_declaration_list_advances(s, p2);
            if let Ok((_, p3)) = declaration_list_at(s, p2) {
                lemma_consume_advances(s, p3, TokenType::RCurly);
            }
        }
    }
}

#[via_fn]
proof fn rules_list_at_decreases(s: Seq<char>, p: int) {
    if 0 <= p {
        lemma_next_tok_bounds(s, p);
        if p <= s.len() {
            lemma_rule_advances(s, p);
        }
    }
}

} // verus!
