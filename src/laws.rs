//! Properties of the grammar that hold for every input.
use vstd::prelude::*;

use crate::grammar::{
    Parsed, attribute_flag_at, attribute_matcher_at, attribute_selector_at, consume_at,
    ends_values, identifier_at, lemma_consume_advances, lemma_value_advances, value_at, value_list_at,
    declaration_at, declaration_list_at, lemma_declaration_advances, lemma_rule_advances,
    lemma_selector_advances, more_rules, parse_spec, peek_kind, rule_at, rules_list_at,
    selector_at, selector_list_at, string_at, strip_quotes, token_text,
};
use crate::node::{DeclarationV, SelectorV, StyleSheetRuleV};
use crate::tokenizer::{
    CharClass, Lex, Scan, is_quote, lemma_last_quote_bounds, lemma_next_tok_bounds, lemma_run_len_bounds,
    lemma_scan_bounds, next_tok, run_len, scan_at, string_len,
};
use crate::tokens::TokenType;

verus! {

// ---------------------------------------------------------------------------
// An attribute selector has a value exactly when it has a matcher
// ---------------------------------------------------------------------------
/// A selector that is an attribute selector has a value iff it has a matcher.
pub open spec fn attribute_paired(sel: SelectorV) -> bool {
    sel is Attribute ==> (sel->Attribute_0.value is Some <==> sel->Attribute_0.matcher is Some)
}

/// Every attribute selector of every rule of `sheet` is paired.
pub open spec fn sheet_attributes_paired(sheet: Seq<StyleSheetRuleV>) -> bool {
    forall|i: int, j: int|
        0 <= i < sheet.len() && sheet[i] is Rule && 0 <= j < sheet[i]->Rule_0.selectors.len()
            ==> attribute_paired(#[trigger] sheet[i]->Rule_0.selectors[j])
}

proof fn lemma_selector_list_paired(s: Seq<char>, p: int)
    requires
        0 <= p <= s.len(),
        selector_list_at(s, p) is Ok,
    ensures
        forall|j: int|
            0 <= j < selector_list_at(s, p)->Ok_0.0.len() ==> attribute_paired(
                #[trigger] selector_list_at(s, p)->Ok_0.0[j],
            ),
    decreases s.len() - p,
{
    if peek_kind(s, p) != Some(TokenType::LCurly) {
        lemma_selector_advances(s, p);
        let (sel, q) = selector_at(s, p)->Ok_0;
        lemma_selector_list_paired(s, q);
        let all = selector_list_at(s, p)->Ok_0.0;
        let rest = selector_list_at(s, q)->Ok_0.0;
        assert forall|j: int| 0 <= j < all.len() implies attribute_paired(#[trigger] all[j]) by {
            if j > 0 {
                assert(all[j] == rest[j - 1]);
            }
        }
    }
}

proof fn lemma_rules_list_paired(s: Seq<char>, p: int)
    requires
        0 <= p <= s.len(),
        rules_list_at(s, p) is Ok,
    ensures
        sheet_attributes_paired(rules_list_at(s, p)->Ok_0.0),
    decreases s.len() - p,
{
    if more_rules(s, p) {
        lemma_rule_advances(s, p);
        let (r, q) = rule_at(s, p)->Ok_0;
        lemma_selector_list_paired(s, p);
        lemma_rules_list_paired(s, q);
        let all = rules_list_at(s, p)->Ok_0.0;
        let rest = rules_list_at(s, q)->Ok_0.0;
        assert forall|i: int, j: int|
            0 <= i < all.len() && all[i] is Rule && 0 <= j < all[i]->Rule_0.selectors.len()
                implies attribute_paired(#[trigger] all[i]->Rule_0.selectors[j]) by {
            if i > 0 {
                assert(all[i] == rest[i - 1]);
            }
        }
    }
}

/// In every parsed style sheet, each attribute selector has a value if and
/// only if it has a matcher.
pub proof fn lemma_attribute_value_iff_matcher(s: Seq<char>)
    ensures
        parse_spec(s) is Ok ==> sheet_attributes_paired(parse_spec(s)->Ok_0),
{
    if parse_spec(s) is Ok {
        lemma_rules_list_paired(s, 0);
    }
}

// ---------------------------------------------------------------------------
// Source order
// ---------------------------------------------------------------------------
/// Where the `i`-th of the declarations that follow one another from `p` starts.
pub open spec fn declaration_start(s: Seq<char>, p: int, i: nat) -> int
    decreases i,
{
    if i == 0 {
        p
    } else {
        match declaration_at(s, p) {
            Ok((_, q)) => declaration_start(s, q, (i - 1) as nat),
            Err(_) => p,
        }
    }
}

/// Where the `i`-th of the rules that follow one another from `p` starts.
pub open spec fn rule_start(s: Seq<char>, p: int, i: nat) -> int
    decreases i,
{
    if i == 0 {
        p
    } else {
        match rule_at(s, p) {
            Ok((_, q)) => rule_start(s, q, (i - 1) as nat),
            Err(_) => p,
        }
    }
}

/// The declarations of a declaration list are, in order, the declarations
/// that follow one another in the source, at strictly increasing positions.
pub proof fn lemma_declarations_in_source_order(s: Seq<char>, p: int)
    requires
        0 <= p <= s.len(),
        declaration_list_at(s, p) is Ok,
    ensures
        ({
            let (ds, r) = declaration_list_at(s, p)->Ok_0;
            &&& declaration_start(s, p, ds.len()) == r
            &&& forall|i: int|
                0 <= i < ds.len() ==> {
                    &&& declaration_at(s, #[trigger] declaration_start(s, p, i as nat)) == Ok::<
                        (DeclarationV, int),
                        crate::error::ParseErrorV,
                    >((ds[i], declaration_start(s, p, (i + 1) as nat)))
                    &&& declaration_start(s, p, i as nat) < declaration_start(
                        s,
                        p,
                        (i + 1) as nat,
                    )
                }
        }),
    decreases s.len() - p,
{
    if peek_kind(s, p) != Some(TokenType::RCurly) {
        lemma_declaration_advances(s, p);
        let (d, q) = declaration_at(s, p)->Ok_0;
        lemma_declarations_in_source_order(s, q);
        let ds = declaration_list_at(s, p)->Ok_0.0;
        let rest = declaration_list_at(s, q)->Ok_0.0;
        assert(declaration_start(s, p, ds.len()) == declaration_start(s, q, rest.len()));
        assert forall|i: int| 0 <= i < ds.len() implies {
            &&& declaration_at(s, #[trigger] declaration_start(s, p, i as nat)) == Ok::<
                (DeclarationV, int),
                crate::error::ParseErrorV,
            >((ds[i], declaration_start(s, p, (i + 1) as nat)))
            &&& declaration_start(s, p, i as nat) < declaration_start(s, p, (i + 1) as nat)
        } by {
            assert(declaration_start(s, p, (i + 1) as nat) == declaration_start(
                s,
                q,
                i as nat,
            ));
            if i > 0 {
                assert(ds[i] == rest[i - 1]);
                assert(declaration_start(s, p, i as nat) == declaration_start(
                    s,
                    q,
                    (i - 1) as nat,
                ));
            }
        }
    }
}

/// The rules of a rule list are, in order, the rules that follow one
/// another in the source, at strictly increasing positions.
pub proof fn lemma_rules_in_source_order(s: Seq<char>, p: int)
    requires
        0 <= p <= s.len(),
        rules_list_at(s, p) is Ok,
    ensures
        ({
            let (rs, r) = rules_list_at(s, p)->Ok_0;
            &&& rule_start(s, p, rs.len()) == r
            &&& forall|i: int|
                0 <= i < rs.len() ==> {
                    &&& rule_at(s, #[trigger] rule_start(s, p, i as nat)) is Ok
                    &&& rs[i] == StyleSheetRuleV::Rule(
                        rule_at(s, rule_start(s, p, i as nat))->Ok_0.0,
                    )
                    &&& rule_at(s, rule_start(s, p, i as nat))->Ok_0.1 == rule_start(
                        s,
                        p,
                        (i + 1) as nat,
                    )
                    &&& rule_start(s, p, i as nat) < rule_start(s, p, (i + 1) as nat)
                }
        }),
    decreases s.len() - p,
{
    if more_rules(s, p) {
        lemma_rule_advances(s, p);
        let (d, q) = rule_at(s, p)->Ok_0;
        lemma_rules_in_source_order(s, q);
        let rs = rules_list_at(s, p)->Ok_0.0;
        let rest = rules_list_at(s, q)->Ok_0.0;
        assert(rule_start(s, p, rs.len()) == rule_start(s, q, rest.len()));
        assert forall|i: int| 0 <= i < rs.len() implies {
            &&& rule_at(s, #[trigger] rule_start(s, p, i as nat)) is Ok
            &&& rs[i] == StyleSheetRuleV::Rule(rule_at(s, rule_start(s, p, i as nat))->Ok_0.0)
            &&& rule_at(s, rule_start(s, p, i as nat))->Ok_0.1 == rule_start(
                s,
                p,
                (i + 1) as nat,
            )
            &&& rule_start(s, p, i as nat) < rule_start(s, p, (i + 1) as nat)
        } by {
            assert(rule_start(s, p, (i + 1) as nat) == rule_start(s, q, i as nat));
            if i > 0 {
                assert(rs[i] == rest[i - 1]);
                assert(rule_start(s, p, i as nat) == rule_start(s, q, (i - 1) as nat));
            }
        }
    }
}

/// The rules of a parsed style sheet are the rules of the source, in order.
pub proof fn lemma_style_sheet_in_source_order(s: Seq<char>)
    requires
        parse_spec(s) is Ok,
    ensures
        ({
            let rs = parse_spec(s)->Ok_0;
            forall|i: int|
                0 <= i < rs.len() ==> {
                    &&& rule_at(s, #[trigger] rule_start(s, 0, i as nat)) is Ok
                    &&& rs[i] == StyleSheetRuleV::Rule(
                        rule_at(s, rule_start(s, 0, i as nat))->Ok_0.0,
                    )
                    &&& rule_start(s, 0, i as nat) < rule_start(s, 0, (i + 1) as nat)
                }
        }),
{
    lemma_rules_in_source_order(s, 0);
}

// ---------------------------------------------------------------------------
// String literals
// ---------------------------------------------------------------------------
proof fn lemma_next_tok_scans(s: Seq<char>, i: int)
    requires
        0 <= i,
    ensures
        next_tok(s, i) is Tok ==> 0 <= next_tok(s, i)->Tok_1 < s.len() && scan_at(
            s,
            next_tok(s, i)->Tok_1,
        ) == Scan::Tok(next_tok(s, i)->Tok_0, next_tok(s, i)->Tok_2 - next_tok(s, i)->Tok_1),
    decreases s.len() - i,
{
    if 0 <= i < s.len() {
        lemma_scan_bounds(s, i);
        if let Scan::Skip(l) = scan_at(s, i) {
            lemma_next_tok_scans(s, i + l);
        }
    }
}

/// A string literal's token text begins and ends with a quote and holds at
/// least the two of them; the parsed value is that text without exactly
/// these two outer characters (so `""` gives the empty string).
pub proof fn lemma_string_literal_stripped(s: Seq<char>, p: int)
    requires
        0 <= p,
        string_at(s, p) is Ok,
    ensures
        ({
            let t = token_text(s, p);
            &&& t.len() >= 2
            &&& is_quote(t[0])
            &&& is_quote(t[t.len() - 1])
            &&& string_at(s, p)->Ok_0.0 == t.subrange(1, t.len() - 1)
        }),
{
    lemma_next_tok_scans(s, p);
    lemma_next_tok_bounds(s, p);
    let st = next_tok(s, p)->Tok_1;
    let e = next_tok(s, p)->Tok_2;
    lemma_scan_bounds(s, st);
    assert(string_len(s, st) == e - st);
    lemma_run_len_bounds(s, st + 1, CharClass::StringChar);
    let j = st + 1 + run_len(s, st + 1, CharClass::StringChar);
    let hi = if j < s.len() && s[j] == '"' {
        j + 1
    } else {
        j
    };
    lemma_last_quote_bounds(s, st + 1, hi);
    let t = token_text(s, p);
    assert(t == s.subrange(st, e));
    assert(t[0] == s[st]);
    assert(t[t.len() - 1] == s[e - 1]);
}

// ---------------------------------------------------------------------------
// The important flag
// ---------------------------------------------------------------------------
/// The position after the next `n` tokens from `p`.
pub open spec fn after_tokens(s: Seq<char>, p: int, n: nat) -> int
    decreases n,
{
    if n == 0 {
        p
    } else {
        match next_tok(s, p) {
            Lex::Tok(_, _, e) => after_tokens(s, e, (n - 1) as nat),
            _ => p,
        }
    }
}

/// The kind of the token with index `n` (from 0) among those from `p`.
pub open spec fn kind_of_token(s: Seq<char>, p: int, n: nat) -> Option<TokenType> {
    peek_kind(s, after_tokens(s, p, n))
}

pub proof fn lemma_after_tokens_add(s: Seq<char>, p: int, a: nat, b: nat)
    ensures
        after_tokens(s, p, a + b) == after_tokens(s, after_tokens(s, p, a), b),
    decreases a,
{
    if a > 0 {
        if let Lex::Tok(_, _, e) = next_tok(s, p) {
            lemma_after_tokens_add(s, e, (a - 1) as nat, b);
            assert((a + b - 1) as nat == (a - 1) as nat + b);
        } else {
            if b > 0 {
                assert(after_tokens(s, p, b) == p);
            }
        }
    }
}

proof fn lemma_consume_one(s: Seq<char>, p: int, k: TokenType)
    requires
        consume_at(s, p, k) is Ok,
    ensures
        after_tokens(s, p, 1) == consume_at(s, p, k)->Ok_0,
        peek_kind(s, p) == Some(k),
{
    assert(after_tokens(s, consume_at(s, p, k)->Ok_0, 0) == consume_at(s, p, k)->Ok_0);
}

/// A value is one or two tokens, the last an identifier or a number.
proof fn lemma_value_tokens(s: Seq<char>, p: int) -> (m: nat)
    requires
        value_at(s, p) is Ok,
    ensures
        1 <= m <= 2,
        after_tokens(s, p, m) == value_at(s, p)->Ok_0.1,
        kind_of_token(s, p, (m - 1) as nat) == Some(TokenType::Ident) || kind_of_token(
            s,
            p,
            (m - 1) as nat,
        ) == Some(TokenType::Number),
{
    if peek_kind(s, p) == Some(TokenType::Ident) {
        lemma_consume_one(s, p, TokenType::Ident);
        assert(after_tokens(s, p, 0) == p);
        1
    } else {
        lemma_consume_one(s, p, TokenType::Number);
        let q = consume_at(s, p, TokenType::Number)->Ok_0;
        assert(after_tokens(s, p, 0) == p);
        if peek_kind(s, q) == Some(TokenType::Ident) {
            lemma_consume_one(s, q, TokenType::Ident);
            lemma_after_tokens_add(s, p, 1, 1);
            1 + 1
        } else {
            1
        }
    }
}

/// A value list is `m` tokens; the last, if any, is an identifier or a number.
proof fn lemma_value_list_tokens(s: Seq<char>, p: int) -> (m: nat)
    requires
        0 <= p <= s.len(),
        value_list_at(s, p) is Ok,
    ensures
        after_tokens(s, p, m) == value_list_at(s, p)->Ok_0.1,
        m > 0 ==> (kind_of_token(s, p, (m - 1) as nat) == Some(TokenType::Ident)
            || kind_of_token(s, p, (m - 1) as nat) == Some(TokenType::Number)),
    decreases s.len() - p,
{
    if ends_values(s, p) {
        0
    } else {
        lemma_value_advances(s, p);
        let q = value_at(s, p)->Ok_0.1;
        let a = lemma_value_tokens(s, p);
        let b = lemma_value_list_tokens(s, q);
        lemma_after_tokens_add(s, p, a, b);
        if b > 0 {
            lemma_after_tokens_add(s, p, a, (b - 1) as nat);
            assert((a + b - 1) as nat == a + (b - 1) as nat);
        }
        a + b
    }
}

/// A declaration is flagged important exactly when the token just before
/// its terminating `;` is `!important`.
pub proof fn lemma_important_flag(s: Seq<char>, p: int)
    requires
        0 <= p <= s.len(),
        declaration_at(s, p) is Ok,
    ensures
        ({
            let (d, q) = declaration_at(s, p)->Ok_0;
            exists|n: nat|
                {
                    &&& n >= 2
                    &&& #[trigger] kind_of_token(s, p, n) == Some(TokenType::Semicolon)
                    &&& after_tokens(s, p, n + 1) == q
                    &&& (d.important <==> kind_of_token(s, p, (n - 1) as nat) == Some(
                        TokenType::Important,
                    ))
                }
        }),
{
    let (d, q) = declaration_at(s, p)->Ok_0;
    lemma_consume_one(s, p, TokenType::Ident);
    let p1 = consume_at(s, p, TokenType::Ident)->Ok_0;
    lemma_consume_advances(s, p, TokenType::Ident);
    lemma_consume_one(s, p1, TokenType::Colon);
    let p2 = consume_at(s, p1, TokenType::Colon)->Ok_0;
    lemma_consume_advances(s, p1, TokenType::Colon);
    lemma_after_tokens_add(s, p, 1, 1);
    let m = lemma_value_list_tokens(s, p2);
    let p3 = value_list_at(s, p2)->Ok_0.1;
    lemma_after_tokens_add(s, p, 2, m);
    if d.important {
        lemma_consume_one(s, p3, TokenType::Important);
        let p4 = consume_at(s, p3, TokenType::Important)->Ok_0;
        lemma_consume_one(s, p4, TokenType::Semicolon);
        lemma_after_tokens_add(s, p, 2 + m, 1);
        lemma_after_tokens_add(s, p, 3 + m, 1);
        let n = (m + 3) as nat;
        assert(kind_of_token(s, p, (n - 1) as nat) == Some(TokenType::Important));
        assert(kind_of_token(s, p, n) == Some(TokenType::Semicolon));
    } else {
        lemma_consume_one(s, p3, TokenType::Semicolon);
        lemma_after_tokens_add(s, p, 2 + m, 1);
        let n = (m + 2) as nat;
        if m == 0 {
            assert(kind_of_token(s, p, 1) == Some(TokenType::Colon));
        } else {
            lemma_after_tokens_add(s, p, 2, (m - 1) as nat);
            assert((n - 1) as nat == 2 + (m - 1) as nat);
        }
        assert(kind_of_token(s, p, (n - 1) as nat) != Some(TokenType::Important));
        assert(kind_of_token(s, p, n) == Some(TokenType::Semicolon));
    }
}

// ---------------------------------------------------------------------------
// The tree depends on the token sequence alone
// ---------------------------------------------------------------------------
/// What the scanner finds at a position, without where: end of input, a
/// token's kind and text, or unrecognized input.
pub enum TokenInfo {
    End,
    Tok(TokenType, Seq<char>),
    Bad,
}

pub open spec fn token_info(s: Seq<char>, p: int) -> TokenInfo {
    match next_tok(s, p) {
        Lex::End => TokenInfo::End,
        Lex::Tok(k, st, e) => TokenInfo::Tok(k, s.subrange(st, e)),
        Lex::Bad(_) => TokenInfo::Bad,
    }
}

/// From `p1` in `s1` and from `p2` in `s2` the scanner finds the same
/// sequence of tokens, ending the same way.
pub open spec fn same_tokens(s1: Seq<char>, p1: int, s2: Seq<char>, p2: int) -> bool {
    forall|n: nat|
        #[trigger] token_info(s1, after_tokens(s1, p1, n)) == token_info(
            s2,
            after_tokens(s2, p2, n),
        )
}

/// Two outcomes of one production agree: both fail, or both give the same
/// node and leave the same tokens behind.
pub open spec fn agree<T>(r1: Parsed<T>, s1: Seq<char>, r2: Parsed<T>, s2: Seq<char>) -> bool {
    match (r1, r2) {
        (Ok((v1, q1)), Ok((v2, q2))) => v1 == v2 && same_tokens(s1, q1, s2, q2) && 0 <= q1
            <= s1.len() && 0 <= q2 <= s2.len(),
        (Err(_), Err(_)) => true,
        _ => false,
    }
}

pub open spec fn aligned(s1: Seq<char>, p1: int, s2: Seq<char>, p2: int) -> bool {
    same_tokens(s1, p1, s2, p2) && 0 <= p1 <= s1.len() && 0 <= p2 <= s2.len()
}

proof fn lemma_aligned_here(s1: Seq<char>, p1: int, s2: Seq<char>, p2: int)
    requires
        aligned(s1, p1, s2, p2),
    ensures
        token_info(s1, p1) == token_info(s2, p2),
        peek_kind(s1, p1) == peek_kind(s2, p2),
        token_text(s1, p1) == token_text(s2, p2),
{
    assert(after_tokens(s1, p1, 0) == p1);
    assert(after_tokens(s2, p2, 0) == p2);
    assert(token_info(s1, after_tokens(s1, p1, 0)) == token_info(s2, after_tokens(s2, p2, 0)));
}

proof fn lemma_consume_aligned(s1: Seq<char>, p1: int, s2: Seq<char>, p2: int, k: TokenType)
    requires
        aligned(s1, p1, s2, p2),
    ensures
        consume_at(s1, p1, k) is Ok <==> consume_at(s2, p2, k) is Ok,
        consume_at(s1, p1, k) is Ok ==> aligned(
            s1,
            consume_at(s1, p1, k)->Ok_0,
            s2,
            consume_at(s2, p2, k)->Ok_0,
        ),
{
    lemma_aligned_here(s1, p1, s2, p2);
    lemma_next_tok_bounds(s1, p1);
    lemma_next_tok_bounds(s2, p2);
    if let Lex::Tok(k1, _, e1) = next_tok(s1, p1) {
        let e2 = next_tok(s2, p2)->Tok_2;
        assert forall|n: nat|
            #[trigger] token_info(s1, after_tokens(s1, e1, n)) == token_info(
                s2,
                after_tokens(s2, e2, n),
            ) by {
            assert(token_info(s1, after_tokens(s1, p1, n + 1)) == token_info(
                s2,
                after_tokens(s2, p2, n + 1),
            ));
        }
        assert(after_tokens(s1, e1, 0) == e1);
        assert(after_tokens(s2, e2, 0) == e2);
        assert(token_info(s1, after_tokens(s1, e1, 0)) == token_info(s2, after_tokens(s2, e2, 0)));
    }
}

proof fn lemma_identifier_aligned(s1: Seq<char>, p1: int, s2: Seq<char>, p2: int)
    requires
        aligned(s1, p1, s2, p2),
    ensures
        agree(identifier_at(s1, p1), s1, identifier_at(s2, p2), s2),
{
    lemma_aligned_here(s1, p1, s2, p2);
    lemma_consume_aligned(s1, p1, s2, p2, TokenType::Ident);
}

proof fn lemma_string_aligned(s1: Seq<char>, p1: int, s2: Seq<char>, p2: int)
    requires
        aligned(s1, p1, s2, p2),
    ensures
        agree(string_at(s1, p1), s1, string_at(s2, p2), s2),
{
    lemma_aligned_here(s1, p1, s2, p2);
    lemma_consume_aligned(s1, p1, s2, p2, TokenType::String);
}

proof fn lemma_attribute_matcher_aligned(s1: Seq<char>, p1: int, s2: Seq<char>, p2: int)
    requires
        aligned(s1, p1, s2, p2),
    ensures
        agree(attribute_matcher_at(s1, p1), s1, attribute_matcher_at(s2, p2), s2),
{
    lemma_aligned_here(s1, p1, s2, p2);
    if let Some(k) = peek_kind(s1, p1) {
        lemma_consume_aligned(s1, p1, s2, p2, k);
    }
}

proof fn lemma_attribute_flag_aligned(s1: Seq<char>, p1: int, s2: Seq<char>, p2: int)
    requires
        aligned(s1, p1, s2, p2),
    ensures
        agree(attribute_flag_at(s1, p1), s1, attribute_flag_at(s2, p2), s2),
{
    lemma_aligned_here(s1, p1, s2, p2);
    lemma_consume_aligned(s1, p1, s2, p2, TokenType::RBracket);
    lemma_identifier_aligned(s1, p1, s2, p2);
    if let Ok((_, q1)) = identifier_at(s1, p1) {
        let q2 = identifier_at(s2, p2)->Ok_0.1;
        lemma_consume_aligned(s1, q1, s2, q2, TokenType::RBracket);
    }
}

proof fn lemma_attribute_selector_aligned(s1: Seq<char>, p1: int, s2: Seq<char>, p2: int)
    requires
        aligned(s1, p1, s2, p2),
    ensures
        agree(attribute_selector_at(s1, p1), s1, attribute_selector_at(s2, p2), s2),
{
    lemma_consume_aligned(s1, p1, s2, p2, TokenType::LBracket);
    if let Ok(a1) = consume_at(s1, p1, TokenType::LBracket) {
        let a2 = consume_at(s2, p2, TokenType::LBracket)->Ok_0;
        lemma_identifier_aligned(s1, a1, s2, a2);
        if let Ok((_, b1)) = identifier_at(s1, a1) {
            let b2 = identifier_at(s2, a2)->Ok_0.1;
            lemma_aligned_here(s1, b1, s2, b2);
            lemma_consume_aligned(s1, b1, s2, b2, TokenType::RBracket);
            lemma_attribute_matcher_aligned(s1, b1, s2, b2);
            if let Ok((_, c1)) = attribute_matcher_at(s1, b1) {
                let c2 = attribute_matcher_at(s2, b2)->Ok_0.1;
                lemma_string_aligned(s1, c1, s2, c2);
                if let Ok((_, d1)) = string_at(s1, c1) {
                    let d2 = string_at(s2, c2)->Ok_0.1;
                    lemma_attribute_flag_aligned(s1, d1, s2, d2);
                }
            }
        }
    }
}

proof fn lemma_selector_aligned(s1: Seq<char>, p1: int, s2: Seq<char>, p2: int)
    requires
        aligned(s1, p1, s2, p2),
    ensures
        agree(selector_at(s1, p1), s1, selector_at(s2, p2), s2),
{
    lemma_aligned_here(s1, p1, s2, p2);
    lemma_identifier_aligned(s1, p1, s2, p2);
    lemma_attribute_selector_aligned(s1, p1, s2, p2);
    lemma_consume_aligned(s1, p1, s2, p2, TokenType::Hash);
    lemma_consume_aligned(s1, p1, s2, p2, TokenType::Dot);
    if let Ok(q1) = consume_at(s1, p1, TokenType::Hash) {
        lemma_identifier_aligned(s1, q1, s2, consume_at(s2, p2, TokenType::Hash)->Ok_0);
    }
    if let Ok(q1) = consume_at(s1, p1, TokenType::Dot) {
        lemma_identifier_aligned(s1, q1, s2, consume_at(s2, p2, TokenType::Dot)->Ok_0);
    }
}

proof fn lemma_selector_list_aligned(s1: Seq<char>, p1: int, s2: Seq<char>, p2: int)
    requires
        aligned(s1, p1, s2, p2),
    ensures
        agree(selector_list_at(s1, p1), s1, selector_list_at(s2, p2), s2),
    decreases s1.len() - p1,
{
    lemma_aligned_here(s1, p1, s2, p2);
    if peek_kind(s1, p1) != Some(TokenType::LCurly) {
        lemma_selector_aligned(s1, p1, s2, p2);
        lemma_selector_advances(s1, p1);
        if let Ok((_, q1)) = selector_at(s1, p1) {
            lemma_selector_list_aligned(s1, q1, s2, selector_at(s2, p2)->Ok_0.1);
        }
    }
}

proof fn lemma_value_aligned(s1: Seq<char>, p1: int, s2: Seq<char>, p2: int)
    requires
        aligned(s1, p1, s2, p2),
    ensures
        agree(value_at(s1, p1), s1, value_at(s2, p2), s2),
{
    lemma_aligned_here(s1, p1, s2, p2);
    lemma_identifier_aligned(s1, p1, s2, p2);
    lemma_consume_aligned(s1, p1, s2, p2, TokenType::Number);
    if let Ok(q1) = consume_at(s1, p1, TokenType::Number) {
        let q2 = consume_at(s2, p2, TokenType::Number)->Ok_0;
        lemma_aligned_here(s1, q1, s2, q2);
        lemma_identifier_aligned(s1, q1, s2, q2);
    }
}

proof fn lemma_value_list_aligned(s1: Seq<char>, p1: int, s2: Seq<char>, p2: int)
    requires
        aligned(s1, p1, s2, p2),
    ensures
        agree(value_list_at(s1, p1), s1, value_list_at(s2, p2), s2),
    decreases s1.len() - p1,
{
    lemma_aligned_here(s1, p1, s2, p2);
    if !ends_values(s1, p1) {
        lemma_value_aligned(s1, p1, s2, p2);
        lemma_value_advances(s1, p1);
        if let Ok((_, q1)) = value_at(s1, p1) {
            lemma_value_list_aligned(s1, q1, s2, value_at(s2, p2)->Ok_0.1);
        }
    }
}

proof fn lemma_declaration_aligned(s1: Seq<char>, p1: int, s2: Seq<char>, p2: int)
    requires
        aligned(s1, p1, s2, p2),
    ensures
        agree(declaration_at(s1, p1), s1, declaration_at(s2, p2), s2),
{
    lemma_aligned_here(s1, p1, s2, p2);
    lemma_consume_aligned(s1, p1, s2, p2, TokenType::Ident);
    if let Ok(a1) = consume_at(s1, p1, TokenType::Ident) {
        let a2 = consume_at(s2, p2, TokenType::Ident)->Ok_0;
        lemma_consume_aligned(s1, a1, s2, a2, TokenType::Colon);
        if let Ok(b1) = consume_at(s1, a1, TokenType::Colon) {
            let b2 = consume_at(s2, a2, TokenType::Colon)->Ok_0;
            lemma_value_list_aligned(s1, b1, s2, b2);
            if let Ok((_, c1)) = value_list_at(s1, b1) {
                let c2 = value_list_at(s2, b2)->Ok_0.1;
                lemma_aligned_here(s1, c1, s2, c2);
                lemma_consume_aligned(s1, c1, s2, c2, TokenType::Important);
                lemma_consume_aligned(s1, c1, s2, c2, TokenType::Semicolon);
                if let Ok(d1) = consume_at(s1, c1, TokenType::Important) {
                    let d2 = consume_at(s2, c2, TokenType::Important)->Ok_0;
                    lemma_consume_aligned(s1, d1, s2, d2, TokenType::Semicolon);
                }
            }
        }
    }
}

proof fn lemma_declaration_list_aligned(s1: Seq<char>, p1: int, s2: Seq<char>, p2: int)
    requires
        aligned(s1, p1, s2, p2),
    ensures
        agree(declaration_list_at(s1, p1), s1, declaration_list_at(s2, p2), s2),
    decreases s1.len() - p1,
{
    lemma_aligned_here(s1, p1, s2, p2);
    if peek_kind(s1, p1) != Some(TokenType::RCurly) {
        lemma_declaration_aligned(s1, p1, s2, p2);
        lemma_declaration_advances(s1, p1);
        if let Ok((_, q1)) = declaration_at(s1, p1) {
            lemma_declaration_list_aligned(s1, q1, s2, declaration_at(s2, p2)->Ok_0.1);
        }
    }
}

proof fn lemma_rule_aligned(s1: Seq<char>, p1: int, s2: Seq<char>, p2: int)
    requires
        aligned(s1, p1, s2, p2),
    ensures
        agree(rule_at(s1, p1), s1, rule_at(s2, p2), s2),
{
    lemma_selector_list_aligned(s1, p1, s2, p2);
    if let Ok((_, a1)) = selector_list_at(s1, p1) {
        let a2 = selector_list_at(s2, p2)->Ok_0.1;
        lemma_consume_aligned(s1, a1, s2, a2, TokenType::LCurly);
        if let Ok(b1) = consume_at(s1, a1, TokenType::LCurly) {
            let b2 = consume_at(s2, a2, TokenType::LCurly)->Ok_0;
            lemma_aligned_here(s1, b1, s2, b2);
            lemma_consume_aligned(s1, b1, s2, b2, TokenType::RCurly);
            lemma_declaration_list_aligned(s1, b1, s2, b2);
            if let Ok((_, c1)) = declaration_list_at(s1, b1) {
                let c2 = declaration_list_at(s2, b2)->Ok_0.1;
                lemma_consume_aligned(s1, c1, s2, c2, TokenType::RCurly);
            }
        }
    }
}

proof fn lemma_rules_list_aligned(s1: Seq<char>, p1: int, s2: Seq<char>, p2: int)
    requires
        aligned(s1, p1, s2, p2),
    ensures
        agree(rules_list_at(s1, p1), s1, rules_list_at(s2, p2), s2),
    decreases s1.len() - p1,
{
    lemma_aligned_here(s1, p1, s2, p2);
    if more_rules(s1, p1) {
        lemma_rule_aligned(s1, p1, s2, p2);
        lemma_rule_advances(s1, p1);
        if let Ok((_, q1)) = rule_at(s1, p1) {
            lemma_rules_list_aligned(s1, q1, s2, rule_at(s2, p2)->Ok_0.1);
        }
    }
}

/// Two sources in which the scanner finds the same tokens (kinds and
/// texts) parse alike: both fail, or both give the same style sheet. How
/// the tokens are spaced, and what comments stand between them, does not
/// matter.
pub proof fn lemma_tree_depends_on_tokens_only(s1: Seq<char>, s2: Seq<char>)
    requires
        same_tokens(s1, 0, s2, 0),
    ensures
        parse_spec(s1) is Ok <==> parse_spec(s2) is Ok,
        parse_spec(s1) is Ok ==> parse_spec(s1) == parse_spec(s2),
{
    lemma_aligned_here(s1, 0, s2, 0);
    lemma_rules_list_aligned(s1, 0, s2, 0);
}

} // verus!
