use vstd::prelude::*;

verus! {

/// The kinds of lexical token the scanner can produce.
#[derive(PartialEq, Eq, Structural, Debug, Clone, Copy)]
pub enum TokenType {
    At,
    Hash,
    Dot,
    Number,
    String,
    CDO,
    CDC,
    Semicolon,
    Colon,
    LCurly,
    RCurly,
    LParen,
    RParen,
    LBracket,
    RBracket,
    Comment,
    /// A `~=` include-match token.
    IncludeMatch,
    /// A `|=` dash-match token.
    DashMatch,
    /// A `^=` prefix-match token.
    PrefixMatch,
    /// A `$=` suffix-match token.
    SuffixMatch,
    /// A `*=` substring-match token.
    SubstringMatch,
    Equal,
    Ident,
    Important,
}

/// A token: its kind and the exact text it was scanned from.
#[derive(PartialEq, Clone, Debug)]
pub struct Token {
    pub token_type: TokenType,
    pub value: String,
}

impl Token {
    pub fn new(token_type: TokenType, value: String) -> (r: Token)
        ensures
            r.token_type == token_type,
            r.value@ == value@,
    {
        Token { token_type, value }
    }
}

} // verus!
