use vstd::prelude::*;
use vstd::string::StrSliceExecFns;
use vstd::std_specs::iter::IteratorSpec;
use vstd::string::StringExecFns;

use crate::error::{ParseError, ParseErrorV};
use crate::tokens::{Token, TokenType};

verus! {

// ---------------------------------------------------------------------------
// Character classes of the lexical patterns
// ---------------------------------------------------------------------------
/// Classes of characters that a pattern takes a maximal run of.
#[derive(PartialEq, Eq, Structural, Clone, Copy)]
pub enum CharClass {
    /// `[ \t\r\n\f]`
    Space,
    /// `[0-9]`
    Digit,
    /// `[_a-zA-Z0-9-]`
    NameChar,
    /// `[^\n\r\f\\"]`, the characters allowed inside a string literal
    StringChar,
}

pub open spec fn is_digit(c: char) -> bool {
    '0' <= c && c <= '9'
}

pub open spec fn is_name_start(c: char) -> bool {
    c == '_' || ('a' <= c && c <= 'z') || ('A' <= c && c <= 'Z')
}

pub open spec fn is_quote(c: char) -> bool {
    c == '"' || c == '\''
}

pub open spec fn in_class(c: char, class: CharClass) -> bool {
    match class {
        CharClass::Space => c == ' ' || c == '\t' || c == '\r' || c == '\n' || c == '\x0C',
        CharClass::Digit => is_digit(c),
        CharClass::NameChar => is_name_start(c) || is_digit(c) || c == '-',
        CharClass::StringChar => !(c == '\n' || c == '\r' || c == '\x0C' || c == '\\' || c
            == '"'),
    }
}

/// Length of the longest run of characters of `class` starting at `i`.
pub open spec fn run_len(s: Seq<char>, i: int, class: CharClass) -> int
    decreases s.len() - i,
{
    if 0 <= i < s.len() && in_class(s[i], class) {
        1 + run_len(s, i + 1, class)
    } else {
        0
    }
}

/// The first `k >= j` where `*/` starts, or -1.
pub open spec fn comment_close(s: Seq<char>, j: int) -> int
    decreases s.len() - j,
{
    if j < 0 || j + 1 >= s.len() {
        -1
    } else if s[j] == '*' && s[j + 1] == '/' {
        j
    } else {
        comment_close(s, j + 1)
    }
}

/// The last index in `[lo, hi)` that holds a quote character, or -1.
pub open spec fn last_quote(s: Seq<char>, lo: int, hi: int) -> int
    decreases hi - lo,
{
    if hi <= lo || hi > s.len() || lo < 0 {
        -1
    } else if is_quote(s[hi - 1]) {
        hi - 1
    } else {
        last_quote(s, lo, hi - 1)
    }
}

/// Whether `lit` occurs in `s` at `i`.
pub open spec fn has_at(s: Seq<char>, i: int, lit: Seq<char>) -> bool {
    0 <= i && i + lit.len() <= s.len() && s.subrange(i, i + lit.len()) == lit
}

// ---------------------------------------------------------------------------
// The patterns, each anchored at `i`; a length of 0 means no match
// ---------------------------------------------------------------------------
/// `/\*[^*]*\*+([^/*][^*]*\*+)*\/`: from `/*` to the first `*/` after it.
pub open spec fn comment_len(s: Seq<char>, i: int) -> int {
    if 0 <= i && i + 1 < s.len() && s[i] == '/' && s[i + 1] == '*' {
        let k = comment_close(s, i + 2);
        if k >= 0 {
            k + 2 - i
        } else {
            0
        }
    } else {
        0
    }
}

/// `-?[_a-zA-Z][_a-zA-Z0-9-]*`
pub open spec fn ident_len(s: Seq<char>, i: int) -> int {
    if 0 <= i < s.len() && is_name_start(s[i]) {
        1 + run_len(s, i + 1, CharClass::NameChar)
    } else if 0 <= i && i + 1 < s.len() && s[i] == '-' && is_name_start(s[i + 1]) {
        2 + run_len(s, i + 2, CharClass::NameChar)
    } else {
        0
    }
}

/// `("|')([^\n\r\f\\"])*("|')`, matched greedily: the body takes the longest
/// run of string characters, and the literal ends at the last quote that the
/// run (or the `"` that stops it) offers.
pub open spec fn string_len(s: Seq<char>, i: int) -> int {
    if 0 <= i < s.len() && is_quote(s[i]) {
        let j = i + 1 + run_len(s, i + 1, CharClass::StringChar);
        let hi = if j < s.len() && s[j] == '"' {
            j + 1
        } else {
            j
        };
        let k = last_quote(s, i + 1, hi);
        if k >= 0 {
            k + 1 - i
        } else {
            0
        }
    } else {
        0
    }
}

/// The kind of the one-character punctuation tokens.
pub open spec fn punct_kind(c: char) -> Option<TokenType> {
    if c == '#' {
        Some(TokenType::Hash)
    } else if c == '@' {
        Some(TokenType::At)
    } else if c == '.' {
        Some(TokenType::Dot)
    } else if c == ';' {
        Some(TokenType::Semicolon)
    } else if c == '{' {
        Some(TokenType::LCurly)
    } else if c == '}' {
        Some(TokenType::RCurly)
    } else if c == '[' {
        Some(TokenType::LBracket)
    } else if c == ']' {
        Some(TokenType::RBracket)
    } else if c == ':' {
        Some(TokenType::Colon)
    } else {
        None
    }
}

/// The kind of the two-character matcher operators `~= |= ^= $= *=`,
/// by their first character.
pub open spec fn match_op_kind(c: char) -> Option<TokenType> {
    if c == '~' {
        Some(TokenType::IncludeMatch)
    } else if c == '|' {
        Some(TokenType::DashMatch)
    } else if c == '^' {
        Some(TokenType::PrefixMatch)
    } else if c == '$' {
        Some(TokenType::SuffixMatch)
    } else if c == '*' {
        Some(TokenType::SubstringMatch)
    } else {
        None
    }
}

pub open spec fn important_lit() -> Seq<char> {
    seq!['!', 'i', 'm', 'p', 'o', 'r', 't', 'a', 'n', 't']
}

/// What the first matching pattern does at a position.
pub enum Scan {
    /// Whitespace or a comment of this length: consumed, no token.
    Skip(int),
    /// A token of this kind and length.
    Tok(TokenType, int),
    /// No pattern matches.
    Fail,
}

/// The ordered pattern list, tried at `i < s.len()`: whitespace, comment,
/// number, identifier, punctuation, `!important`, string, matcher operators,
/// `=`. The first pattern that matches a non-empty prefix wins.
pub open spec fn scan_at(s: Seq<char>, i: int) -> Scan {
    if run_len(s, i, CharClass::Space) > 0 {
        Scan::Skip(run_len(s, i, CharClass::Space))
    } else if comment_len(s, i) > 0 {
        Scan::Skip(comment_len(s, i))
    } else if run_len(s, i, CharClass::Digit) > 0 {
        Scan::Tok(TokenType::Number, run_len(s, i, CharClass::Digit))
    } else if ident_len(s, i) > 0 {
        Scan::Tok(TokenType::Ident, ident_len(s, i))
    } else if 0 <= i < s.len() && punct_kind(s[i]) is Some {
        Scan::Tok(punct_kind(s[i])->0, 1)
    } else if has_at(s, i, important_lit()) {
        Scan::Tok(TokenType::Important, 10)
    } else if string_len(s, i) > 0 {
        Scan::Tok(TokenType::String, string_len(s, i))
    } else if 0 <= i && i + 1 < s.len() && match_op_kind(s[i]) is Some && s[i + 1] == '=' {
        Scan::Tok(match_op_kind(s[i])->0, 2)
    } else if 0 <= i < s.len() && s[i] == '=' {
        Scan::Tok(TokenType::Equal, 1)
    } else {
        Scan::Fail
    }
}

/// The outcome of asking the scanner for the next token from a position.
pub enum Lex {
    /// The input is exhausted.
    End,
    /// A token of this kind spans `[start, end)`.
    Tok(TokenType, int, int),
    /// Nothing matches at this position.
    Bad(int),
}

/// The next token at or after `i`, skipping whitespace and comments.
pub open spec fn next_tok(s: Seq<char>, i: int) -> Lex
    decreases s.len() - i,
{
    if i < 0 || i >= s.len() {
        Lex::End
    } else {
        match scan_at(s, i) {
            Scan::Skip(l) => if 0 < l && i + l <= s.len() {
                next_tok(s, i + l)
            } else {
                Lex::Bad(i)
            },
            Scan::Tok(k, l) => Lex::Tok(k, i, i + l),
            Scan::Fail => Lex::Bad(i),
        }
    }
}

// ---------------------------------------------------------------------------
// Bounds of the patterns
// ---------------------------------------------------------------------------
pub proof fn lemma_run_len_bounds(s: Seq<char>, i: int, class: CharClass)
    requires
        0 <= i <= s.len(),
    ensures
        0 <= run_len(s, i, class) <= s.len() - i,
        forall|j: int| i <= j < i + run_len(s, i, class) ==> in_class(#[trigger] s[j], class),
        i + run_len(s, i, class) < s.len() ==> !in_class(s[i + run_len(s, i, class)], class),
    decreases s.len() - i,
{
    if i < s.len() && in_class(s[i], class) {
        lemma_run_len_bounds(s, i + 1, class);
    }
}

pub proof fn lemma_comment_close_bounds(s: Seq<char>, j: int)
    requires
        0 <= j,
    ensures
        comment_close(s, j) == -1 || (j <= comment_close(s, j) && comment_close(s, j) + 1
            < s.len() && s[comment_close(s, j)] == '*' && s[comment_close(s, j) + 1] == '/'),
        forall|k: int|
            j <= k < (if comment_close(s, j) >= 0 {
                comment_close(s, j)
            } else {
                s.len() - 1
            }) ==> !(#[trigger] s[k] == '*' && s[k + 1] == '/'),
    decreases s.len() - j,
{
    if j + 1 < s.len() && !(s[j] == '*' && s[j + 1] == '/') {
        lemma_comment_close_bounds(s, j + 1);
    }
}

pub proof fn lemma_last_quote_bounds(s: Seq<char>, lo: int, hi: int)
    ensures
        last_quote(s, lo, hi) == -1 || (lo <= last_quote(s, lo, hi) < hi && hi <= s.len()
            && is_quote(s[last_quote(s, lo, hi)])),
        0 <= lo && hi <= s.len() ==> forall|k: int|
            (if last_quote(s, lo, hi) >= 0 {
                last_quote(s, lo, hi) + 1
            } else {
                lo
            }) <= k < hi ==> !is_quote(#[trigger] s[k]),
    decreases hi - lo,
{
    if !(hi <= lo || hi > s.len() || lo < 0) && !is_quote(s[hi - 1]) {
        lemma_last_quote_bounds(s, lo, hi - 1);
    }
}

/// Every pattern that matches at `i` covers a non-empty part of the input.
pub proof fn lemma_scan_bounds(s: Seq<char>, i: int)
    requires
        0 <= i < s.len(),
    ensures
        match scan_at(s, i) {
            Scan::Skip(l) => 0 < l && i + l <= s.len(),
            Scan::Tok(_, l) => 0 < l && i + l <= s.len(),
            Scan::Fail => true,
        },
{
    lemma_run_len_bounds(s, i, CharClass::Space);
    lemma_run_len_bounds(s, i, CharClass::Digit);
    lemma_run_len_bounds(s, i + 1, CharClass::NameChar);
    if i + 2 <= s.len() {
        lemma_run_len_bounds(s, i + 2, CharClass::NameChar);
        lemma_comment_close_bounds(s, i + 2);
    }
    lemma_run_len_bounds(s, i + 1, CharClass::StringChar);
    let j = i + 1 + run_len(s, i + 1, CharClass::StringChar);
    let hi = if j < s.len() && s[j] == '"' {
        j + 1
    } else {
        j
    };
    lemma_last_quote_bounds(s, i + 1, hi);
}

/// A token found from `i` lies at or after `i` and is non-empty.
pub proof fn lemma_next_tok_bounds(s: Seq<char>, i: int)
    requires
        0 <= i,
    ensures
        match next_tok(s, i) {
            Lex::End => true,
            Lex::Tok(_, st, e) => i <= st < e <= s.len(),
            Lex::Bad(q) => i <= q < s.len(),
        },
    decreases s.len() - i,
{
    if i < s.len() {
        lemma_scan_bounds(s, i);
        if let Scan::Skip(l) = scan_at(s, i) {
            lemma_next_tok_bounds(s, i + l);
        }
    }
}

} // verus!

verus! {

/// Whether `c` belongs to `class`.
fn char_in_class(c: char, class: CharClass) -> (b: bool)
    ensures
        b == in_class(c, class),
{
    match class {
        CharClass::Space => c == ' ' || c == '\t' || c == '\r' || c == '\n' || c == '\x0C',
        CharClass::Digit => '0' <= c && c <= '9',
        CharClass::NameChar => c == '_' || ('a' <= c && c <= 'z') || ('A' <= c && c <= 'Z') || (
        '0' <= c && c <= '9') || c == '-',
        CharClass::StringChar => !(c == '\n' || c == '\r' || c == '\x0C' || c == '\\' || c
            == '"'),
    }
}

fn char_is_name_start(c: char) -> (b: bool)
    ensures
        b == is_name_start(c),
{
    c == '_' || ('a' <= c && c <= 'z') || ('A' <= c && c <= 'Z')
}

fn char_is_quote(c: char) -> (b: bool)
    ensures
        b == is_quote(c),
{
    c == '"' || c == '\''
}

fn punct(c: char) -> (r: Option<TokenType>)
    ensures
        r == punct_kind(c),
{
    if c == '#' {
        Some(TokenType::Hash)
    } else if c == '@' {
        Some(TokenType::At)
    } else if c == '.' {
        Some(TokenType::Dot)
    } else if c == ';' {
        Some(TokenType::Semicolon)
    } else if c == '{' {
        Some(TokenType::LCurly)
    } else if c == '}' {
        Some(TokenType::RCurly)
    } else if c == '[' {
        Some(TokenType::LBracket)
    } else if c == ']' {
        Some(TokenType::RBracket)
    } else if c == ':' {
        Some(TokenType::Colon)
    } else {
        None
    }
}

fn match_op(c: char) -> (r: Option<TokenType>)
    ensures
        r == match_op_kind(c),
{
    if c == '~' {
        Some(TokenType::IncludeMatch)
    } else if c == '|' {
        Some(TokenType::DashMatch)
    } else if c == '^' {
        Some(TokenType::PrefixMatch)
    } else if c == '$' {
        Some(TokenType::SuffixMatch)
    } else if c == '*' {
        Some(TokenType::SubstringMatch)
    } else {
        None
    }
}

/// The scanner: the source text and a cursor (a character offset) into it.
pub struct Tokenizer {
    pub source: String,
    pub chars: Vec<char>,
    pub cursor: usize,
}

impl Tokenizer {
    /// The source, as characters.
    pub open spec fn src(&self) -> Seq<char> {
        self.chars@
    }

    pub open spec fn wf(&self) -> bool {
        &&& self.chars@ == self.source@
        &&& self.cursor <= self.chars.len()
    }

    /// A scanner over the empty text.
    pub fn new() -> (r: Tokenizer)
        ensures
            r.wf(),
            r.src() == Seq::<char>::empty(),
            r.cursor == 0,
    {
        Tokenizer { source: String::new(), chars: Vec::new(), cursor: 0 }
    }

    /// Restarts the scan from the beginning of `source`.
    pub fn init(&mut self, source: &str)
        ensures
            final(self).wf(),
            final(self).src() == source@,
            final(self).cursor == 0,
    {
        broadcast use vstd::string::group_string_axioms;

        let mut it = source.chars();
        let mut chars: Vec<char> = Vec::new();
        loop
            invariant
                chars@ + it.remaining() == source@,
            ensures
                chars@ == source@,
            decreases source@.len() - chars@.len(),
        {
            match it.next() {
                Some(c) => {
                    chars.push(c);
                },
                None => {
                    assert(chars@ =~= source@);
                    break ;
                },
            }
        }
        self.source = <String as StringExecFns>::from_str(source);
        self.chars = chars;
        self.cursor = 0;
    }

    /// Length of the run of `class` characters at `i`.
    fn run_length(&self, i: usize, class: CharClass) -> (n: usize)
        requires
            self.wf(),
            i <= self.chars.len(),
        ensures
            n == run_len(self.src(), i as int, class),
    {
        let mut j = i;
        while j < self.chars.len() && char_in_class(self.chars[j], class)
            invariant
                self.wf(),
                i <= j <= self.chars.len(),
                run_len(self.src(), i as int, class) == (j - i) + run_len(
                    self.src(),
                    j as int,
                    class,
                ),
            decreases self.chars.len() - j,
        {
            j = j + 1;
        }
        j - i
    }

    /// Length of the comment at `i`, or 0.
    fn comment_length(&self, i: usize) -> (n: usize)
        requires
            self.wf(),
            i <= self.chars.len(),
        ensures
            n == comment_len(self.src(), i as int),
    {
        let len = self.chars.len();
        if len - i >= 2 && self.chars[i] == '/' && self.chars[i + 1] == '*' {
            let mut k = i + 2;
            while len - k >= 2
                invariant
                    self.wf(),
                    len == self.chars.len(),
                    i + 2 <= k <= len,
                    self.chars@[i as int] == '/' && self.chars@[i + 1] == '*',
                    comment_close(self.src(), i + 2) == comment_close(self.src(), k as int),
                decreases len - k,
            {
                if self.chars[k] == '*' && self.chars[k + 1] == '/' {
                    return k + 2 - i;
                }
                k = k + 1;
            }
            0
        } else {
            0
        }
    }

    /// Length of the identifier at `i`, or 0.
    fn ident_length(&self, i: usize) -> (n: usize)
        requires
            self.wf(),
            i <= self.chars.len(),
        ensures
            n == ident_len(self.src(), i as int),
    {
        let len = self.chars.len();
        if i < len && char_is_name_start(self.chars[i]) {
            proof {
                lemma_run_len_bounds(self.src(), i + 1, CharClass::NameChar);
            }
            1 + self.run_length(i + 1, CharClass::NameChar)
        } else if len - i >= 2 && self.chars[i] == '-' && char_is_name_start(self.chars[i + 1]) {
            proof {
                lemma_run_len_bounds(self.src(), i + 2, CharClass::NameChar);
            }
            2 + self.run_length(i + 2, CharClass::NameChar)
        } else {
            0
        }
    }

    /// Length of the string literal at `i`, or 0.
    fn string_length(&self, i: usize) -> (n: usize)
        requires
            self.wf(),
            i <= self.chars.len(),
        ensures
            n == string_len(self.src(), i as int),
    {
        let len = self.chars.len();
        if i < len && char_is_quote(self.chars[i]) {
            proof {
                lemma_run_len_bounds(self.src(), i + 1, CharClass::StringChar);
            }
            let j = i + 1 + self.run_length(i + 1, CharClass::StringChar);
            let hi = if j < len && self.chars[j] == '"' {
                j + 1
            } else {
                j
            };
            let mut h = hi;
            while h > i + 1
                invariant
                    self.wf(),
                    i + 1 <= h <= hi <= len,
                    i < len && is_quote(self.src()[i as int]),
                    j == i + 1 + run_len(self.src(), i + 1, CharClass::StringChar),
                    hi == (if j < len && self.src()[j as int] == '"' {
                        j + 1
                    } else {
                        j as int
                    }),
                    len == self.chars.len(),
                    last_quote(self.src(), i + 1, hi as int) == last_quote(
                        self.src(),
                        i + 1,
                        h as int,
                    ),
                decreases h,
            {
                if char_is_quote(self.chars[h - 1]) {
                    return h - i;
                }
                h = h - 1;
            }
            0
        } else {
            0
        }
    }

    /// Whether `!important` stands at `i`.
    fn important_at(&self, i: usize) -> (b: bool)
        requires
            self.wf(),
            i <= self.chars.len(),
        ensures
            b == has_at(self.src(), i as int, important_lit()),
    {
        let c = &self.chars;
        if c.len() - i >= 10 && c[i] == '!' && c[i + 1] == 'i' && c[i + 2] == 'm' && c[i + 3]
            == 'p' && c[i + 4] == 'o' && c[i + 5] == 'r' && c[i + 6] == 't' && c[i + 7] == 'a'
            && c[i + 8] == 'n' && c[i + 9] == 't' {
            assert(self.src().subrange(i as int, i + 10) =~= important_lit());
            true
        } else {
            proof {
                if has_at(self.src(), i as int, important_lit()) {
                    let sub = self.src().subrange(i as int, i + 10);
                    assert(sub[0] == important_lit()[0]);
                    assert(sub[1] == important_lit()[1]);
                    assert(sub[2] == important_lit()[2]);
                    assert(sub[3] == important_lit()[3]);
                    assert(sub[4] == important_lit()[4]);
                    assert(sub[5] == important_lit()[5]);
                    assert(sub[6] == important_lit()[6]);
                    assert(sub[7] == important_lit()[7]);
                    assert(sub[8] == important_lit()[8]);
                    assert(sub[9] == important_lit()[9]);
                }
            }
            false
        }
    }

    /// Tries the ordered patterns at `i < len`: the kind of the token found
    /// (none for whitespace and comments) and its length, 0 where nothing matches.
    fn scan(&self, i: usize) -> (r: (Option<TokenType>, usize))
        requires
            self.wf(),
            i < self.chars.len(),
        ensures
            match scan_at(self.src(), i as int) {
                Scan::Skip(l) => r.0 is None && r.1 == l,
                Scan::Tok(k, l) => r.0 == Some(k) && r.1 == l,
                Scan::Fail => r.1 == 0,
            },
    {
        let len = self.chars.len();
        let space = self.run_length(i, CharClass::Space);
        if space > 0 {
            return (None, space);
        }
        let comment = self.comment_length(i);
        if comment > 0 {
            return (None, comment);
        }
        let number = self.run_length(i, CharClass::Digit);
        if number > 0 {
            return (Some(TokenType::Number), number);
        }
        let ident = self.ident_length(i);
        if ident > 0 {
            return (Some(TokenType::Ident), ident);
        }
        let p = punct(self.chars[i]);
        if p.is_some() {
            return (p, 1);
        }
        if self.important_at(i) {
            return (Some(TokenType::Important), 10);
        }
        let string = self.string_length(i);
        if string > 0 {
            return (Some(TokenType::String), string);
        }
        if len - i >= 2 && self.chars[i + 1] == '=' {
            let op = match_op(self.chars[i]);
            if op.is_some() {
                return (op, 2);
            }
        }
        if self.chars[i] == '=' {
            return (Some(TokenType::Equal), 1);
        }
        (None, 0)
    }

    /// Scans the next token from the cursor, skipping whitespace and
    /// comments; `None` once the input is exhausted.
    pub fn get_next_token(&mut self) -> (r: Result<Option<Token>, ParseError>)
        requires
            old(self).wf(),
        ensures
            final(self).wf(),
            final(self).src() == old(self).src(),
            match next_tok(old(self).src(), old(self).cursor as int) {
                Lex::End => r == Ok::<Option<Token>, ParseError>(None) && final(self).cursor
                    == final(self).chars.len(),
                Lex::Tok(k, st, e) => r is Ok && r->Ok_0 is Some && r->Ok_0->0.token_type == k
                    && r->Ok_0->0.value@ == old(self).src().subrange(st, e) && final(self).cursor
                    == e,
                Lex::Bad(q) => r is Err && r->Err_0@ == ParseErrorV::UnrecognizedInput {
                    position: q,
                },
            },
    {
        let ghost s = self.src();
        let ghost start = self.cursor as int;
        loop
            invariant
                self.wf(),
                self.src() == s,
                s == old(self).src(),
                start == old(self).cursor,
                start <= self.cursor,
                next_tok(s, start) == next_tok(s, self.cursor as int),
            decreases self.chars.len() - self.cursor,
        {
            let i = self.cursor;
            if i >= self.chars.len() {
                return Ok(None);
            }
            proof {
                lemma_scan_bounds(s, i as int);
            }
            let (kind, n) = self.scan(i);
            if n == 0 {
                return Err(ParseError::UnrecognizedInput { position: i });
            }
            self.cursor = i + n;
            match kind {
                None => {},
                Some(k) => {
                    let text = self.source.as_str().substring_char(i, i + n);
                    let value = <String as StringExecFns>::from_str(text);
                    return Ok(Some(Token::new(k, value)));
                },
            }
        }
    }

    /// The cursor: where the scan goes on from.
    pub fn cursor(&self) -> (r: usize)
        ensures
            r == self.cursor,
    {
        self.cursor
    }
}

} // verus!
