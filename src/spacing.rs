//! Whitespace inserted between tokens leaves the token sequence unchanged.
use vstd::prelude::*;

use crate::grammar::parse_spec;
use crate::laws::{after_tokens, lemma_tree_depends_on_tokens_only, same_tokens, token_info};
use crate::tokenizer::{
    CharClass, Lex, Scan, comment_close, is_quote, lemma_comment_close_bounds, lemma_last_quote_bounds, comment_len, has_at, ident_len, important_lit, in_class,
    last_quote, lemma_next_tok_bounds, lemma_run_len_bounds, lemma_scan_bounds, next_tok, run_len,
    scan_at, string_len,
};

verus! {

// ---------------------------------------------------------------------------
// Scanning looks forward only
// ---------------------------------------------------------------------------
proof fn lemma_run_len_suffix(s: Seq<char>, d: int, i: int, c: CharClass)
    requires
        0 <= d <= i <= s.len(),
    ensures
        run_len(s, i, c) == run_len(s.subrange(d, s.len() as int), i - d, c),
    decreases s.len() - i,
{
    if i < s.len() && in_class(s[i], c) {
        lemma_run_len_suffix(s, d, i + 1, c);
    }
}

proof fn lemma_comment_close_suffix(s: Seq<char>, d: int, j: int)
    requires
        0 <= d <= j,
        d <= s.len(),
    ensures
        comment_close(s.subrange(d, s.len() as int), j - d) == (if comment_close(s, j) >= 0 {
            comment_close(s, j) - d
        } else {
            -1
        }),
    decreases s.len() - j,
{
    if j + 1 < s.len() && !(s[j] == '*' && s[j + 1] == '/') {
        lemma_comment_close_suffix(s, d, j + 1);
    }
}

proof fn lemma_last_quote_suffix(s: Seq<char>, d: int, lo: int, hi: int)
    requires
        0 <= d <= lo,
        hi <= s.len(),
    ensures
        last_quote(s.subrange(d, s.len() as int), lo - d, hi - d) == (if last_quote(s, lo, hi)
            >= 0 {
            last_quote(s, lo, hi) - d
        } else {
            -1
        }),
    decreases hi - lo,
{
    if hi > lo && !is_quote(s[hi - 1]) {
        lemma_last_quote_suffix(s, d, lo, hi - 1);
    }
}

proof fn lemma_scan_suffix(s: Seq<char>, d: int, i: int)
    requires
        0 <= d <= i < s.len(),
    ensures
        scan_at(s, i) == scan_at(s.subrange(d, s.len() as int), i - d),
{
    let t = s.subrange(d, s.len() as int);
    lemma_run_len_suffix(s, d, i, CharClass::Space);
    lemma_run_len_suffix(s, d, i, CharClass::Digit);
    lemma_run_len_suffix(s, d, i + 1, CharClass::NameChar);
    lemma_run_len_suffix(s, d, i + 1, CharClass::StringChar);
    if i + 2 <= s.len() {
        lemma_run_len_suffix(s, d, i + 2, CharClass::NameChar);
    }
    lemma_comment_close_suffix(s, d, i + 2);
    lemma_run_len_bounds(s, i + 1, CharClass::StringChar);
    let j = i + 1 + run_len(s, i + 1, CharClass::StringChar);
    let hi = if j < s.len() && s[j] == '"' {
        j + 1
    } else {
        j
    };
    lemma_last_quote_suffix(s, d, i + 1, hi);
    lemma_last_quote_bounds(s, i + 1, hi);
    if j < s.len() {
        assert(t[j - d] == s[j]);
    }
    assert(t[i - d] == s[i]);
    if i + 1 < s.len() {
        assert(t[i + 1 - d] == s[i + 1]);
    }
    if i + 10 <= s.len() {
        assert(s.subrange(i, i + 10) =~= t.subrange(i - d, i - d + 10));
    }
    if i + 1 < s.len() && s[i] == '/' && s[i + 1] == '*' {
        lemma_comment_close_bounds(s, i + 2);
        assert(comment_close(t, i + 2 - d) == (if comment_close(s, i + 2) >= 0 {
            comment_close(s, i + 2) - d
        } else {
            -1
        }));
    }
    assert(comment_len(s, i) == comment_len(t, i - d));
    assert(ident_len(s, i) == ident_len(t, i - d));
    let jt = (i - d) + 1 + run_len(t, i - d + 1, CharClass::StringChar);
    assert(jt == j - d);
    let hit = if jt < t.len() && t[jt] == '"' {
        jt + 1
    } else {
        jt
    };
    assert(hit == hi - d);
    assert(last_quote(t, i - d + 1, hit) == (if last_quote(s, i + 1, hi) >= 0 {
        last_quote(s, i + 1, hi) - d
    } else {
        -1
    }));
    assert(string_len(s, i) == string_len(t, i - d));
    assert(has_at(s, i, important_lit()) == has_at(t, i - d, important_lit()));
}

/// What the scanner finds from `i` in `s` it finds, shifted, from `i - d`
/// in the suffix of `s` from `d`.
pub proof fn lemma_next_tok_suffix(s: Seq<char>, d: int, i: int)
    requires
        0 <= d <= i,
        d <= s.len(),
    ensures
        match next_tok(s, i) {
            Lex::End => next_tok(s.subrange(d, s.len() as int), i - d) is End,
            Lex::Tok(k, st, e) => next_tok(s.subrange(d, s.len() as int), i - d) == Lex::Tok(
                k,
                st - d,
                e - d,
            ),
            Lex::Bad(q) => next_tok(s.subrange(d, s.len() as int), i - d) == Lex::Bad(q - d),
        },
    decreases s.len() - i,
{
    if i < s.len() {
        lemma_scan_suffix(s, d, i);
        lemma_scan_bounds(s, i);
        if let Scan::Skip(l) = scan_at(s, i) {
            lemma_next_tok_suffix(s, d, i + l);
        }
    }
}

// ---------------------------------------------------------------------------
// Before the insertion point nothing changes
// ---------------------------------------------------------------------------
/// `u` is `s` with `u[at..at + w)` inserted at `at`: text the scanner
/// skips as a whole, that holds no quote, and whose first character can
/// neither extend a number nor a name.
pub open spec fn inserted(s: Seq<char>, u: Seq<char>, at: int, w: int) -> bool {
    &&& 0 <= at <= s.len()
    &&& 0 < w
    &&& u.len() == s.len() + w
    &&& forall|m: int| 0 <= m < at ==> #[trigger] u[m] == s[m]
    &&& forall|m: int| at + w <= m < u.len() ==> #[trigger] u[m] == s[m - w]
    &&& forall|m: int| at <= m < at + w ==> !is_quote(#[trigger] u[m])
    &&& !in_class(u[at], CharClass::Digit)
    &&& !in_class(u[at], CharClass::NameChar)
    &&& next_tok(u, at) == next_tok(u, at + w)
}

/// Text that may stand between two tokens: a run of whitespace, or one
/// comment that holds no quote character.
pub open spec fn is_trivia(w: Seq<char>) -> bool {
    ||| forall|m: int| 0 <= m < w.len() ==> in_class(#[trigger] w[m], CharClass::Space)
    ||| comment_len(w, 0) == w.len() && forall|m: int|
        0 <= m < w.len() ==> !is_quote(#[trigger] w[m])
}

proof fn lemma_run_len_prefix(s: Seq<char>, u: Seq<char>, at: int, w: int, i: int, c: CharClass)
    requires
        inserted(s, u, at, w),
        0 <= i <= at,
        i + run_len(s, i, c) < at || (i + run_len(s, i, c) == at && !in_class(u[at], c)),
    ensures
        run_len(u, i, c) == run_len(s, i, c),
    decreases at - i,
{
    lemma_run_len_bounds(s, i, c);
    if i < at && in_class(s[i], c) {
        lemma_run_len_prefix(s, u, at, w, i + 1, c);
    }
}

proof fn lemma_comment_close_prefix(s: Seq<char>, u: Seq<char>, at: int, w: int, j: int)
    requires
        inserted(s, u, at, w),
        0 <= j,
        0 <= comment_close(s, j),
        comment_close(s, j) + 2 <= at,
    ensures
        comment_close(u, j) == comment_close(s, j),
    decreases s.len() - j,
{
    lemma_comment_close_bounds(s, j);
    assert(u[j] == s[j]);
    assert(u[j + 1] == s[j + 1]);
    if !(s[j] == '*' && s[j + 1] == '/') {
        lemma_comment_close_prefix(s, u, at, w, j + 1);
    }
}

proof fn lemma_last_quote_is(s: Seq<char>, lo: int, hi: int, k: int)
    requires
        0 <= lo <= k < hi <= s.len(),
        is_quote(s[k]),
        forall|m: int| k < m < hi ==> !is_quote(#[trigger] s[m]),
    ensures
        last_quote(s, lo, hi) == k,
    decreases hi - lo,
{
    if hi - 1 != k {
        lemma_last_quote_is(s, lo, hi - 1, k);
    }
}

/// A run of `c` from `lo` covers `[lo, x)` when every character there is in `c`.
proof fn lemma_run_covers(s: Seq<char>, lo: int, x: int, c: CharClass)
    requires
        0 <= lo <= x <= s.len(),
        forall|y: int| lo <= y < x ==> in_class(#[trigger] s[y], c),
    ensures
        lo + run_len(s, lo, c) >= x,
{
    lemma_run_len_bounds(s, lo, c);
    let j = lo + run_len(s, lo, c);
    if j < x {
        assert(in_class(s[j], c));
    }
}

proof fn lemma_string_len_prefix(s: Seq<char>, u: Seq<char>, at: int, w: int, i: int)
    requires
        inserted(s, u, at, w),
        0 <= i < at,
        string_len(s, i) > 0,
        i + string_len(s, i) <= at,
    ensures
        string_len(u, i) == string_len(s, i),
{
    let sc = CharClass::StringChar;
    lemma_run_len_bounds(s, i + 1, sc);
    lemma_run_len_bounds(u, i + 1, sc);
    let js = i + 1 + run_len(s, i + 1, sc);
    let his = if js < s.len() && s[js] == '"' {
        js + 1
    } else {
        js
    };
    lemma_last_quote_bounds(s, i + 1, his);
    let k = last_quote(s, i + 1, his);
    assert(k == i + string_len(s, i) - 1);
    let ju = i + 1 + run_len(u, i + 1, sc);
    let hiu = if ju < u.len() && u[ju] == '"' {
        ju + 1
    } else {
        ju
    };
    assert(u[i] == s[i]);
    assert(u[k] == s[k]);
    // The run in `u` reaches `k`.
    assert forall|y: int| i + 1 <= y < k implies in_class(#[trigger] u[y], sc) by {
        assert(u[y] == s[y]);
    }
    lemma_run_covers(u, i + 1, k, sc);
    assert(k < hiu);
    // No quote follows `k` within the range of `u`.
    assert forall|m: int| k < m < hiu implies !is_quote(#[trigger] u[m]) by {
        if m < at {
            assert forall|y: int| i + 1 <= y < m implies in_class(#[trigger] s[y], sc) by {
                assert(u[y] == s[y]);
                assert(in_class(u[y], sc));
            }
            lemma_run_covers(s, i + 1, m, sc);
            assert(u[m] == s[m]);
            if m < ju {
                assert(in_class(u[m], sc));
            }
        } else if m >= at + w {
            assert forall|y: int| i + 1 <= y < m - w implies in_class(#[trigger] s[y], sc) by {
                if y < at {
                    assert(u[y] == s[y]);
                    assert(in_class(u[y], sc));
                } else {
                    assert(u[y + w] == s[y]);
                    assert(in_class(u[y + w], sc));
                }
            }
            lemma_run_covers(s, i + 1, m - w, sc);
            assert(u[m] == s[m - w]);
            if m < ju {
                assert(in_class(u[m], sc));
            }
        }
    }
    lemma_last_quote_is(u, i + 1, hiu, k);
}

/// A token, or a skip that ends before the insertion point, is scanned alike.
proof fn lemma_scan_prefix(s: Seq<char>, u: Seq<char>, at: int, w: int, i: int)
    requires
        inserted(s, u, at, w),
        0 <= i < at,
        match scan_at(s, i) {
            Scan::Skip(l) => i + l < at,
            Scan::Tok(_, l) => i + l <= at,
            Scan::Fail => false,
        },
    ensures
        scan_at(u, i) == scan_at(s, i),
{
    lemma_scan_bounds(s, i);
    assert(u[i] == s[i]);
    if i + 1 < at {
        assert(u[i + 1] == s[i + 1]);
    }
    if i + 10 <= s.len() {
        assert(s.subrange(i, i + 10)[0] == s[i]);
    }
    if i + 10 <= u.len() {
        assert(u.subrange(i, i + 10)[0] == u[i]);
    }
    if i + 10 <= at {
        assert forall|m: int| i <= m < i + 10 implies #[trigger] u[m] == s[m] by {}
        assert(u.subrange(i, i + 10) =~= s.subrange(i, i + 10));
    }
    lemma_run_len_bounds(s, i, CharClass::Space);
    lemma_run_len_bounds(s, i, CharClass::Digit);
    if run_len(s, i, CharClass::Space) > 0 {
        lemma_run_len_prefix(s, u, at, w, i, CharClass::Space);
    } else if comment_len(s, i) > 0 {
        lemma_comment_close_bounds(s, i + 2);
        lemma_comment_close_prefix(s, u, at, w, i + 2);
    } else if run_len(s, i, CharClass::Digit) > 0 {
        lemma_run_len_prefix(s, u, at, w, i, CharClass::Digit);
    } else if ident_len(s, i) > 0 {
        if crate::tokenizer::is_name_start(s[i]) {
            lemma_run_len_bounds(s, i + 1, CharClass::NameChar);
            lemma_run_len_prefix(s, u, at, w, i + 1, CharClass::NameChar);
        } else {
            lemma_run_len_bounds(s, i + 2, CharClass::NameChar);
            lemma_run_len_prefix(s, u, at, w, i + 2, CharClass::NameChar);
        }
    } else if crate::tokenizer::punct_kind(s[i]) is Some {
    } else if has_at(s, i, important_lit()) {
    } else if string_len(s, i) > 0 {
        lemma_string_len_prefix(s, u, at, w, i);
    }
}

/// Before the insertion point, the scanner finds the same tokens.
proof fn lemma_next_tok_prefix(s: Seq<char>, u: Seq<char>, at: int, w: int, i: int)
    requires
        inserted(s, u, at, w),
        0 <= i <= at,
        next_tok(s, i) is Tok,
        next_tok(s, i)->Tok_2 <= at,
    ensures
        next_tok(u, i) == next_tok(s, i),
    decreases s.len() - i,
{
    lemma_next_tok_bounds(s, i);
    lemma_scan_bounds(s, i);
    if let Scan::Skip(l) = scan_at(s, i) {
        lemma_next_tok_bounds(s, i + l);
        lemma_scan_prefix(s, u, at, w, i);
        lemma_next_tok_prefix(s, u, at, w, i + l);
    } else {
        lemma_scan_prefix(s, u, at, w, i);
    }
}

// ---------------------------------------------------------------------------
// At and after the insertion point
// ---------------------------------------------------------------------------
proof fn lemma_inserted_run(u: Seq<char>, at: int, w: int, x: int)
    requires
        0 <= at,
        0 <= x <= w,
        at + w <= u.len(),
        forall|m: int| at <= m < at + w ==> in_class(#[trigger] u[m], CharClass::Space),
    ensures
        run_len(u, at + x, CharClass::Space) == (w - x) + run_len(u, at + w, CharClass::Space),
    decreases w - x,
{
    if x < w {
        lemma_inserted_run(u, at, w, x + 1);
    }
}

/// Inserted whitespace is skipped like any other.
proof fn lemma_next_tok_at_spaces(u: Seq<char>, at: int, w: int)
    requires
        0 <= at,
        0 < w,
        at + w <= u.len(),
        forall|m: int| at <= m < at + w ==> in_class(#[trigger] u[m], CharClass::Space),
    ensures
        next_tok(u, at) == next_tok(u, at + w),
{
    lemma_inserted_run(u, at, w, 0);
    lemma_run_len_bounds(u, at + w, CharClass::Space);
    let r = run_len(u, at + w, CharClass::Space);
    assert(in_class(u[at], CharClass::Space));
    assert(scan_at(u, at) == Scan::Skip(w + r));
    if r > 0 {
        assert(scan_at(u, at + w) == Scan::Skip(r));
    }
}

proof fn lemma_comment_close_extend(x: Seq<char>, y: Seq<char>, j: int)
    requires
        0 <= j,
        comment_close(x, j) >= 0,
        x.len() <= y.len(),
        forall|m: int| 0 <= m < x.len() ==> #[trigger] y[m] == x[m],
    ensures
        comment_close(y, j) == comment_close(x, j),
    decreases x.len() - j,
{
    lemma_comment_close_bounds(x, j);
    assert(y[j] == x[j]);
    assert(y[j + 1] == x[j + 1]);
    if !(x[j] == '*' && x[j + 1] == '/') {
        lemma_comment_close_extend(x, y, j + 1);
    }
}

/// An inserted comment is skipped as a whole.
proof fn lemma_next_tok_at_comment(u: Seq<char>, at: int, c: Seq<char>)
    requires
        0 <= at,
        at + c.len() <= u.len(),
        c.len() > 0,
        comment_len(c, 0) == c.len(),
        u.subrange(at, at + c.len()) == c,
    ensures
        next_tok(u, at) == next_tok(u, at + c.len()),
{
    let w = c.len() as int;
    let rest = u.subrange(at, u.len() as int);
    assert forall|m: int| 0 <= m < w implies #[trigger] rest[m] == c[m] by {
        assert(c[m] == u.subrange(at, at + w)[m]);
    }
    lemma_comment_close_bounds(c, 2);
    lemma_comment_close_extend(c, rest, 2);
    lemma_comment_close_suffix(u, at, at + 2);
    assert(u[at] == c[0]);
    assert(u[at + 1] == c[1]);
    assert(comment_len(u, at) == w);
    assert(scan_at(u, at) == Scan::Skip(w));
}

/// After the insertion point, `u` holds the rest of `s`, shifted by `w`.
proof fn lemma_after_insertion(s: Seq<char>, u: Seq<char>, at: int, w: int, y: int, n: nat)
    requires
        inserted(s, u, at, w),
        at <= y,
    ensures
        token_info(u, y + w) == token_info(s, y),
        after_tokens(u, y + w, n) == after_tokens(s, y, n) + w,
    decreases n,
{
    let b = s.subrange(at, s.len() as int);
    assert(u.subrange(at + w, u.len() as int) =~= b);
    lemma_next_tok_suffix(s, at, y);
    lemma_next_tok_suffix(u, at + w, y + w);
    lemma_next_tok_bounds(s, y);
    if let Lex::Tok(k, st, e) = next_tok(s, y) {
        assert(s.subrange(st, e) =~= b.subrange(st - at, e - at));
        assert(u.subrange(st + w, e + w) =~= b.subrange(st - at, e - at));
        if n > 0 {
            lemma_after_insertion(s, u, at, w, e, (n - 1) as nat);
        }
    }
}

proof fn lemma_after_tokens_grows(s: Seq<char>, p: int, n: nat)
    requires
        0 <= p,
    ensures
        p <= after_tokens(s, p, n),
    decreases n,
{
    lemma_next_tok_bounds(s, p);
    if n > 0 {
        if let Lex::Tok(_, _, e) = next_tok(s, p) {
            lemma_after_tokens_grows(s, e, (n - 1) as nat);
        }
    }
}

/// Inserting whitespace or a comment where a token ends (after the first
/// `k` tokens), or at the very start, leaves the scanned tokens as they were.
pub proof fn lemma_trivia_keeps_tokens(a: Seq<char>, w: Seq<char>, b: Seq<char>, k: nat)
    requires
        is_trivia(w),
        after_tokens(a + b, 0, k) == a.len(),
        forall|n: nat| n < k ==> #[trigger] next_tok(a + b, after_tokens(a + b, 0, n)) is Tok,
    ensures
        same_tokens(a + b, 0, a + w + b, 0),
        after_tokens(a + w + b, 0, k) == a.len(),
        forall|n: nat| n < k ==> #[trigger] next_tok(a + w + b, after_tokens(a + w + b, 0, n)) is Tok,
{
    let s = a + b;
    let u = a + w + b;
    let at = a.len() as int;
    if w.len() == 0 {
        assert(u =~= s);
    } else {
        let wl = w.len() as int;
        assert forall|m: int| 0 <= m < at implies #[trigger] u[m] == s[m] by {}
        assert forall|m: int| at + wl <= m < u.len() implies #[trigger] u[m] == s[m - wl] by {}
        assert(u.subrange(at, at + wl) =~= w);
        let spaces = forall|x: int| 0 <= x < w.len() ==> in_class(#[trigger] w[x], CharClass::Space);
        assert forall|m: int| at <= m < at + wl implies !is_quote(#[trigger] u[m]) by {
            assert(u[m] == w[m - at]);
            if spaces {
                assert(in_class(w[m - at], CharClass::Space));
            }
        }
        assert(u[at] == w[0]);
        if spaces {
            assert(in_class(w[0], CharClass::Space));
            assert forall|m: int| at <= m < at + wl implies in_class(
                #[trigger] u[m],
                CharClass::Space,
            ) by {
                assert(u[m] == w[m - at]);
            }
            lemma_next_tok_at_spaces(u, at, wl);
        } else {
            lemma_next_tok_at_comment(u, at, w);
        }
        assert(inserted(s, u, at, wl));
        assert forall|n: nat| n < k implies #[trigger] next_tok(u, after_tokens(u, 0, n)) is Tok by {
            lemma_prefix_tokens(s, u, at, wl, k, n);
        }
        lemma_prefix_tokens(s, u, at, wl, k, k);
        // The first `k` tokens are found alike.
        assert forall|n: nat| n <= k implies #[trigger] after_tokens(u, 0, n) == after_tokens(
            s,
            0,
            n,
        ) && (n < k ==> next_tok(u, after_tokens(s, 0, n)) == next_tok(s, after_tokens(s, 0, n)))
            by {
            lemma_prefix_tokens(s, u, at, wl, k, n);
        }
        assert forall|n: nat|
            #[trigger] token_info(s, after_tokens(s, 0, n)) == token_info(
                u,
                after_tokens(u, 0, n),
            ) by {
            if n < k {
                assert(after_tokens(u, 0, n) == after_tokens(s, 0, n));
                lemma_prefix_token_step(s, u, at, wl, k, n);
                let p = after_tokens(s, 0, n);
                let st = next_tok(s, p)->Tok_1;
                let e = next_tok(s, p)->Tok_2;
                lemma_after_tokens_grows(s, 0, n);
                lemma_next_tok_bounds(s, p);
                assert(u.subrange(st, e) =~= s.subrange(st, e));
            } else {
                let j = (n - k) as nat;
                crate::laws::lemma_after_tokens_add(s, 0, k, j);
                crate::laws::lemma_after_tokens_add(u, 0, k, j);
                assert(after_tokens(u, 0, k) == at);
                assert(n == k + j);
                let y = after_tokens(s, at, j);
                lemma_after_tokens_grows(s, at, j);
                lemma_after_insertion(s, u, at, wl, y, 0);
                lemma_after_insertion(s, u, at, wl, at, j);
                lemma_after_insertion(s, u, at, wl, at, 0);
                assert(token_info(u, at) == token_info(u, at + wl));
                assert(token_info(u, y + wl) == token_info(s, y));
                assert(after_tokens(u, at + wl, j) == y + wl);
                if j > 0 {
                    if let Lex::Tok(_, _, e) = next_tok(u, at) {
                        assert(after_tokens(u, at, j) == after_tokens(u, at + wl, j));
                    } else {
                        assert(after_tokens(u, at, j) == at);
                        assert(after_tokens(u, at + wl, j) == at + wl);
                        assert(after_tokens(s, at, j) == at);
                    }
                } else {
                    assert(after_tokens(u, at, 0) == at);
                    assert(after_tokens(s, at, 0) == at);
                }
            }
        }
    }
}

proof fn lemma_prefix_tokens(s: Seq<char>, u: Seq<char>, at: int, w: int, k: nat, n: nat)
    requires
        inserted(s, u, at, w),
        after_tokens(s, 0, k) == at,
        forall|m: nat| m < k ==> #[trigger] next_tok(s, after_tokens(s, 0, m)) is Tok,
        n <= k,
    ensures
        after_tokens(u, 0, n) == after_tokens(s, 0, n),
        n < k ==> next_tok(u, after_tokens(s, 0, n)) == next_tok(s, after_tokens(s, 0, n)),
    decreases n,
{
    if n > 0 {
        let n1 = (n - 1) as nat;
        lemma_prefix_tokens(s, u, at, w, k, n1);
        lemma_prefix_token_step(s, u, at, w, k, n1);
        let q = after_tokens(s, 0, n1);
        crate::laws::lemma_after_tokens_add(s, 0, n1, 1);
        crate::laws::lemma_after_tokens_add(u, 0, n1, 1);
        let e = next_tok(s, q)->Tok_2;
        assert(after_tokens(u, e, 0) == e);
        assert(after_tokens(s, e, 0) == e);
        assert(after_tokens(u, q, 1) == after_tokens(s, q, 1));
        assert(n1 + 1 == n);
    }
    if n < k {
        lemma_prefix_token_step(s, u, at, w, k, n);
    }
}

proof fn lemma_prefix_token_step(s: Seq<char>, u: Seq<char>, at: int, w: int, k: nat, n: nat)
    requires
        inserted(s, u, at, w),
        after_tokens(s, 0, k) == at,
        forall|m: nat| m < k ==> #[trigger] next_tok(s, after_tokens(s, 0, m)) is Tok,
        n < k,
    ensures
        next_tok(u, after_tokens(s, 0, n)) == next_tok(s, after_tokens(s, 0, n)),
        after_tokens(s, 0, n + 1) == next_tok(s, after_tokens(s, 0, n))->Tok_2,
        0 <= next_tok(s, after_tokens(s, 0, n))->Tok_1,
        next_tok(s, after_tokens(s, 0, n))->Tok_2 <= at,
{
    let p = after_tokens(s, 0, n);
    assert(next_tok(s, p) is Tok);
    crate::laws::lemma_after_tokens_add(s, 0, n, 1);
    assert(after_tokens(s, next_tok(s, p)->Tok_2, 0) == next_tok(s, p)->Tok_2);
    crate::laws::lemma_after_tokens_add(s, 0, n + 1, (k - n - 1) as nat);
    lemma_after_tokens_grows(s, 0, n);
    lemma_next_tok_bounds(s, p);
    lemma_after_tokens_grows(s, after_tokens(s, 0, n + 1), (k - n - 1) as nat);
    assert(n + 1 + (k - n - 1) as nat == k);
    lemma_next_tok_prefix(s, u, at, w, p);
}

/// Inserting whitespace runs and quote-free comments where a token ends
/// (after the first `k` tokens), or at the very start, changes neither
/// whether the source parses nor the tree it parses to.
pub proof fn lemma_trivia_keeps_tree(a: Seq<char>, pieces: Seq<Seq<char>>, b: Seq<char>, k: nat)
    requires
        forall|i: int| 0 <= i < pieces.len() ==> is_trivia(#[trigger] pieces[i]),
        after_tokens(a + b, 0, k) == a.len(),
        forall|n: nat| n < k ==> #[trigger] next_tok(a + b, after_tokens(a + b, 0, n)) is Tok,
    ensures
        parse_spec(a + b) is Ok <==> parse_spec(a + concat(pieces) + b) is Ok,
        parse_spec(a + b) is Ok ==> parse_spec(a + b) == parse_spec(a + concat(pieces) + b),
{
    lemma_trivia_run_keeps_tokens(a, pieces, b, k);
    lemma_tree_depends_on_tokens_only(a + b, a + concat(pieces) + b);
}

/// The concatenation of a sequence of texts.
pub open spec fn concat(pieces: Seq<Seq<char>>) -> Seq<char>
    decreases pieces.len(),
{
    if pieces.len() == 0 {
        Seq::empty()
    } else {
        pieces[0] + concat(pieces.drop_first())
    }
}

proof fn lemma_same_tokens_trans(s1: Seq<char>, s2: Seq<char>, s3: Seq<char>)
    requires
        same_tokens(s1, 0, s2, 0),
        same_tokens(s2, 0, s3, 0),
    ensures
        same_tokens(s1, 0, s3, 0),
{
    assert forall|n: nat|
        #[trigger] token_info(s1, after_tokens(s1, 0, n)) == token_info(
            s3,
            after_tokens(s3, 0, n),
        ) by {
        assert(token_info(s1, after_tokens(s1, 0, n)) == token_info(s2, after_tokens(s2, 0, n)));
        assert(token_info(s2, after_tokens(s2, 0, n)) == token_info(s3, after_tokens(s3, 0, n)));
    }
}

/// Inserting any sequence of whitespace runs and quote-free comments where
/// a token ends (after the first `k` tokens), or at the very start, leaves
/// the scanned tokens as they were. Insertions at several such places
/// follow by applying this at each in turn.
pub proof fn lemma_trivia_run_keeps_tokens(
    a: Seq<char>,
    pieces: Seq<Seq<char>>,
    b: Seq<char>,
    k: nat,
)
    requires
        forall|i: int| 0 <= i < pieces.len() ==> is_trivia(#[trigger] pieces[i]),
        after_tokens(a + b, 0, k) == a.len(),
        forall|n: nat| n < k ==> #[trigger] next_tok(a + b, after_tokens(a + b, 0, n)) is Tok,
    ensures
        same_tokens(a + b, 0, a + concat(pieces) + b, 0),
        after_tokens(a + concat(pieces) + b, 0, k) == a.len(),
        forall|n: nat|
            n < k ==> #[trigger] next_tok(
                a + concat(pieces) + b,
                after_tokens(a + concat(pieces) + b, 0, n),
            ) is Tok,
    decreases pieces.len(),
{
    if pieces.len() == 0 {
        assert(a + concat(pieces) + b =~= a + b);
        assert forall|n: nat|
            #[trigger] token_info(a + b, after_tokens(a + b, 0, n)) == token_info(
                a + b,
                after_tokens(a + b, 0, n),
            ) by {}
    } else {
        let rest = pieces.drop_first();
        assert forall|i: int| 0 <= i < rest.len() implies is_trivia(#[trigger] rest[i]) by {
            assert(rest[i] == pieces[i + 1]);
        }
        lemma_trivia_run_keeps_tokens(a, rest, b, k);
        let b2 = concat(rest) + b;
        assert(a + concat(rest) + b =~= a + b2);
        assert(is_trivia(pieces[0]));
        lemma_trivia_keeps_tokens(a, pieces[0], b2, k);
        assert(a + pieces[0] + b2 =~= a + concat(pieces) + b);
        lemma_same_tokens_trans(a + b, a + b2, a + concat(pieces) + b);
    }
}

} // verus!
