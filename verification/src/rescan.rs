//! Scanning what was scanned: the text of the tokens of a source, set one
//! after the other with a space between them, scans to the same tokens.

use vstd::prelude::*;
use crate::scanner::{
    digits_end, is_alpha, is_digit, is_space, lemma_digits_end_bounds, lemma_lex_bounds,
    lemma_name_end_bounds, lemma_quote_at_bounds, lemma_trivia_end_bounds, lex, name_end, next_end,
    next_token, quote_at, tokens_from, trivia_end, BANG, DOT, EQUAL, GREATER, LESS, NEWLINE, QUOTE,
    SLASH,
};
use crate::token::{TokenKind, TokenView};

verus! {

/// A token without its line: its kind and its text.
pub open spec fn face(token: TokenView) -> (TokenKind, Seq<u8>) {
    (token.kind, token.lexeme)
}

/// Whether no scan from position `i` on returns an `Error` token.
pub open spec fn clean(s: Seq<u8>, i: int) -> bool
    decreases s.len() - i,
    when 0 <= i <= s.len()
    via clean_terminates
{
    let token = next_token(s, i);
    token.kind != TokenKind::Error && (token.kind == TokenKind::Eof || clean(s, next_end(s, i)))
}

#[via_fn]
proof fn clean_terminates(s: Seq<u8>, i: int) {
    lemma_trivia_end_bounds(s, i, false);
    lemma_lex_bounds(s, trivia_end(s, i, false));
}

/// The text of each token that scanning from position `i` returns, with a
/// space after each.
pub open spec fn rebuilt(s: Seq<u8>, i: int) -> Seq<u8>
    decreases s.len() - i,
    when 0 <= i <= s.len()
    via rebuilt_terminates
{
    if next_token(s, i).kind == TokenKind::Eof {
        Seq::empty()
    } else {
        next_token(s, i).lexeme + seq![32u8] + rebuilt(s, next_end(s, i))
    }
}

#[via_fn]
proof fn rebuilt_terminates(s: Seq<u8>, i: int) {
    lemma_trivia_end_bounds(s, i, false);
    lemma_lex_bounds(s, trivia_end(s, i, false));
}

/// Where the white space and comments end, a token begins: no white space,
/// and no comment.
pub proof fn lemma_trivia_end_stops(s: Seq<u8>, i: int, in_comment: bool)
    requires
        0 <= i <= s.len(),
    ensures
        ({
            let p = trivia_end(s, i, in_comment);
            p < s.len() ==> !is_space(s[p]) && !(s[p] == SLASH && p + 1 < s.len() && s[p + 1]
                == SLASH)
        }),
    decreases s.len() - i,
{
    if i < s.len() {
        if in_comment {
            lemma_trivia_end_stops(s, i + 1, s[i] != NEWLINE);
        } else if is_space(s[i]) {
            lemma_trivia_end_stops(s, i + 1, false);
        } else if s[i] == SLASH && i + 1 < s.len() && s[i + 1] == SLASH {
            lemma_trivia_end_stops(s, i + 2, true);
        }
    }
}

/// A name runs over letters, digits and underscores, and stops before the
/// first byte that is none.
pub proof fn lemma_name_end_run(s: Seq<u8>, i: int)
    requires
        0 <= i <= s.len(),
    ensures
        forall|j: int| i <= j < name_end(s, i) ==> is_alpha(#[trigger] s[j]) || is_digit(s[j]),
        name_end(s, i) < s.len() ==> !(is_alpha(s[name_end(s, i)]) || is_digit(
            s[name_end(s, i)],
        )),
    decreases s.len() - i,
{
    lemma_name_end_bounds(s, i);
    if i < s.len() && (is_alpha(s[i]) || is_digit(s[i])) {
        lemma_name_end_run(s, i + 1);
    }
}

/// Where letters, digits and underscores run from `a` up to `b` and no
/// further, a name that begins at `a` ends at `b`.
pub proof fn lemma_name_end_is(s: Seq<u8>, a: int, b: int)
    requires
        0 <= a <= b <= s.len(),
        forall|j: int| a <= j < b ==> is_alpha(#[trigger] s[j]) || is_digit(s[j]),
        b < s.len() ==> !(is_alpha(s[b]) || is_digit(s[b])),
    ensures
        name_end(s, a) == b,
    decreases b - a,
{
    if a < b {
        assert(is_alpha(s[a]) || is_digit(s[a]));
        lemma_name_end_is(s, a + 1, b);
    }
}

/// A run of digits runs over digits, and stops before the first byte that
/// is none.
pub proof fn lemma_digits_end_run(s: Seq<u8>, i: int)
    requires
        0 <= i <= s.len(),
    ensures
        forall|j: int| i <= j < digits_end(s, i) ==> is_digit(#[trigger] s[j]),
        digits_end(s, i) < s.len() ==> !is_digit(s[digits_end(s, i)]),
    decreases s.len() - i,
{
    lemma_digits_end_bounds(s, i);
    if i < s.len() && is_digit(s[i]) {
        lemma_digits_end_run(s, i + 1);
    }
}

/// Where digits run from `a` up to `b` and no further, a run of digits that
/// begins at `a` ends at `b`.
pub proof fn lemma_digits_end_is(s: Seq<u8>, a: int, b: int)
    requires
        0 <= a <= b <= s.len(),
        forall|j: int| a <= j < b ==> is_digit(#[trigger] s[j]),
        b < s.len() ==> !is_digit(s[b]),
    ensures
        digits_end(s, a) == b,
    decreases b - a,
{
    if a < b {
        assert(is_digit(s[a]));
        lemma_digits_end_is(s, a + 1, b);
    }
}

/// No quote stands before the first quote.
pub proof fn lemma_quote_at_run(s: Seq<u8>, i: int)
    requires
        0 <= i <= s.len(),
    ensures
        forall|j: int| i <= j < quote_at(s, i) ==> #[trigger] s[j] != QUOTE,
        quote_at(s, i) < s.len() ==> s[quote_at(s, i)] == QUOTE,
    decreases s.len() - i,
{
    lemma_quote_at_bounds(s, i);
    if i < s.len() && s[i] != QUOTE {
        lemma_quote_at_run(s, i + 1);
    }
}

/// Where no quote stands from `a` up to `b`, and one stands at `b`, the
/// first quote at or after `a` is at `b`.
pub proof fn lemma_quote_at_is(s: Seq<u8>, a: int, b: int)
    requires
        0 <= a <= b < s.len(),
        forall|j: int| a <= j < b ==> #[trigger] s[j] != QUOTE,
        s[b] == QUOTE,
    ensures
        quote_at(s, a) == b,
    decreases b - a,
{
    if a < b {
        assert(s[a] != QUOTE);
        lemma_quote_at_is(s, a + 1, b);
    }
}

/// A token that is scanned by itself, with a space after it, is the same
/// token: of the same kind, and as long as its text.
pub proof fn lemma_token_alone(s: Seq<u8>, p: int, tail: Seq<u8>)
    requires
        0 <= p < s.len(),
        !is_space(s[p]),
        !(s[p] == SLASH && p + 1 < s.len() && s[p + 1] == SLASH),
        lex(s, p).0 != TokenKind::Error,
    ensures
        ({
            let text = s.subrange(p, lex(s, p).1);
            let alone = text + seq![32u8] + tail;
            &&& trivia_end(alone, 0, false) == 0
            &&& lex(alone, 0) == (lex(s, p).0, text.len() as int)
        }),
{
    lemma_lex_bounds(s, p);
    let end = lex(s, p).1;
    let text = s.subrange(p, end);
    let alone = text + seq![32u8] + tail;
    let n = text.len() as int;
    assert(n == end - p);
    assert(alone[n] == 32u8);
    assert forall|j: int| 0 <= j < n implies #[trigger] alone[j] == s[p + j] by {
        assert(alone[j] == text[j]);
    }
    assert(alone[0] == s[p]);
    if is_alpha(s[p]) {
        lemma_name_end_run(s, p + 1);
        assert forall|j: int| 1 <= j < n implies is_alpha(#[trigger] alone[j]) || is_digit(
            alone[j],
        ) by {
            assert(alone[j] == s[p + j]);
        }
        lemma_name_end_is(alone, 1, n);
        assert(alone.subrange(0, n) =~= text);
    } else if is_digit(s[p]) {
        lemma_digits_end_run(s, p);
        lemma_digits_end_bounds(s, p);
        let whole = digits_end(s, p);
        let first = whole - p;
        if whole + 1 <= s.len() {
            lemma_digits_end_bounds(s, whole + 1);
        }
        assert(first <= n);
        assert forall|j: int| 0 <= j < first implies is_digit(#[trigger] alone[j]) by {
            assert(alone[j] == s[p + j]);
        }
        if whole + 1 < s.len() && s[whole] == DOT && is_digit(s[whole + 1]) {
            lemma_digits_end_run(s, whole + 1);
            lemma_digits_end_bounds(s, whole + 1);
            assert(alone[first] == s[p + first]);
            lemma_digits_end_is(alone, 0, first);
            assert(alone[first + 1] == s[p + first + 1]);
            assert forall|j: int| first + 1 <= j < n implies is_digit(#[trigger] alone[j]) by {
                assert(alone[j] == s[p + j]);
            }
            lemma_digits_end_is(alone, first + 1, n);
        } else {
            lemma_digits_end_is(alone, 0, first);
        }
    } else if s[p] == BANG || s[p] == EQUAL || s[p] == LESS || s[p] == GREATER {
        if p + 1 < s.len() && s[p + 1] == EQUAL {
            assert(alone[1] == s[p + 1]);
        }
    } else if s[p] == QUOTE {
        lemma_quote_at_run(s, p + 1);
        lemma_quote_at_bounds(s, p + 1);
        let close = quote_at(s, p + 1);
        assert forall|j: int| 1 <= j < close - p implies #[trigger] alone[j] != QUOTE by {
            assert(alone[j] == s[p + j]);
        }
        assert(alone[close - p] == s[p + (close - p)]);
        lemma_quote_at_is(alone, 1, close - p);
    }
}

/// The scanner looks only ahead: where the text `back` is what stands in
/// `whole` from position `k` on, white space and comments end in `whole`
/// where they end in `back`, moved by `k`.
pub proof fn lemma_trivia_end_shift(whole: Seq<u8>, k: int, back: Seq<u8>, j: int, in_comment: bool)
    requires
        0 <= k,
        whole.len() == k + back.len(),
        forall|x: int| 0 <= x < back.len() ==> #[trigger] whole[k + x] == back[x],
        0 <= j <= back.len(),
    ensures
        trivia_end(whole, k + j, in_comment) == k + trivia_end(back, j, in_comment),
    decreases back.len() - j,
{
    if j < back.len() {
        assert(whole[k + j] == back[j]);
        if in_comment {
            lemma_trivia_end_shift(whole, k, back, j + 1, back[j] != NEWLINE);
        } else if is_space(back[j]) {
            lemma_trivia_end_shift(whole, k, back, j + 1, false);
        } else if back[j] == SLASH && j + 1 < back.len() && back[j + 1] == SLASH {
            assert(whole[k + (j + 1)] == back[j + 1]);
            lemma_trivia_end_shift(whole, k, back, j + 2, true);
        } else {
            if j + 1 < back.len() {
                assert(whole[k + (j + 1)] == back[j + 1]);
            }
        }
    }
}

/// Names end in `whole` where they end in `back`, moved by `k`.
pub proof fn lemma_name_end_shift(whole: Seq<u8>, k: int, back: Seq<u8>, j: int)
    requires
        0 <= k,
        whole.len() == k + back.len(),
        forall|x: int| 0 <= x < back.len() ==> #[trigger] whole[k + x] == back[x],
        0 <= j <= back.len(),
    ensures
        name_end(whole, k + j) == k + name_end(back, j),
    decreases back.len() - j,
{
    if j < back.len() {
        assert(whole[k + j] == back[j]);
        if is_alpha(back[j]) || is_digit(back[j]) {
            lemma_name_end_shift(whole, k, back, j + 1);
        }
    }
}

/// Runs of digits end in `whole` where they end in `back`, moved by `k`.
pub proof fn lemma_digits_end_shift(whole: Seq<u8>, k: int, back: Seq<u8>, j: int)
    requires
        0 <= k,
        whole.len() == k + back.len(),
        forall|x: int| 0 <= x < back.len() ==> #[trigger] whole[k + x] == back[x],
        0 <= j <= back.len(),
    ensures
        digits_end(whole, k + j) == k + digits_end(back, j),
    decreases back.len() - j,
{
    if j < back.len() {
        assert(whole[k + j] == back[j]);
        if is_digit(back[j]) {
            lemma_digits_end_shift(whole, k, back, j + 1);
        }
    }
}

/// The first quote in `whole` is where it is in `back`, moved by `k`.
pub proof fn lemma_quote_at_shift(whole: Seq<u8>, k: int, back: Seq<u8>, j: int)
    requires
        0 <= k,
        whole.len() == k + back.len(),
        forall|x: int| 0 <= x < back.len() ==> #[trigger] whole[k + x] == back[x],
        0 <= j <= back.len(),
    ensures
        quote_at(whole, k + j) == k + quote_at(back, j),
    decreases back.len() - j,
{
    if j < back.len() {
        assert(whole[k + j] == back[j]);
        if back[j] != QUOTE {
            lemma_quote_at_shift(whole, k, back, j + 1);
        }
    }
}

/// A scan of `whole` from position `k + j` returns the token that a scan of
/// `back` from `j` returns, its line apart, and ends where that scan ends,
/// moved by `k`.
pub proof fn lemma_next_token_shift(whole: Seq<u8>, k: int, back: Seq<u8>, j: int)
    requires
        0 <= k,
        whole.len() == k + back.len(),
        forall|x: int| 0 <= x < back.len() ==> #[trigger] whole[k + x] == back[x],
        0 <= j <= back.len(),
    ensures
        face(next_token(whole, k + j)) == face(next_token(back, j)),
        next_end(whole, k + j) == k + next_end(back, j),
{
    lemma_trivia_end_shift(whole, k, back, j, false);
    lemma_trivia_end_bounds(back, j, false);
    let p = trivia_end(back, j, false);
    lemma_lex_bounds(back, p);
    if p < back.len() {
        assert(whole[k + p] == back[p]);
        if p + 1 < back.len() {
            assert(whole[k + (p + 1)] == back[p + 1]);
        }
        lemma_name_end_shift(whole, k, back, p + 1);
        lemma_digits_end_shift(whole, k, back, p);
        lemma_digits_end_bounds(back, p);
        let first = digits_end(back, p);
        if first < back.len() {
            assert(whole[k + first] == back[first]);
        }
        if first + 1 < back.len() {
            assert(whole[k + (first + 1)] == back[first + 1]);
        }
        if first + 1 <= back.len() {
            lemma_digits_end_shift(whole, k, back, first + 1);
        }
        lemma_quote_at_shift(whole, k, back, p + 1);
        let end = lex(back, p).1;
        assert(lex(whole, k + p).1 == k + end);
        assert(whole.subrange(k + p, k + end) =~= back.subrange(p, end)) by {
            assert forall|x: int| 0 <= x < end - p implies whole.subrange(k + p, k + end)[x]
                == back.subrange(p, end)[x] by {
                assert(whole[k + (p + x)] == back[p + x]);
            }
        }
        assert(lex(whole, k + p).0 == lex(back, p).0);
    } else {
        assert(whole.subrange(k + p, k + p) =~= back.subrange(p, p));
    }
}

/// The tokens of `whole` from position `k + j` on are those of `back` from
/// `j` on, their lines apart.
pub proof fn lemma_tokens_shift(whole: Seq<u8>, k: int, back: Seq<u8>, j: int)
    requires
        0 <= k,
        whole.len() == k + back.len(),
        forall|x: int| 0 <= x < back.len() ==> #[trigger] whole[k + x] == back[x],
        0 <= j <= back.len(),
    ensures
        tokens_from(whole, k + j).map_values(|t: TokenView| face(t)) == tokens_from(
            back,
            j,
        ).map_values(|t: TokenView| face(t)),
    decreases back.len() - j,
{
    lemma_next_token_shift(whole, k, back, j);
    lemma_trivia_end_bounds(back, j, false);
    lemma_lex_bounds(back, trivia_end(back, j, false));
    let here = tokens_from(whole, k + j).map_values(|t: TokenView| face(t));
    let there = tokens_from(back, j).map_values(|t: TokenView| face(t));
    if next_token(back, j).kind == TokenKind::Eof {
        assert(here =~= there);
    } else {
        lemma_tokens_shift(whole, k, back, next_end(back, j));
        let rest_here = tokens_from(whole, k + next_end(back, j));
        let rest_there = tokens_from(back, next_end(back, j));
        assert(tokens_from(whole, k + j) == seq![next_token(whole, k + j)] + rest_here);
        assert(tokens_from(back, j) == seq![next_token(back, j)] + rest_there);
        assert(here =~= seq![face(next_token(whole, k + j))] + rest_here.map_values(
            |t: TokenView| face(t),
        ));
        assert(there =~= seq![face(next_token(back, j))] + rest_there.map_values(
            |t: TokenView| face(t),
        ));
    }
}

/// Scanning a source, setting the text of its tokens one after the other
/// with a space after each, and scanning the result gives the same tokens
/// again, kind by kind and text by text, provided that the source holds no
/// lexical error. The lines of the tokens are not kept: they are white
/// space.
pub proof fn lemma_rescan(s: Seq<u8>, i: int)
    requires
        0 <= i <= s.len(),
        clean(s, i),
    ensures
        tokens_from(rebuilt(s, i), 0).map_values(|t: TokenView| face(t)) == tokens_from(
            s,
            i,
        ).map_values(|t: TokenView| face(t)),
    decreases s.len() - i,
{
    lemma_trivia_end_bounds(s, i, false);
    let p = trivia_end(s, i, false);
    lemma_lex_bounds(s, p);
    lemma_trivia_end_stops(s, i, false);
    let token = next_token(s, i);
    let again = rebuilt(s, i);
    let first = tokens_from(s, i).map_values(|t: TokenView| face(t));
    let second = tokens_from(again, 0).map_values(|t: TokenView| face(t));
    if token.kind == TokenKind::Eof {
        assert(again =~= Seq::<u8>::empty());
        assert(trivia_end(again, 0, false) == 0);
        assert(next_token(again, 0).lexeme =~= token.lexeme);
        assert(second =~= first);
    } else {
        let end = next_end(s, i);
        let text = token.lexeme;
        let tail = rebuilt(s, end);
        let n = text.len() as int;
        assert(again == text + seq![32u8] + tail);
        lemma_token_alone(s, p, tail);
        assert(next_token(again, 0).kind == token.kind);
        assert(next_end(again, 0) == n);
        assert(next_token(again, 0).lexeme =~= text) by {
            assert(again.subrange(0, n) =~= text);
        }
        // The space after the token is passed over.
        assert(again[n] == 32u8);
        assert(trivia_end(again, n, false) == trivia_end(again, n + 1, false));
        assert(next_token(again, n) == next_token(again, n + 1));
        assert(next_end(again, n) == next_end(again, n + 1));
        lemma_trivia_end_bounds(again, n + 1, false);
        lemma_lex_bounds(again, trivia_end(again, n + 1, false));
        assert(tokens_from(again, n) == tokens_from(again, n + 1));
        // What follows the space scans as it does by itself.
        assert forall|x: int| 0 <= x < tail.len() implies #[trigger] again[(n + 1) + x]
            == tail[x] by {}
        lemma_tokens_shift(again, n + 1, tail, 0);
        lemma_rescan(s, end);
        let rest_first = tokens_from(s, end);
        let rest_second = tokens_from(again, n);
        assert(tokens_from(s, i) == seq![token] + rest_first);
        assert(tokens_from(again, 0) == seq![next_token(again, 0)] + rest_second);
        assert(first =~= seq![face(token)] + rest_first.map_values(|t: TokenView| face(t)));
        assert(second =~= seq![face(next_token(again, 0))] + rest_second.map_values(
            |t: TokenView| face(t),
        ));
    }
}

} // verus!
