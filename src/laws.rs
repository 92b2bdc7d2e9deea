//! Laws of the scanner that hold for every input.
use vstd::prelude::*;

use crate::chars::{decimal_digit, identifier_char, whitespace};
use crate::grammar::{
    all_whitespace, lemma_lex_shortens, lemma_lexeme_len_bounds, lemma_run_len,
    lemma_run_len_bounds, lex, lexeme, lexeme_len, nth_token, operator_char, token_boundary,
    tokens, unread_after, ws_len,
};
use crate::token::{keyword, keyword_or_ident, TokenView};

verus! {

/// Once a call has returned `EndOfFile`, every later call returns it too, and
/// nothing is left unread.
proof fn lemma_end_persists(s: Seq<char>, j: nat, k: nat)
    requires
        j <= k,
        nth_token(s, j) is EndOfFile,
    ensures
        nth_token(s, k) is EndOfFile,
        j < k ==> unread_after(s, k).len() == 0,
    decreases k - j,
{
    if j < k {
        lemma_end_persists(s, j, (k - 1) as nat);
        lemma_lex_shortens(unread_after(s, (k - 1) as nat));
    }
}

/// Until the first `EndOfFile`, each call consumes at least one character.
proof fn lemma_calls_consume(s: Seq<char>, k: nat)
    requires
        forall|j: nat| j < k ==> !(#[trigger] nth_token(s, j) is EndOfFile),
    ensures
        unread_after(s, k).len() + k <= s.len(),
    decreases k,
{
    if k > 0 {
        let j = (k - 1) as nat;
        lemma_calls_consume(s, j);
        assert(!(nth_token(s, j) is EndOfFile));
        lemma_lex_shortens(unread_after(s, j));
    }
}

/// Draining the scanner terminates: from call number `s.len()` on (counted
/// from zero) every call returns `EndOfFile`, and once one call has returned
/// it, every later call returns it again.
pub proof fn lemma_totality(s: Seq<char>)
    ensures
        forall|k: nat| k >= s.len() ==> #[trigger] nth_token(s, k) is EndOfFile,
        forall|j: nat, k: nat|
            j <= k && #[trigger] nth_token(s, j) is EndOfFile ==> #[trigger] nth_token(
                s,
                k,
            ) is EndOfFile,
{
    let n = s.len();
    if exists|j: nat| j < n && #[trigger] nth_token(s, j) is EndOfFile {
        let j = choose|j: nat| j < n && #[trigger] nth_token(s, j) is EndOfFile;
        assert forall|k: nat| k >= s.len() implies #[trigger] nth_token(s, k) is EndOfFile by {
            lemma_end_persists(s, j, k);
        }
    } else {
        lemma_calls_consume(s, n);
        assert forall|k: nat| k >= s.len() implies #[trigger] nth_token(s, k) is EndOfFile by {
            lemma_end_persists(s, n, k);
        }
    }
    assert forall|j: nat, k: nat|
        j <= k && #[trigger] nth_token(s, j) is EndOfFile implies #[trigger] nth_token(
            s,
            k,
        ) is EndOfFile by {
        lemma_end_persists(s, j, k);
    }
}

/// The calls after the first one are the calls on what the first left unread.
proof fn lemma_unread_after_first(s: Seq<char>, k: nat)
    ensures
        unread_after(s, k + 1) == unread_after(lex(s).1, k),
    decreases k,
{
    if k > 0 {
        lemma_unread_after_first(s, (k - 1) as nat);
        assert(unread_after(s, k + 1) == lex(unread_after(s, k)).1);
    } else {
        assert(unread_after(s, 1) == lex(unread_after(s, 0)).1);
    }
}

/// The stream of [`tokens`] is what successive calls return: call number `k`
/// gives its element `k`, the last element is the first `EndOfFile`, and the
/// stream holds at most one token per character and the `EndOfFile`.
pub proof fn lemma_stream_is_calls(s: Seq<char>)
    ensures
        0 < tokens(s).len() <= s.len() + 1,
        forall|k: nat| k < tokens(s).len() ==> tokens(s)[k as int] == #[trigger] nth_token(s, k),
        tokens(s).last() is EndOfFile,
        forall|k: int| 0 <= k < tokens(s).len() - 1 ==> !(#[trigger] tokens(s)[k] is EndOfFile),
    decreases s.len(),
{
    lemma_lex_shortens(s);
    let (t, rest) = lex(s);
    if !(t is EndOfFile) {
        lemma_stream_is_calls(rest);
        assert forall|k: nat| k < tokens(s).len() implies tokens(s)[k as int] == #[trigger] nth_token(
            s,
            k,
        ) by {
            if k > 0 {
                lemma_unread_after_first(s, (k - 1) as nat);
                assert(nth_token(s, k) == nth_token(rest, (k - 1) as nat));
            }
        }
    }
}

/// `=` and `!` look one character ahead: followed by `=` they make `Equal` or
/// `NotEqual` and consume two characters, followed by anything else (or by
/// nothing) they make `Assign` or `Bang` and consume one.
pub proof fn lemma_lookahead(s: Seq<char>)
    requires
        s.len() > 0,
        s[0] == '=' || s[0] == '!',
    ensures
        s.len() > 1 && s[1] == '=' && s[0] == '=' ==> lex(s) == (TokenView::Equal, s.skip(2)),
        s.len() > 1 && s[1] == '=' && s[0] == '!' ==> lex(s) == (TokenView::NotEqual, s.skip(2)),
        !(s.len() > 1 && s[1] == '=') && s[0] == '=' ==> lex(s) == (TokenView::Assign, s.skip(1)),
        !(s.len() > 1 && s[1] == '=') && s[0] == '!' ==> lex(s) == (TokenView::Bang, s.skip(1)),
{
    lemma_run_len(s, |c: char| whitespace(c), 0);
    assert(s.skip(0) =~= s);
    if s.len() > 1 && s[1] == '=' {
        if s[0] == '=' {
            assert(s.take(2) =~= seq!['=', '=']);
        } else {
            assert(s.take(2) =~= seq!['!', '=']);
        }
    } else {
        assert(s.take(1).len() == 1);
    }
}

/// Skipping whitespace stops at the first character that is not whitespace.
proof fn lemma_ws_len_of(space: Seq<char>, t: Seq<char>)
    requires
        all_whitespace(space),
        t.len() == 0 || !whitespace(t[0]),
    ensures
        ws_len(space + t) == space.len(),
        (space + t).skip(space.len() as int) == t,
{
    let s = space + t;
    assert forall|i: int| 0 <= i < space.len() implies whitespace(#[trigger] s[i]) by {
        assert(s[i] == space[i]);
    }
    lemma_run_len(s, |c: char| whitespace(c), space.len());
    assert(s.skip(space.len() as int) =~= t);
}

/// A reserved word that the scanner reads as a whole lexeme yields its
/// keyword token, never an identifier: after any whitespace, the word
/// followed by the end of the input or by a character that cannot continue
/// an identifier.
pub proof fn lemma_keyword_precedence(space: Seq<char>, word: Seq<char>, rest: Seq<char>)
    requires
        all_whitespace(space),
        keyword(word) is Some,
        rest.len() == 0 || !identifier_char(rest[0]),
    ensures
        lex(space + word + rest) == (keyword(word)->0, rest),
        !(lex(space + word + rest).0 is Ident),
{
    let t = word + rest;
    assert(forall|i: int| 0 <= i < word.len() ==> identifier_char(#[trigger] word[i]));
    assert(t[0] == word[0]);
    lemma_ws_len_of(space, t);
    assert(space + word + rest =~= space + t);
    assert forall|i: int| 0 <= i < word.len() implies identifier_char(#[trigger] t[i]) by {
        assert(t[i] == word[i]);
    }
    if rest.len() > 0 {
        assert(t[word.len() as int] == rest[0]);
    }
    lemma_run_len(t, |c: char| identifier_char(c), word.len());
    assert(t.take(word.len() as int) =~= word);
    assert(t.skip(word.len() as int) =~= rest);
}

/// Identifier and integer lexemes are maximal. A lexeme that starts with an
/// identifier character holds only such characters, the input left unread
/// does not start with another, and the token is the keyword or identifier
/// that the lexeme spells; likewise for decimal digits and integer literals.
/// An identifier or integer token carries its lexeme.
pub proof fn lemma_maximal_munch(s: Seq<char>)
    ensures
        s == s.take(ws_len(s) as int) + lexeme(s) + lex(s).1,
        lexeme(s).len() > 0 && identifier_char(lexeme(s)[0]) ==> {
            &&& forall|i: int| 0 <= i < lexeme(s).len() ==> identifier_char(#[trigger] lexeme(s)[i])
            &&& lex(s).1.len() == 0 || !identifier_char(lex(s).1[0])
            &&& lex(s).0 == keyword_or_ident(lexeme(s))
        },
        lexeme(s).len() > 0 && decimal_digit(lexeme(s)[0]) ==> {
            &&& forall|i: int| 0 <= i < lexeme(s).len() ==> decimal_digit(#[trigger] lexeme(s)[i])
            &&& lex(s).1.len() == 0 || !decimal_digit(lex(s).1[0])
            &&& lex(s).0 == TokenView::Integer(lexeme(s))
        },
        lex(s).0 matches TokenView::Ident(x) ==> x == lexeme(s) && x.len() > 0 && identifier_char(
            x[0],
        ),
        lex(s).0 matches TokenView::Integer(x) ==> x == lexeme(s) && x.len() > 0 && decimal_digit(
            x[0],
        ),
{
    lemma_run_len_bounds(s, |c: char| whitespace(c));
    let i = ws_len(s) as int;
    let t = s.skip(i);
    let w = lexeme(s);
    if t.len() > 0 {
        lemma_lexeme_len_bounds(t);
        lemma_run_len_bounds(t, |c: char| identifier_char(c));
        lemma_run_len_bounds(t, |c: char| decimal_digit(c));
        let n = lexeme_len(t) as int;
        assert(w[0] == t[0]);
        assert forall|j: int| 0 <= j < w.len() implies w[j] == t[j] by {}
        if n < t.len() {
            assert(lex(s).1[0] == t[n]);
        }
        if w == seq!['=', '='] || w == seq!['!', '='] {
            assert(w[0] == '=' || w[0] == '!');
        }
    }
    assert(s =~= s.take(i) + w + lex(s).1);
}

/// Whitespace in front of the input changes neither the next call nor the
/// stream.
proof fn lemma_leading_space(u: Seq<char>, v: Seq<char>)
    requires
        all_whitespace(u),
    ensures
        lex(u + v) == lex(v),
        tokens(u + v) == tokens(v),
{
    let s = u + v;
    lemma_run_len_bounds(v, |c: char| whitespace(c));
    let k = ws_len(v) as int;
    let n = u.len() + k;
    assert forall|i: int| 0 <= i < n implies whitespace(#[trigger] s[i]) by {
        if i < u.len() {
            assert(s[i] == u[i]);
        } else {
            assert(s[i] == v[i - u.len()]);
        }
    }
    if n < s.len() {
        assert(s[n] == v[k]);
    }
    lemma_run_len(s, |c: char| whitespace(c), n as nat);
    assert(s.skip(n) =~= v.skip(k));
    assert(lex(s) == lex(v));
}

/// The length of a lexeme depends on its own characters and on the one after
/// it alone, and whitespace after it never extends it.
proof fn lemma_lexeme_local(t: Seq<char>, u: Seq<char>)
    requires
        t.len() > 0,
        u.len() >= lexeme_len(t),
        u.take(lexeme_len(t) as int) == t.take(lexeme_len(t) as int),
        u.len() == lexeme_len(t) || (t.len() > lexeme_len(t) && u[lexeme_len(t) as int] == t[lexeme_len(t) as int])
            || whitespace(u[lexeme_len(t) as int]),
    ensures
        lexeme_len(u) == lexeme_len(t),
{
    lemma_lexeme_len_bounds(t);
    let n = lexeme_len(t) as int;
    assert forall|i: int| 0 <= i < n implies u[i] == t[i] by {
        assert(u.take(n)[i] == t.take(n)[i]);
    }
    if operator_char(t[0]) {
        if n == 2 {
            assert(u[1] == t[1]);
        }
    } else if identifier_char(t[0]) {
        lemma_run_len_bounds(t, |c: char| identifier_char(c));
        assert forall|i: int| 0 <= i < n implies identifier_char(#[trigger] u[i]) by {
            assert(u[i] == t[i]);
        }
        lemma_run_len(u, |c: char| identifier_char(c), n as nat);
    } else if decimal_digit(t[0]) {
        lemma_run_len_bounds(t, |c: char| decimal_digit(c));
        assert forall|i: int| 0 <= i < n implies decimal_digit(#[trigger] u[i]) by {
            assert(u[i] == t[i]);
        }
        lemma_run_len(u, |c: char| decimal_digit(c), n as nat);
    }
}

/// Whitespace between tokens is transparent: inserting a run of whitespace
/// at a token boundary leaves the token stream unchanged. Read from right to
/// left, so does removing a run of whitespace whose removal leaves a token
/// boundary in its place.
pub proof fn lemma_whitespace_transparency(s: Seq<char>, p: int, w: Seq<char>)
    requires
        token_boundary(s, p),
        all_whitespace(w),
    ensures
        tokens(s.take(p) + w + s.skip(p)) == tokens(s),
    decreases s.len(),
{
    let a = s.take(p);
    let b = s.skip(p);
    let s2 = a + w + b;
    assert(s =~= a + b);
    if all_whitespace(a) {
        assert(all_whitespace(a + w)) by {
            assert forall|j: int| 0 <= j < (a + w).len() implies whitespace(#[trigger] (a + w)[j]) by {
                if j < a.len() {
                    assert((a + w)[j] == a[j]);
                } else {
                    assert((a + w)[j] == w[j - a.len()]);
                }
            }
        }
        assert(s2 =~= (a + w) + b);
        lemma_leading_space(a + w, b);
        lemma_leading_space(a, b);
    } else {
        let r = lex(s).1;
        let m = s.len() - r.len();
        lemma_lex_shortens(s);
        lemma_run_len_bounds(s, |c: char| whitespace(c));
        let i = ws_len(s) as int;
        assert(i < p) by {
            if i >= p {
                assert forall|j: int| 0 <= j < a.len() implies whitespace(#[trigger] a[j]) by {
                    assert(a[j] == s[j]);
                }
            }
        }
        assert forall|j: int| 0 <= j < i implies whitespace(#[trigger] s2[j]) by {
            assert(s2[j] == s[j]);
        }
        assert(s2[i] == s[i]);
        lemma_run_len(s2, |c: char| whitespace(c), i as nat);
        let t = s.skip(i);
        let t2 = s2.skip(i);
        lemma_lexeme_len_bounds(t);
        let n = lexeme_len(t) as int;
        assert(m == i + n);
        assert(t2.take(n) =~= t.take(n)) by {
            assert forall|j: int| 0 <= j < n implies t2.take(n)[j] == t.take(n)[j] by {
                assert(s2[i + j] == s[i + j]);
            }
        }
        if n < t2.len() {
            if i + n < p {
                assert(t2[n] == s[i + n]);
            } else if w.len() > 0 {
                assert(t2[n] == w[0]);
            } else {
                assert(t2[n] == s[p]);
            }
        }
        lemma_lexeme_local(t, t2);
        let r2 = t2.skip(n);
        assert(r2 =~= r.take(p - m) + w + r.skip(p - m));
        lemma_whitespace_transparency(r, p - m, w);
        assert(lex(s2) == (lex(s).0, r2));
    }
}

} // verus!
