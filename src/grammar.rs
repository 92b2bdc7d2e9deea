//! The scanner described as functions on sequences of characters.
//!
//! [`lex`] takes the unread input and gives the token that one call of the
//! scanner returns together with the input left unread after it; [`tokens`]
//! is the whole stream a caller drains from an input.
use vstd::prelude::*;

use crate::chars::{decimal_digit, identifier_char, whitespace};
use crate::token::{keyword_or_ident, TokenView};

verus! {

/// Length of the longest prefix of `s` whose characters all satisfy `p`.
pub open spec fn run_len(s: Seq<char>, p: spec_fn(char) -> bool) -> nat
    decreases s.len(),
{
    if s.len() > 0 && p(s[0]) {
        1 + run_len(s.drop_first(), p)
    } else {
        0
    }
}

/// Number of whitespace characters at the start of `s`.
pub open spec fn ws_len(s: Seq<char>) -> nat {
    run_len(s, |c: char| whitespace(c))
}

/// Number of identifier characters at the start of `s`.
pub open spec fn letter_run(s: Seq<char>) -> nat {
    run_len(s, |c: char| identifier_char(c))
}

/// Number of decimal digits at the start of `s`.
pub open spec fn digit_run(s: Seq<char>) -> nat {
    run_len(s, |c: char| decimal_digit(c))
}

/// The characters that make an operator or delimiter token on their own.
pub open spec fn operator_char(c: char) -> bool {
    ||| c == '='
    ||| c == '+'
    ||| c == '-'
    ||| c == '!'
    ||| c == '/'
    ||| c == '*'
    ||| c == '<'
    ||| c == '>'
    ||| c == ';'
    ||| c == ','
    ||| c == '{'
    ||| c == '}'
    ||| c == '('
    ||| c == ')'
}

/// Length of the lexeme that starts `t`, for `t` that does not start with
/// whitespace: `==` and `!=` take two characters, any other operator one, an
/// identifier or an integer literal its maximal run, and any other character
/// one.
pub open spec fn lexeme_len(t: Seq<char>) -> nat {
    if t.len() == 0 {
        0
    } else if operator_char(t[0]) {
        if (t[0] == '=' || t[0] == '!') && t.len() > 1 && t[1] == '=' {
            2
        } else {
            1
        }
    } else if identifier_char(t[0]) {
        letter_run(t)
    } else if decimal_digit(t[0]) {
        digit_run(t)
    } else {
        1
    }
}

/// The token that a lexeme stands for.
pub open spec fn token_of(lexeme: Seq<char>) -> TokenView {
    if lexeme.len() == 0 {
        TokenView::EndOfFile
    } else if lexeme == seq!['=', '='] {
        TokenView::Equal
    } else if lexeme == seq!['!', '='] {
        TokenView::NotEqual
    } else {
        let c = lexeme[0];
        if c == '=' {
            TokenView::Assign
        } else if c == '+' {
            TokenView::Plus
        } else if c == '-' {
            TokenView::Minus
        } else if c == '!' {
            TokenView::Bang
        } else if c == '/' {
            TokenView::Slash
        } else if c == '*' {
            TokenView::Asterisk
        } else if c == '<' {
            TokenView::LowerThan
        } else if c == '>' {
            TokenView::GreaterThan
        } else if c == ';' {
            TokenView::Semicolon
        } else if c == ',' {
            TokenView::Comma
        } else if c == '{' {
            TokenView::LeftBrace
        } else if c == '}' {
            TokenView::RightBrace
        } else if c == '(' {
            TokenView::LeftParenthesis
        } else if c == ')' {
            TokenView::RightParenthesis
        } else if identifier_char(c) {
            keyword_or_ident(lexeme)
        } else if decimal_digit(c) {
            TokenView::Integer(lexeme)
        } else {
            TokenView::Illegal
        }
    }
}

/// One call of the scanner on the unread input `s`: the token returned and
/// the input left unread. Leading whitespace is skipped; once nothing but
/// whitespace is left the token is `EndOfFile` and nothing is left unread.
pub open spec fn lex(s: Seq<char>) -> (TokenView, Seq<char>) {
    let t = s.skip(ws_len(s) as int);
    if t.len() == 0 {
        (TokenView::EndOfFile, t)
    } else {
        let n = lexeme_len(t) as int;
        (token_of(t.take(n)), t.skip(n))
    }
}

/// The lexeme that one call of the scanner on `s` consumes, without the
/// whitespace skipped before it; empty at the end of the input.
pub open spec fn lexeme(s: Seq<char>) -> Seq<char> {
    let t = s.skip(ws_len(s) as int);
    t.take(lexeme_len(t) as int)
}

/// Every character of `w` is whitespace.
pub open spec fn all_whitespace(w: Seq<char>) -> bool {
    forall|i: int| 0 <= i < w.len() ==> whitespace(#[trigger] w[i])
}

/// Position `p` of `s` lies between tokens: only whitespace stands between
/// it and the end of the lexeme of some call of the scanner on `s` (or the
/// start of `s`), so that no lexeme spans it.
pub open spec fn token_boundary(s: Seq<char>, p: int) -> bool
    decreases s.len(),
    via token_boundary_decreases
{
    if !(0 <= p <= s.len()) {
        false
    } else if all_whitespace(s.take(p)) {
        true
    } else {
        let rest = lex(s).1;
        let m = s.len() - rest.len();
        m <= p && token_boundary(rest, p - m)
    }
}

#[via_fn]
proof fn token_boundary_decreases(s: Seq<char>, p: int) {
    lemma_lex_shortens(s);
    if 0 <= p <= s.len() && !all_whitespace(s.take(p)) && lex(s).0 is EndOfFile {
        assert(all_whitespace(s.take(p)));
    }
}

/// The input left unread after `k` calls of the scanner on `s`.
pub open spec fn unread_after(s: Seq<char>, k: nat) -> Seq<char>
    decreases k,
{
    if k == 0 {
        s
    } else {
        lex(unread_after(s, (k - 1) as nat)).1
    }
}

/// The token returned by call number `k` (counted from zero) on `s`.
pub open spec fn nth_token(s: Seq<char>, k: nat) -> TokenView {
    lex(unread_after(s, k)).0
}

/// The token stream of `s`, up to and including the first `EndOfFile`.
pub open spec fn tokens(s: Seq<char>) -> Seq<TokenView>
    decreases s.len(),
    via tokens_decreases
{
    let (t, rest) = lex(s);
    if t is EndOfFile {
        seq![t]
    } else {
        seq![t] + tokens(rest)
    }
}

#[via_fn]
proof fn tokens_decreases(s: Seq<char>) {
    lemma_lex_shortens(s);
}

/// `run_len` is `n` exactly when the first `n` characters satisfy `p` and the
/// next one, if any, does not.
pub proof fn lemma_run_len(s: Seq<char>, p: spec_fn(char) -> bool, n: nat)
    requires
        n <= s.len(),
        forall|i: int| 0 <= i < n ==> p(#[trigger] s[i]),
        n == s.len() || !p(s[n as int]),
    ensures
        run_len(s, p) == n,
    decreases n,
{
    if n > 0 {
        assert(p(s[0]));
        lemma_run_len(s.drop_first(), p, (n - 1) as nat);
    }
}

/// Every character of the run satisfies `p`, and the one after it does not.
pub proof fn lemma_run_len_bounds(s: Seq<char>, p: spec_fn(char) -> bool)
    ensures
        run_len(s, p) <= s.len(),
        forall|i: int| 0 <= i < run_len(s, p) ==> p(#[trigger] s[i]),
        run_len(s, p) == s.len() || !p(s[run_len(s, p) as int]),
    decreases s.len(),
{
    if s.len() > 0 && p(s[0]) {
        let t = s.drop_first();
        lemma_run_len_bounds(t, p);
        assert forall|i: int| 0 <= i < run_len(s, p) implies p(#[trigger] s[i]) by {
            if i > 0 {
                assert(s[i] == t[i - 1]);
            }
        }
    }
}

/// A lexeme is never empty.
pub proof fn lemma_lexeme_len_bounds(t: Seq<char>)
    requires
        t.len() > 0,
    ensures
        1 <= lexeme_len(t) <= t.len(),
{
    lemma_run_len_bounds(t, |c: char| identifier_char(c));
    lemma_run_len_bounds(t, |c: char| decimal_digit(c));
}

/// A call that does not return `EndOfFile` consumes input; one that does
/// leaves nothing unread.
pub proof fn lemma_lex_shortens(s: Seq<char>)
    ensures
        lex(s).1.len() <= s.len(),
        !(lex(s).0 is EndOfFile) ==> lex(s).1.len() < s.len(),
        lex(s).0 is EndOfFile ==> lex(s).1.len() == 0,
        lex(s).0 is EndOfFile ==> all_whitespace(s),
{
    lemma_run_len_bounds(s, |c: char| whitespace(c));
    let t = s.skip(ws_len(s) as int);
    if t.len() > 0 {
        lemma_lexeme_len_bounds(t);
        let n = lexeme_len(t) as int;
        if token_of(t.take(n)) is EndOfFile {
            assert(t.take(n).len() == n);
        }
    } else {
        assert(ws_len(s) == s.len());
    }
}

} // verus!
