//! The scanner: a cursor over the input that hands out one token per call.
use vstd::prelude::*;

use crate::chars::{decimal_digit, identifier_char, is_digit, is_letter, is_whitespace, whitespace};
use crate::grammar::{
    digit_run, letter_run, lemma_lex_shortens, lemma_lexeme_len_bounds, lemma_run_len, lex, tokens,
    ws_len,
};
use crate::token::{lookup_ident, Token};

verus! {

/// Relies on `String::push`, which appends one character.
#[verifier::external_body]
fn push_char(s: &mut String, c: char)
    ensures
        final(s)@ == old(s)@.push(c),
{
    s.push(c);
}

/// A scanner over one input text. Its view is the input not read yet.
pub struct Lexer {
    input: Vec<char>,
    pos: usize,
}

impl View for Lexer {
    type V = Seq<char>;

    closed spec fn view(&self) -> Seq<char> {
        self.input@.skip(self.pos as int)
    }
}

impl Lexer {
    #[verifier::type_invariant]
    spec fn well_formed(&self) -> bool {
        self.pos <= self.input.len()
    }

    /// A scanner positioned at the start of `input`.
    pub fn new(input: &str) -> (r: Lexer)
        ensures
            r@ == input@,
    {
        let mut chars: Vec<char> = Vec::new();
        for c in it: input.chars()
            invariant
                chars@ == it.seq().take(it.index() as int),
        {
            chars.push(c);
        }
        assert(chars@ =~= input@);
        Lexer { input: chars, pos: 0 }
    }

    /// Consumes and returns the next character, if any.
    fn read_char(&mut self) -> (r: Option<char>)
        ensures
            old(self)@.len() == 0 ==> r is None && final(self)@ == old(self)@,
            old(self)@.len() > 0 ==> r == Some(old(self)@[0]) && final(self)@ == old(self)@.drop_first(),
    {
        proof {
            use_type_invariant(&*self);
        }
        if self.pos < self.input.len() {
            let c = self.input[self.pos];
            self.pos = self.pos + 1;
            Some(c)
        } else {
            None
        }
    }

    /// The next character, if any, without consuming it.
    fn peek_char(&self) -> (r: Option<char>)
        ensures
            self@.len() == 0 ==> r is None,
            self@.len() > 0 ==> r == Some(self@[0]),
    {
        proof {
            use_type_invariant(self);
        }
        if self.pos < self.input.len() {
            Some(self.input[self.pos])
        } else {
            None
        }
    }

    /// Whether the next character is `ch`.
    fn peek_char_eq(&self, ch: char) -> (r: bool)
        ensures
            r == (self@.len() > 0 && self@[0] == ch),
    {
        match self.peek_char() {
            Some(peek_ch) => peek_ch == ch,
            None => false,
        }
    }

    /// Consumes the run of whitespace at the cursor.
    fn skip_whitespace(&mut self)
        ensures
            final(self)@ == old(self)@.skip(ws_len(old(self)@) as int),
    {
        let ghost start = self@;
        let ghost mut k: nat = 0;
        loop
            invariant_except_break
                k <= start.len(),
                self@ == start.skip(k as int),
                forall|i: int| 0 <= i < k ==> whitespace(#[trigger] start[i]),
            ensures
                self@ == start.skip(ws_len(start) as int),
            decreases self@.len(),
        {
            let next = self.peek_char();
            if next.is_none() || !is_whitespace(next.unwrap()) {
                proof {
                    lemma_run_len(start, |c: char| whitespace(c), k);
                }
                break;
            }
            self.read_char();
            proof {
                k = k + 1;
            }
        }
    }

    /// Whether the next character may continue an identifier.
    fn peek_is_letter(&self) -> (r: bool)
        ensures
            r == (self@.len() > 0 && identifier_char(self@[0])),
    {
        match self.peek_char() {
            Some(ch) => is_letter(ch),
            None => false,
        }
    }

    /// Reads the rest of an identifier whose first character `first` has
    /// already been consumed.
    fn read_identifier(&mut self, first: char) -> (r: String)
        ensures
            r@ == seq![first] + old(self)@.take(letter_run(old(self)@) as int),
            final(self)@ == old(self)@.skip(letter_run(old(self)@) as int),
    {
        let ghost start = self@;
        let ghost mut k: nat = 0;
        let mut ident = String::new();
        push_char(&mut ident, first);
        while self.peek_is_letter()
            invariant
                k <= start.len(),
                self@ == start.skip(k as int),
                forall|i: int| 0 <= i < k ==> identifier_char(#[trigger] start[i]),
                ident@ == seq![first] + start.take(k as int),
            decreases self@.len(),
        {
            let c = self.read_char();
            if let Some(c) = c {
                push_char(&mut ident, c);
            }
            proof {
                k = k + 1;
                assert(ident@ =~= seq![first] + start.take(k as int));
            }
        }
        proof {
            lemma_run_len(start, |c: char| identifier_char(c), k);
        }
        ident
    }

    /// Reads the rest of an integer literal whose first digit `first` has
    /// already been consumed.
    fn read_number(&mut self, first: char) -> (r: String)
        ensures
            r@ == seq![first] + old(self)@.take(digit_run(old(self)@) as int),
            final(self)@ == old(self)@.skip(digit_run(old(self)@) as int),
    {
        let ghost start = self@;
        let ghost mut k: nat = 0;
        let mut number = String::new();
        push_char(&mut number, first);
        loop
            invariant_except_break
                k <= start.len(),
                self@ == start.skip(k as int),
                forall|i: int| 0 <= i < k ==> decimal_digit(#[trigger] start[i]),
                number@ == seq![first] + start.take(k as int),
            ensures
                self@ == start.skip(digit_run(start) as int),
                number@ == seq![first] + start.take(digit_run(start) as int),
            decreases self@.len(),
        {
            let next = self.peek_char();
            if next.is_none() || !is_digit(next.unwrap()) {
                proof {
                    lemma_run_len(start, |c: char| decimal_digit(c), k);
                }
                break;
            }
            let c = next.unwrap();
            self.read_char();
            push_char(&mut number, c);
            proof {
                k = k + 1;
                assert(number@ =~= seq![first] + start.take(k as int));
            }
        }
        number
    }

    /// Skips whitespace and returns the next token, consuming its lexeme.
    /// Once the input is exhausted every call returns `EndOfFile`.
    pub fn next_token(&mut self) -> (r: Token)
        ensures
            r@ == lex(old(self)@).0,
            final(self)@ == lex(old(self)@).1,
    {
        let ghost s = self@;
        self.skip_whitespace();
        let ghost t = self@;
        proof {
            if t.len() > 0 {
                lemma_lexeme_len_bounds(t);
                assert(t.drop_first() == t.skip(1));
            }
        }
        match self.read_char() {
            Some('=') => {
                if self.peek_char_eq('=') {
                    self.read_char();
                    proof {
                        assert(t.take(2) =~= seq!['=', '=']);
                        assert(self@ =~= t.skip(2));
                    }
                    Token::Equal
                } else {
                    Token::Assign
                }
            },
            Some('+') => Token::Plus,
            Some('-') => Token::Minus,
            Some('!') => {
                if self.peek_char_eq('=') {
                    self.read_char();
                    proof {
                        assert(t.take(2) =~= seq!['!', '=']);
                        assert(self@ =~= t.skip(2));
                    }
                    Token::NotEqual
                } else {
                    Token::Bang
                }
            },
            Some('/') => Token::Slash,
            Some('*') => Token::Asterisk,
            Some('<') => Token::LowerThan,
            Some('>') => Token::GreaterThan,
            Some(';') => Token::Semicolon,
            Some(',') => Token::Comma,
            Some('{') => Token::LeftBrace,
            Some('}') => Token::RightBrace,
            Some('(') => Token::LeftParenthesis,
            Some(')') => Token::RightParenthesis,
            Some(ch) => {
                if is_letter(ch) {
                    let ghost rest = self@;
                    let literal = self.read_identifier(ch);
                    proof {
                        let n = letter_run(rest) as int;
                        assert(letter_run(t) == 1 + n);
                        assert(literal@ =~= t.take(1 + n));
                        assert(self@ =~= t.skip(1 + n));
                    }
                    lookup_ident(&literal)
                } else if is_digit(ch) {
                    let ghost rest = self@;
                    let number = self.read_number(ch);
                    proof {
                        let n = digit_run(rest) as int;
                        assert(digit_run(t) == 1 + n);
                        assert(number@ =~= t.take(1 + n));
                        assert(self@ =~= t.skip(1 + n));
                    }
                    Token::Integer(number)
                } else {
                    Token::Illegal
                }
            },
            None => Token::EndOfFile,
        }
    }
}

/// Drains a fresh scanner over `input`: every token it returns, up to and
/// including the first `EndOfFile`.
pub fn tokenize(input: &str) -> (r: Vec<Token>)
    ensures
        r@.map_values(|t: Token| t@) == tokens(input@),
{
    let mut lexer = Lexer::new(input);
    let mut out: Vec<Token> = Vec::new();
    loop
        invariant_except_break
            out@.map_values(|t: Token| t@) + tokens(lexer@) == tokens(input@),
        ensures
            out@.map_values(|t: Token| t@) == tokens(input@),
        decreases lexer@.len(),
    {
        let ghost before = lexer@;
        let ghost seen = out@;
        let tok = lexer.next_token();
        proof {
            lemma_lex_shortens(before);
        }
        let done = matches!(tok, Token::EndOfFile);
        out.push(tok);
        proof {
            assert(out@.map_values(|t: Token| t@) =~= seen.map_values(|t: Token| t@).push(
                lex(before).0,
            ));
            if !done {
                assert(tokens(before) =~= seq![lex(before).0] + tokens(lexer@));
            }
        }
        if done {
            break;
        }
    }
    out
}

} // verus!
