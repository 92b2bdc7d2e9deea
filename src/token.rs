//! Tokens and the resolution of identifier-shaped lexemes into keywords.
use vstd::prelude::*;

verus! {

/// One token of the language. `Ident` and `Integer` carry the exact text they
/// were scanned from; the other variants carry nothing.
#[derive(Debug, PartialEq, Eq)]
pub enum Token {
    Illegal,
    EndOfFile,
    // Literals are kept as their source text.
    Ident(String),
    Integer(String),
    // Operators
    Assign,
    Plus,
    Minus,
    Bang,
    Asterisk,
    Slash,
    LowerThan,
    GreaterThan,
    Equal,
    NotEqual,
    // Delimiters
    Comma,
    Semicolon,
    LeftParenthesis,
    RightParenthesis,
    LeftBrace,
    RightBrace,
    // Keywords
    Function,
    Let,
    True,
    False,
    If,
    Else,
    Return,
}

/// The mathematical value of a [`Token`]: the same variants, with the text of
/// `Ident` and `Integer` as a sequence of characters.
pub enum TokenView {
    Illegal,
    EndOfFile,
    Ident(Seq<char>),
    Integer(Seq<char>),
    Assign,
    Plus,
    Minus,
    Bang,
    Asterisk,
    Slash,
    LowerThan,
    GreaterThan,
    Equal,
    NotEqual,
    Comma,
    Semicolon,
    LeftParenthesis,
    RightParenthesis,
    LeftBrace,
    RightBrace,
    Function,
    Let,
    True,
    False,
    If,
    Else,
    Return,
}

impl View for Token {
    type V = TokenView;

    open spec fn view(&self) -> TokenView {
        match self {
            Token::Illegal => TokenView::Illegal,
            Token::EndOfFile => TokenView::EndOfFile,
            Token::Ident(s) => TokenView::Ident(s@),
            Token::Integer(s) => TokenView::Integer(s@),
            Token::Assign => TokenView::Assign,
            Token::Plus => TokenView::Plus,
            Token::Minus => TokenView::Minus,
            Token::Bang => TokenView::Bang,
            Token::Asterisk => TokenView::Asterisk,
            Token::Slash => TokenView::Slash,
            Token::LowerThan => TokenView::LowerThan,
            Token::GreaterThan => TokenView::GreaterThan,
            Token::Equal => TokenView::Equal,
            Token::NotEqual => TokenView::NotEqual,
            Token::Comma => TokenView::Comma,
            Token::Semicolon => TokenView::Semicolon,
            Token::LeftParenthesis => TokenView::LeftParenthesis,
            Token::RightParenthesis => TokenView::RightParenthesis,
            Token::LeftBrace => TokenView::LeftBrace,
            Token::RightBrace => TokenView::RightBrace,
            Token::Function => TokenView::Function,
            Token::Let => TokenView::Let,
            Token::True => TokenView::True,
            Token::False => TokenView::False,
            Token::If => TokenView::If,
            Token::Else => TokenView::Else,
            Token::Return => TokenView::Return,
        }
    }
}

impl Default for Token {
    /// `Illegal`, a placeholder meant to be overwritten before use.
    fn default() -> (r: Token)
        ensures
            r@ == TokenView::Illegal,
    {
        Token::Illegal
    }
}

/// The keyword token spelled by `word`, if `word` is one of the reserved words
/// `fn`, `let`, `true`, `false`, `if`, `else` and `return`.
pub open spec fn keyword(word: Seq<char>) -> Option<TokenView> {
    if word == seq!['f', 'n'] {
        Some(TokenView::Function)
    } else if word == seq!['l', 'e', 't'] {
        Some(TokenView::Let)
    } else if word == seq!['t', 'r', 'u', 'e'] {
        Some(TokenView::True)
    } else if word == seq!['f', 'a', 'l', 's', 'e'] {
        Some(TokenView::False)
    } else if word == seq!['i', 'f'] {
        Some(TokenView::If)
    } else if word == seq!['e', 'l', 's', 'e'] {
        Some(TokenView::Else)
    } else if word == seq!['r', 'e', 't', 'u', 'r', 'n'] {
        Some(TokenView::Return)
    } else {
        None
    }
}

/// The token for an identifier-shaped lexeme: its keyword if it is reserved,
/// else an identifier carrying the lexeme.
pub open spec fn keyword_or_ident(word: Seq<char>) -> TokenView {
    match keyword(word) {
        Some(t) => t,
        None => TokenView::Ident(word),
    }
}

/// Relies on `PartialEq` for `str`: two strings are equal exactly when they
/// hold the same characters.
#[verifier::external_body]
fn same_text(a: &str, b: &str) -> (r: bool)
    ensures
        r == (a@ == b@),
{
    a == b
}

/// Resolves an identifier-shaped lexeme into a keyword token or an identifier.
pub fn lookup_ident(ident: &str) -> (r: Token)
    ensures
        r@ == keyword_or_ident(ident@),
{
    proof {
        reveal_strlit("fn");
        assert("fn"@ =~= seq!['f', 'n']);
        reveal_strlit("let");
        assert("let"@ =~= seq!['l', 'e', 't']);
        reveal_strlit("true");
        assert("true"@ =~= seq!['t', 'r', 'u', 'e']);
        reveal_strlit("false");
        assert("false"@ =~= seq!['f', 'a', 'l', 's', 'e']);
        reveal_strlit("if");
        assert("if"@ =~= seq!['i', 'f']);
        reveal_strlit("else");
        assert("else"@ =~= seq!['e', 'l', 's', 'e']);
        reveal_strlit("return");
        assert("return"@ =~= seq!['r', 'e', 't', 'u', 'r', 'n']);
    }
    if same_text(ident, "fn") {
        Token::Function
    } else if same_text(ident, "let") {
        Token::Let
    } else if same_text(ident, "true") {
        Token::True
    } else if same_text(ident, "false") {
        Token::False
    } else if same_text(ident, "if") {
        Token::If
    } else if same_text(ident, "else") {
        Token::Else
    } else if same_text(ident, "return") {
        Token::Return
    } else {
        Token::Ident(ident.to_string())
    }
}

} // verus!
