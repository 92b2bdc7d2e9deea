use monkey_lexer::chars::{is_digit, is_whitespace};
use monkey_lexer::{is_letter, lookup_ident, tokenize, Lexer, Token};

fn ident(s: &str) -> Token {
    Token::Ident(s.to_string())
}

fn integer(s: &str) -> Token {
    Token::Integer(s.to_string())
}

fn drain(input: &str) -> Vec<Token> {
    let mut lexer = Lexer::new(input);
    let mut out = Vec::new();
    loop {
        let tok = lexer.next_token();
        let done = tok == Token::EndOfFile;
        out.push(tok);
        if done {
            return out;
        }
    }
}

#[test]
fn let_statement_scenario() {
    assert_eq!(
        drain("let five = 5;"),
        vec![
            Token::Let,
            ident("five"),
            Token::Assign,
            integer("5"),
            Token::Semicolon,
            Token::EndOfFile
        ]
    );
}

#[test]
fn equality_scenario() {
    assert_eq!(
        drain("10 == 10; 10 != 9;"),
        vec![
            integer("10"),
            Token::Equal,
            integer("10"),
            Token::Semicolon,
            integer("10"),
            Token::NotEqual,
            integer("9"),
            Token::Semicolon,
            Token::EndOfFile
        ]
    );
}

#[test]
fn illegal_character_scenario() {
    assert_eq!(drain("@"), vec![Token::Illegal, Token::EndOfFile]);
    assert_eq!(drain("#"), vec![Token::Illegal, Token::EndOfFile]);
}

#[test]
fn empty_input_scenario() {
    assert_eq!(drain(""), vec![Token::EndOfFile]);
}

#[test]
fn end_of_file_repeats() {
    let mut lexer = Lexer::new("x  ");
    assert_eq!(lexer.next_token(), ident("x"));
    for _ in 0..5 {
        assert_eq!(lexer.next_token(), Token::EndOfFile);
    }
}

#[test]
fn malformed_input_drains() {
    let toks = drain("@@ $ let ~");
    assert_eq!(
        toks,
        vec![
            Token::Illegal,
            Token::Illegal,
            Token::Illegal,
            Token::Let,
            Token::Illegal,
            Token::EndOfFile
        ]
    );
}

#[test]
fn identifiers_and_numbers_are_maximal() {
    assert_eq!(
        drain("abc_def 1234567890 _x"),
        vec![ident("abc_def"), integer("1234567890"), ident("_x"), Token::EndOfFile]
    );
}

#[test]
fn digits_do_not_continue_identifiers() {
    assert_eq!(drain("x1"), vec![ident("x"), integer("1"), Token::EndOfFile]);
    assert_eq!(drain("12ab"), vec![integer("12"), ident("ab"), Token::EndOfFile]);
}

#[test]
fn signs_are_separate_tokens() {
    assert_eq!(drain("-5"), vec![Token::Minus, integer("5"), Token::EndOfFile]);
}

#[test]
fn keywords_take_precedence() {
    assert_eq!(
        drain("fn let true false if else return"),
        vec![
            Token::Function,
            Token::Let,
            Token::True,
            Token::False,
            Token::If,
            Token::Else,
            Token::Return,
            Token::EndOfFile
        ]
    );
}

#[test]
fn keyword_matching_is_exact() {
    assert_eq!(lookup_ident("let"), Token::Let);
    assert_eq!(lookup_ident("letter"), ident("letter"));
    assert_eq!(lookup_ident("Let"), ident("Let"));
    assert_eq!(lookup_ident("f"), ident("f"));
    assert_eq!(drain("iffy"), vec![ident("iffy"), Token::EndOfFile]);
}

#[test]
fn lookahead_on_assign_and_bang() {
    assert_eq!(drain("="), vec![Token::Assign, Token::EndOfFile]);
    assert_eq!(drain("=="), vec![Token::Equal, Token::EndOfFile]);
    assert_eq!(drain("= ="), vec![Token::Assign, Token::Assign, Token::EndOfFile]);
    assert_eq!(drain("==="), vec![Token::Equal, Token::Assign, Token::EndOfFile]);
    assert_eq!(drain("=x"), vec![Token::Assign, ident("x"), Token::EndOfFile]);
    assert_eq!(drain("!"), vec![Token::Bang, Token::EndOfFile]);
    assert_eq!(drain("!="), vec![Token::NotEqual, Token::EndOfFile]);
    assert_eq!(drain("!=="), vec![Token::NotEqual, Token::Assign, Token::EndOfFile]);
    assert_eq!(drain("!!"), vec![Token::Bang, Token::Bang, Token::EndOfFile]);
}

#[test]
fn every_single_character_operator() {
    assert_eq!(
        drain("+-*/<>,;{}()"),
        vec![
            Token::Plus,
            Token::Minus,
            Token::Asterisk,
            Token::Slash,
            Token::LowerThan,
            Token::GreaterThan,
            Token::Comma,
            Token::Semicolon,
            Token::LeftBrace,
            Token::RightBrace,
            Token::LeftParenthesis,
            Token::RightParenthesis,
            Token::EndOfFile
        ]
    );
}

#[test]
fn whitespace_between_tokens_is_transparent() {
    let tight = drain("let x=add(1,y);");
    let loose = drain(" \t let   x =\n add ( 1 ,\r\n y ) ;  \n");
    assert_eq!(tight, loose);
    let unicode = drain("\u{3000}let\u{a0}x\u{2003}=\u{85}add(1,\u{2028}y);");
    assert_eq!(tight, unicode);
}

#[test]
fn unicode_whitespace_is_skipped() {
    assert_eq!(drain("\u{3000}\u{2009}\u{0b}\u{0c}"), vec![Token::EndOfFile]);
    assert!(is_whitespace('\u{a0}'));
    assert!(is_whitespace('\n'));
    assert!(!is_whitespace('\u{200b}'));
    assert!(!is_whitespace('x'));
}

#[test]
fn unicode_letters_form_identifiers() {
    assert_eq!(drain("héllo wörld"), vec![ident("héllo"), ident("wörld"), Token::EndOfFile]);
    assert_eq!(drain("京都"), vec![ident("京都"), Token::EndOfFile]);
    assert!(is_letter('é'));
    assert!(!is_letter('💝'));
}

#[test]
fn only_ascii_digits_make_integers() {
    assert!(is_digit('7'));
    assert!(!is_digit('٣'));
    assert_eq!(drain("٣"), vec![Token::Illegal, Token::EndOfFile]);
}

#[test]
fn tokenize_matches_repeated_calls() {
    let input = "let add = fn(x, y) { x + y; };\nadd(1, 2) != 3";
    assert_eq!(tokenize(input), drain(input));
    assert_eq!(tokenize(""), vec![Token::EndOfFile]);
}

#[test]
fn default_token_is_illegal() {
    assert_eq!(Token::default(), Token::Illegal);
}
