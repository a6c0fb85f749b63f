use lox::cursor::Loc;
use lox::lexer::{tokenize, Lexer, TokKind, Token};

fn tok(kind: TokKind, row: usize, col: usize) -> Option<Token> {
    Some(Token { kind, loc: Loc { row, col } })
}

fn ident(s: &str, row: usize, col: usize) -> Option<Token> {
    tok(TokKind::Ident(s.to_string()), row, col)
}

/// The value of a number token and its location.
fn number(t: Option<Token>) -> (f64, usize, usize) {
    match t {
        Some(Token { kind: TokKind::Number(n), loc }) => (n.parse::<f64>().unwrap(), loc.row, loc.col),
        other => panic!("not a number token: {:?}", other),
    }
}

#[test]
fn test_lexer_punctuation() {
    let mut l = Lexer::new("(){};,+-*!===<=>=!=<>/.");
    assert_eq!(l.next(), tok(TokKind::LParen, 0, 0));
    assert_eq!(l.next(), tok(TokKind::RParen, 0, 1));
    assert_eq!(l.next(), tok(TokKind::LBrace, 0, 2));
    assert_eq!(l.next(), tok(TokKind::RBrace, 0, 3));
    assert_eq!(l.next(), tok(TokKind::Semicolon, 0, 4));
    assert_eq!(l.next(), tok(TokKind::Comma, 0, 5));
    assert_eq!(l.next(), tok(TokKind::Plus, 0, 6));
    assert_eq!(l.next(), tok(TokKind::Minus, 0, 7));
    assert_eq!(l.next(), tok(TokKind::Star, 0, 8));
    assert_eq!(l.next(), tok(TokKind::BangEqual, 0, 9));
    assert_eq!(l.next(), tok(TokKind::EqualEqual, 0, 11));
    assert_eq!(l.next(), tok(TokKind::LessEqual, 0, 13));
    assert_eq!(l.next(), tok(TokKind::GreaterEqual, 0, 15));
    assert_eq!(l.next(), tok(TokKind::BangEqual, 0, 17));
    assert_eq!(l.next(), tok(TokKind::Less, 0, 19));
    assert_eq!(l.next(), tok(TokKind::Greater, 0, 20));
    assert_eq!(l.next(), tok(TokKind::Slash, 0, 21));
    assert_eq!(l.next(), tok(TokKind::Dot, 0, 22));
    assert_eq!(l.next(), None);
}

#[test]
fn test_lexer_strings() {
    let mut l = Lexer::new(r#"  "string"  ""  "msg" "#);
    assert_eq!(l.next(), tok(TokKind::String("string".to_string()), 0, 2));
    assert_eq!(l.next(), tok(TokKind::String("".to_string()), 0, 12));
    assert_eq!(l.next(), tok(TokKind::String("msg".to_string()), 0, 16));
    assert_eq!(l.next(), None)
}

#[test]
fn test_lexer_identifiers() {
    let mut l = Lexer::new(
        "andy formless fo _ _123 _abc ab123
    abcdefghijklmnopqrstuvwxyzABCDEFGHIJKLMNOPQRSTUVWXYZ1234567890_",
    );
    assert_eq!(l.next(), ident("andy", 0, 0));
    assert_eq!(l.next(), ident("formless", 0, 5));
    assert_eq!(l.next(), ident("fo", 0, 14));
    assert_eq!(l.next(), ident("_", 0, 17));
    assert_eq!(l.next(), ident("_123", 0, 19));
    assert_eq!(l.next(), ident("_abc", 0, 24));
    assert_eq!(l.next(), ident("ab123", 0, 29));
    assert_eq!(
        l.next(),
        ident("abcdefghijklmnopqrstuvwxyzABCDEFGHIJKLMNOPQRSTUVWXYZ1234567890_", 1, 4)
    );
    assert_eq!(l.next(), None);
}

#[test]
fn test_lexer_numbers() {
    let mut l = Lexer::new("123 123.456 .456 123.");
    assert_eq!(number(l.next()), (123.0, 0, 0));
    assert_eq!(number(l.next()), (123.456, 0, 4));
    assert_eq!(l.next(), tok(TokKind::Dot, 0, 12));
    assert_eq!(number(l.next()), (456.0, 0, 13));
    assert_eq!(number(l.next()), (123.0, 0, 17));
    assert_eq!(l.next(), tok(TokKind::Dot, 0, 20));
    assert_eq!(l.next(), None);
}

#[test]
fn test_lexer_whitespace() {
    let mut l = Lexer::new("space    tabs\t\t\t\tnewline\n\n\nend\r\n");
    assert_eq!(l.next(), ident("space", 0, 0));
    assert_eq!(l.next(), ident("tabs", 0, 9));
    assert_eq!(l.next(), ident("newline", 0, 17));
    assert_eq!(l.next(), ident("end", 3, 0));
    assert_eq!(l.next(), None);
}

#[test]
fn test_lexer_keywords() {
    let mut l = Lexer::new(
        "and class else false fn for if
let nil or print return this true while",
    );
    assert_eq!(l.next(), tok(TokKind::And, 0, 0));
    assert_eq!(l.next(), tok(TokKind::Class, 0, 4));
    assert_eq!(l.next(), tok(TokKind::Else, 0, 10));
    assert_eq!(l.next(), tok(TokKind::False, 0, 15));
    assert_eq!(l.next(), tok(TokKind::Fn, 0, 21));
    assert_eq!(l.next(), tok(TokKind::For, 0, 24));
    assert_eq!(l.next(), tok(TokKind::If, 0, 28));
    assert_eq!(l.next(), tok(TokKind::Let, 1, 0));
    assert_eq!(l.next(), tok(TokKind::Nil, 1, 4));
    assert_eq!(l.next(), tok(TokKind::Or, 1, 8));
    assert_eq!(l.next(), tok(TokKind::Print, 1, 11));
    assert_eq!(l.next(), tok(TokKind::Return, 1, 17));
    assert_eq!(l.next(), tok(TokKind::This, 1, 24));
    assert_eq!(l.next(), tok(TokKind::True, 1, 29));
    assert_eq!(l.next(), tok(TokKind::While, 1, 34));
    assert_eq!(l.next(), None);
}

#[test]
fn test_lexer_comments() {
    let src = "foo\n// this is a comment\nbar // another comment\n// third comment\nend";
    let mut l1 = Lexer::new(src);
    let mut l2 = Lexer::new(src);

    assert_eq!(l1.next_raw(), ident("foo", 0, 0));
    assert_eq!(l1.next_raw(), tok(TokKind::Comment, 1, 0));
    assert_eq!(l1.next_raw(), ident("bar", 2, 0));
    assert_eq!(l1.next_raw(), tok(TokKind::Comment, 2, 4));
    assert_eq!(l1.next_raw(), tok(TokKind::Comment, 3, 0));
    assert_eq!(l1.next_raw(), ident("end", 4, 0));
    assert_eq!(l1.next_raw(), None);

    assert_eq!(l2.next(), ident("foo", 0, 0));
    assert_eq!(l2.next(), ident("bar", 2, 0));
    assert_eq!(l2.next(), ident("end", 4, 0));
    assert_eq!(l2.next(), None);
}

#[test]
fn test_lexer_errors() {
    let mut l = Lexer::new(
        r#" foo(bar @ ) "string
true and 1 == 1 "#,
    );
    assert_eq!(l.next(), ident("foo", 0, 1));
    assert_eq!(l.next(), tok(TokKind::LParen, 0, 4));
    assert_eq!(l.next(), ident("bar", 0, 5));
    assert_eq!(l.next(), tok(TokKind::Unexpected, 0, 9));
    assert_eq!(l.next(), tok(TokKind::RParen, 0, 11));
    assert_eq!(l.next(), tok(TokKind::Unterminated, 0, 13));
}

#[test]
fn single_char_tokens_in_order() {
    let src = "(){},.-+;*";
    let toks = tokenize(src);
    let kinds = [
        TokKind::LParen,
        TokKind::RParen,
        TokKind::LBrace,
        TokKind::RBrace,
        TokKind::Comma,
        TokKind::Dot,
        TokKind::Minus,
        TokKind::Plus,
        TokKind::Semicolon,
        TokKind::Star,
    ];
    assert_eq!(toks.len(), kinds.len());
    for (i, (t, k)) in toks.iter().zip(kinds.iter()).enumerate() {
        assert_eq!(&t.kind, k);
        assert_eq!(t.loc, Loc { row: 0, col: i });
    }
}

#[test]
fn comment_runs_to_end_of_input() {
    let toks = tokenize("a // b c");
    assert_eq!(toks, vec![Token { kind: TokKind::Ident("a".to_string()), loc: Loc { row: 0, col: 0 } }]);
    assert!(toks.iter().all(|t| t.kind != TokKind::Comment));
}

#[test]
fn unterminated_string_is_one_last_token() {
    let toks = tokenize("x \"abc\nlet y = 1;");
    assert_eq!(toks.len(), 2);
    assert_eq!(toks[1].kind, TokKind::Unterminated);
    assert_eq!(toks[1].loc, Loc { row: 0, col: 2 });
}

#[test]
fn empty_input_has_no_tokens() {
    assert!(tokenize("").is_empty());
    assert!(tokenize(" \t\r\n ").is_empty());
}

#[test]
fn unicode_space_is_whitespace() {
    let toks = tokenize("a\u{a0}b");
    assert_eq!(toks.len(), 2);
    assert_eq!(toks[1], Token { kind: TokKind::Ident("b".to_string()), loc: Loc { row: 0, col: 2 } });
}
