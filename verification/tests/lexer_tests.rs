use foxash::lexer::{Lexer, Token, TokenKind};

fn lex(source: &str) -> Vec<Token> {
    Lexer::new(source).tokenize().expect("the source should lex")
}

fn kinds(source: &str) -> Vec<TokenKind> {
    lex(source).into_iter().map(|token| token.kind).collect()
}

fn lex_error(source: &str) -> (String, usize, usize) {
    let error = Lexer::new(source).tokenize().expect_err("the source should not lex");
    (error.message, error.line, error.column)
}

fn token(kind: TokenKind, line: usize, column: usize) -> Token {
    Token { kind, line, column }
}

#[test]
fn hello_program_tokens_and_positions() {
    assert_eq!(
        lex("write(\"Hello, Foxash!\")"),
        vec![
            token(TokenKind::Write, 1, 1),
            token(TokenKind::LeftParen, 1, 6),
            token(TokenKind::String("Hello, Foxash!".to_string()), 1, 7),
            token(TokenKind::RightParen, 1, 23),
            token(TokenKind::Eof, 1, 24),
        ]
    );
}

#[test]
fn comments_are_skipped_up_to_the_newline() {
    assert_eq!(
        lex("// note\nwrite(1) // after"),
        vec![
            token(TokenKind::Newline, 1, 8),
            token(TokenKind::Write, 2, 1),
            token(TokenKind::LeftParen, 2, 6),
            token(TokenKind::Number("1".to_string()), 2, 7),
            token(TokenKind::RightParen, 2, 8),
            token(TokenKind::Eof, 2, 18),
        ]
    );
}

#[test]
fn keywords_and_identifiers() {
    assert_eq!(
        kinds("define definer number numbers true _x9 nothing"),
        vec![
            TokenKind::Define,
            TokenKind::Identifier("definer".to_string()),
            TokenKind::NumberType,
            TokenKind::Identifier("numbers".to_string()),
            TokenKind::True,
            TokenKind::Identifier("_x9".to_string()),
            TokenKind::Nothing,
            TokenKind::Eof,
        ]
    );
}

#[test]
fn every_keyword() {
    assert_eq!(
        kinds("write get as when otherwise function give add to save loop restart end and or not false text boolean"),
        vec![
            TokenKind::Write,
            TokenKind::Get,
            TokenKind::As,
            TokenKind::When,
            TokenKind::Otherwise,
            TokenKind::Function,
            TokenKind::Give,
            TokenKind::Add,
            TokenKind::To,
            TokenKind::Save,
            TokenKind::Loop,
            TokenKind::Restart,
            TokenKind::End,
            TokenKind::And,
            TokenKind::Or,
            TokenKind::Not,
            TokenKind::False,
            TokenKind::Text,
            TokenKind::Boolean,
            TokenKind::Eof,
        ]
    );
}

#[test]
fn operators_and_punctuation() {
    assert_eq!(
        kinds("== = != >= > <= < + - * / % ( ) [ ] { } : , ;"),
        vec![
            TokenKind::EqualEqual,
            TokenKind::Equals,
            TokenKind::NotEqual,
            TokenKind::GreaterEqual,
            TokenKind::Greater,
            TokenKind::LessEqual,
            TokenKind::Less,
            TokenKind::Plus,
            TokenKind::Minus,
            TokenKind::Star,
            TokenKind::Slash,
            TokenKind::Percent,
            TokenKind::LeftParen,
            TokenKind::RightParen,
            TokenKind::LeftBracket,
            TokenKind::RightBracket,
            TokenKind::LeftBrace,
            TokenKind::RightBrace,
            TokenKind::Colon,
            TokenKind::Comma,
            TokenKind::Semicolon,
            TokenKind::Eof,
        ]
    );
}

#[test]
fn operators_without_spaces() {
    assert_eq!(
        kinds("a>=1"),
        vec![
            TokenKind::Identifier("a".to_string()),
            TokenKind::GreaterEqual,
            TokenKind::Number("1".to_string()),
            TokenKind::Eof,
        ]
    );
}

#[test]
fn numbers_take_one_decimal_point() {
    assert_eq!(
        kinds("100 1.5 12."),
        vec![
            TokenKind::Number("100".to_string()),
            TokenKind::Number("1.5".to_string()),
            TokenKind::Number("12.".to_string()),
            TokenKind::Eof,
        ]
    );
    assert_eq!(lex_error("1.5.2"), ("Unexpected character '.'".to_string(), 1, 4));
}

#[test]
fn string_escapes() {
    assert_eq!(
        kinds("\"a\\nb\\t\\\"q\\\" \\\\ \\r\\0\""),
        vec![TokenKind::String("a\nb\t\"q\" \\ \r\0".to_string()), TokenKind::Eof]
    );
}

#[test]
fn whitespace_and_carriage_returns_are_skipped() {
    assert_eq!(
        lex(" \t x\r\n"),
        vec![
            token(TokenKind::Identifier("x".to_string()), 1, 4),
            token(TokenKind::Newline, 1, 6),
            token(TokenKind::Eof, 2, 1),
        ]
    );
}

#[test]
fn empty_source_is_only_eof() {
    assert_eq!(lex(""), vec![token(TokenKind::Eof, 1, 1)]);
}

#[test]
fn tokens_always_end_with_a_single_eof() {
    for source in ["", "\n\n", "define x = [1, 2]\nwrite(x[1])", "// only a comment", "loop a[\nend a\n]"] {
        let tokens = lex(source);
        assert_eq!(tokens.last().map(|t| t.kind.clone()), Some(TokenKind::Eof));
        assert_eq!(tokens.iter().filter(|t| t.kind == TokenKind::Eof).count(), 1);
    }
}

#[test]
fn unexpected_characters() {
    assert_eq!(lex_error("x = 1 !"), ("Unexpected character '!'".to_string(), 1, 7));
    assert_eq!(lex_error("\n  @"), ("Unexpected character '@'".to_string(), 2, 3));
}

#[test]
fn string_errors() {
    assert_eq!(lex_error("write(\"abc"), ("Unfinished string".to_string(), 1, 7));
    assert_eq!(lex_error("\"a\\q\""), ("Unknown escape sequence '\\q'".to_string(), 1, 4));
    assert_eq!(lex_error("\"a\\"), ("Unfinished string escape".to_string(), 1, 4));
    assert_eq!(
        lex_error("\"ab\ncd\""),
        ("Strings cannot contain an unescaped newline".to_string(), 1, 4)
    );
}

#[test]
fn tokenize_twice_gives_only_eof() {
    let mut lexer = Lexer::new("x");
    assert_eq!(lexer.tokenize().unwrap().len(), 2);
    assert_eq!(lexer.tokenize().unwrap(), vec![token(TokenKind::Eof, 1, 2)]);
}

#[test]
fn a_trailing_comment_leaves_the_tokens_alone() {
    for code in ["write(\"Hello\")", "define x = 1 + 2", "", "a\nb", "x == 3 // first"] {
        let plain = lex(code);
        let source = format!("{}// This is still a comment", code);
        let commented = lex(&source);
        assert_eq!(commented.len(), plain.len());
        assert_eq!(commented[..plain.len() - 1], plain[..plain.len() - 1]);
        let eof = commented.last().unwrap();
        assert_eq!(eof.kind, TokenKind::Eof);
        let last_line = source.split('\n').last().unwrap();
        assert_eq!(eof.line, source.matches('\n').count() + 1);
        assert_eq!(eof.column, last_line.chars().count() + 1);
    }
}

#[test]
fn a_slash_before_a_comment_joins_it() {
    assert_eq!(kinds("x /"), vec![TokenKind::Identifier("x".to_string()), TokenKind::Slash, TokenKind::Eof]);
    assert_eq!(kinds("x ///"), vec![TokenKind::Identifier("x".to_string()), TokenKind::Eof]);
}

#[test]
fn a_string_cannot_continue_across_a_newline() {
    assert_eq!(
        lex_error("define x = 1\nwrite(\"Line one\nLine two\")"),
        ("Strings cannot contain an unescaped newline".to_string(), 2, 16)
    );
    assert_eq!(
        kinds("write(\"Line one\\nLine two\")"),
        vec![
            TokenKind::Write,
            TokenKind::LeftParen,
            TokenKind::String("Line one\nLine two".to_string()),
            TokenKind::RightParen,
            TokenKind::Eof,
        ]
    );
}

#[test]
fn one_newline_token_per_newline() {
    for source in ["", "a\nb", "// note\nwrite(1) // after\n\n", "x = 1\r\ny = \"a\\nb\"\n// end"] {
        let tokens = lex(source);
        let newline_tokens = tokens.iter().filter(|t| t.kind == TokenKind::Newline).count();
        assert_eq!(newline_tokens, source.chars().filter(|c| *c == '\n').count());
    }
}

#[test]
fn token_places_increase() {
    let source = "define x = [1, 2]\n\n  write(x[1]) // note\nloop a[ end a ]";
    let tokens = lex(source);
    for pair in tokens.windows(2) {
        assert!((pair[0].line, pair[0].column) < (pair[1].line, pair[1].column));
    }
    assert_eq!(tokens.last().unwrap(), &token(TokenKind::Eof, 4, 16));
}

#[test]
fn each_token_sits_at_its_first_character() {
    let source = "define x = \"a b\" // c\n  when x2 >= 10: write([1.5, y])\n";
    let mut places = std::collections::HashMap::new();
    let (mut line, mut column) = (1, 1);
    for c in source.chars() {
        places.insert((line, column), c);
        if c == '\n' {
            line += 1;
            column = 1;
        } else {
            column += 1;
        }
    }
    let tokens = lex(source);
    let (last, rest) = tokens.split_last().unwrap();
    assert_eq!(last, &token(TokenKind::Eof, line, column));
    for t in rest {
        let first = places[&(t.line, t.column)];
        let expected = match &t.kind {
            TokenKind::Newline => '\n',
            TokenKind::String(_) => '"',
            TokenKind::Number(text) | TokenKind::Identifier(text) => text.chars().next().unwrap(),
            TokenKind::Define => 'd',
            TokenKind::When => 'w',
            TokenKind::Write => 'w',
            TokenKind::Equals => '=',
            TokenKind::GreaterEqual => '>',
            TokenKind::Colon => ':',
            TokenKind::LeftParen => '(',
            TokenKind::RightParen => ')',
            TokenKind::LeftBracket => '[',
            TokenKind::RightBracket => ']',
            TokenKind::Comma => ',',
            other => panic!("unexpected token {:?}", other),
        };
        assert_eq!(first, expected, "{:?}", t);
    }
}
