use vstd::prelude::*;

use crate::text::{chars_of, debug_text, matches_text, push_char, str_debug, string_from_chars};

verus! {

/// The kinds of token that the lexer produces.
#[derive(Debug, Clone, PartialEq)]
pub enum TokenKind {
    Identifier(String),
    Number(String),
    String(String),
    Define,
    Write,
    Get,
    As,
    When,
    Otherwise,
    Function,
    Give,
    Add,
    To,
    Save,
    Loop,
    Restart,
    End,
    And,
    Or,
    Not,
    True,
    False,
    Nothing,
    Text,
    NumberType,
    Boolean,
    EqualEqual,
    Equals,
    NotEqual,
    Plus,
    Minus,
    Star,
    Slash,
    Percent,
    Greater,
    Less,
    GreaterEqual,
    LessEqual,
    LeftParen,
    RightParen,
    LeftBracket,
    RightBracket,
    LeftBrace,
    RightBrace,
    Colon,
    Comma,
    Semicolon,
    Newline,
    Eof,
}

/// A token kind, with its text as a sequence of characters.
pub enum TokenKindModel {
    Identifier(Seq<char>),
    Number(Seq<char>),
    String(Seq<char>),
    Define,
    Write,
    Get,
    As,
    When,
    Otherwise,
    Function,
    Give,
    Add,
    To,
    Save,
    Loop,
    Restart,
    End,
    And,
    Or,
    Not,
    True,
    False,
    Nothing,
    Text,
    NumberType,
    Boolean,
    EqualEqual,
    Equals,
    NotEqual,
    Plus,
    Minus,
    Star,
    Slash,
    Percent,
    Greater,
    Less,
    GreaterEqual,
    LessEqual,
    LeftParen,
    RightParen,
    LeftBracket,
    RightBracket,
    LeftBrace,
    RightBrace,
    Colon,
    Comma,
    Semicolon,
    Newline,
    Eof,
}

impl View for TokenKind {
    type V = TokenKindModel;

    open spec fn view(&self) -> TokenKindModel {
        match self {
            TokenKind::Identifier(text) => TokenKindModel::Identifier(text@),
            TokenKind::Number(text) => TokenKindModel::Number(text@),
            TokenKind::String(text) => TokenKindModel::String(text@),
            TokenKind::Define => TokenKindModel::Define,
            TokenKind::Write => TokenKindModel::Write,
            TokenKind::Get => TokenKindModel::Get,
            TokenKind::As => TokenKindModel::As,
            TokenKind::When => TokenKindModel::When,
            TokenKind::Otherwise => TokenKindModel::Otherwise,
            TokenKind::Function => TokenKindModel::Function,
            TokenKind::Give => TokenKindModel::Give,
            TokenKind::Add => TokenKindModel::Add,
            TokenKind::To => TokenKindModel::To,
            TokenKind::Save => TokenKindModel::Save,
            TokenKind::Loop => TokenKindModel::Loop,
            TokenKind::Restart => TokenKindModel::Restart,
            TokenKind::End => TokenKindModel::End,
            TokenKind::And => TokenKindModel::And,
            TokenKind::Or => TokenKindModel::Or,
            TokenKind::Not => TokenKindModel::Not,
            TokenKind::True => TokenKindModel::True,
            TokenKind::False => TokenKindModel::False,
            TokenKind::Nothing => TokenKindModel::Nothing,
            TokenKind::Text => TokenKindModel::Text,
            TokenKind::NumberType => TokenKindModel::NumberType,
            TokenKind::Boolean => TokenKindModel::Boolean,
            TokenKind::EqualEqual => TokenKindModel::EqualEqual,
            TokenKind::Equals => TokenKindModel::Equals,
            TokenKind::NotEqual => TokenKindModel::NotEqual,
            TokenKind::Plus => TokenKindModel::Plus,
            TokenKind::Minus => TokenKindModel::Minus,
            TokenKind::Star => TokenKindModel::Star,
            TokenKind::Slash => TokenKindModel::Slash,
            TokenKind::Percent => TokenKindModel::Percent,
            TokenKind::Greater => TokenKindModel::Greater,
            TokenKind::Less => TokenKindModel::Less,
            TokenKind::GreaterEqual => TokenKindModel::GreaterEqual,
            TokenKind::LessEqual => TokenKindModel::LessEqual,
            TokenKind::LeftParen => TokenKindModel::LeftParen,
            TokenKind::RightParen => TokenKindModel::RightParen,
            TokenKind::LeftBracket => TokenKindModel::LeftBracket,
            TokenKind::RightBracket => TokenKindModel::RightBracket,
            TokenKind::LeftBrace => TokenKindModel::LeftBrace,
            TokenKind::RightBrace => TokenKindModel::RightBrace,
            TokenKind::Colon => TokenKindModel::Colon,
            TokenKind::Comma => TokenKindModel::Comma,
            TokenKind::Semicolon => TokenKindModel::Semicolon,
            TokenKind::Newline => TokenKindModel::Newline,
            TokenKind::Eof => TokenKindModel::Eof,
        }
    }
}

/// A token: its kind and the line and column (both counted from 1) where it starts.
#[derive(Debug, Clone, PartialEq)]
pub struct Token {
    pub kind: TokenKind,
    pub line: usize,
    pub column: usize,
}

/// The mathematical form of a token.
pub struct TokenModel {
    pub kind: TokenKindModel,
    pub line: int,
    pub column: int,
}

impl View for Token {
    type V = TokenModel;

    open spec fn view(&self) -> TokenModel {
        TokenModel { kind: self.kind@, line: self.line as int, column: self.column as int }
    }
}

/// An error that stops the lexer: its message and where it was found.
#[derive(Debug, Clone)]
pub struct LexerError {
    pub message: String,
    pub line: usize,
    pub column: usize,
}

/// The mathematical form of a lexer error.
pub struct LexErrorModel {
    pub message: Seq<char>,
    pub line: int,
    pub column: int,
}

impl View for LexerError {
    type V = LexErrorModel;

    open spec fn view(&self) -> LexErrorModel {
        LexErrorModel { message: self.message@, line: self.line as int, column: self.column as int }
    }
}

// ---------------------------------------------------------------------------
// What the lexer computes.
// ---------------------------------------------------------------------------

/// The line (counted from 1) of position `p` in `s`.
pub open spec fn line_at(s: Seq<char>, p: int) -> int
    decreases p,
{
    if p <= 0 {
        1
    } else if s[p - 1] == '\n' {
        line_at(s, p - 1) + 1
    } else {
        line_at(s, p - 1)
    }
}

/// The column (counted from 1) of position `p` in `s`.
pub open spec fn column_at(s: Seq<char>, p: int) -> int
    decreases p,
{
    if p <= 0 {
        1
    } else if s[p - 1] == '\n' {
        1
    } else {
        column_at(s, p - 1) + 1
    }
}

pub open spec fn token_at(kind: TokenKindModel, s: Seq<char>, p: int) -> TokenModel {
    TokenModel { kind, line: line_at(s, p), column: column_at(s, p) }
}

pub open spec fn lex_error_at(message: Seq<char>, s: Seq<char>, p: int) -> LexErrorModel {
    LexErrorModel { message, line: line_at(s, p), column: column_at(s, p) }
}

pub open spec fn is_digit(c: char) -> bool {
    '0' <= c <= '9'
}

pub open spec fn is_identifier_start(c: char) -> bool {
    ('a' <= c <= 'z') || ('A' <= c <= 'Z') || c == '_'
}

pub open spec fn is_identifier_char(c: char) -> bool {
    is_identifier_start(c) || is_digit(c)
}

/// Where a number that continues at `p` ends; `dot` says whether it already holds a '.'.
pub open spec fn number_end(s: Seq<char>, p: int, dot: bool) -> int
    decreases s.len() - p,
{
    if 0 <= p < s.len() && (is_digit(s[p]) || (s[p] == '.' && !dot)) {
        number_end(s, p + 1, dot || s[p] == '.')
    } else {
        p
    }
}

/// Where a word that continues at `p` ends.
pub open spec fn identifier_end(s: Seq<char>, p: int) -> int
    decreases s.len() - p,
{
    if 0 <= p < s.len() && is_identifier_char(s[p]) {
        identifier_end(s, p + 1)
    } else {
        p
    }
}

/// Where a comment whose text continues at `p` ends: at the next newline, or at the end.
pub open spec fn comment_end(s: Seq<char>, p: int) -> int
    decreases s.len() - p,
{
    if 0 <= p < s.len() && s[p] != '\n' {
        comment_end(s, p + 1)
    } else {
        p
    }
}

/// The token kind of a word: its keyword, or an identifier.
pub open spec fn keyword_kind(w: Seq<char>) -> TokenKindModel {
    if w == "define"@ {
        TokenKindModel::Define
    } else if w == "write"@ {
        TokenKindModel::Write
    } else if w == "get"@ {
        TokenKindModel::Get
    } else if w == "as"@ {
        TokenKindModel::As
    } else if w == "when"@ {
        TokenKindModel::When
    } else if w == "otherwise"@ {
        TokenKindModel::Otherwise
    } else if w == "function"@ {
        TokenKindModel::Function
    } else if w == "give"@ {
        TokenKindModel::Give
    } else if w == "add"@ {
        TokenKindModel::Add
    } else if w == "to"@ {
        TokenKindModel::To
    } else if w == "save"@ {
        TokenKindModel::Save
    } else if w == "loop"@ {
        TokenKindModel::Loop
    } else if w == "restart"@ {
        TokenKindModel::Restart
    } else if w == "end"@ {
        TokenKindModel::End
    } else if w == "and"@ {
        TokenKindModel::And
    } else if w == "or"@ {
        TokenKindModel::Or
    } else if w == "not"@ {
        TokenKindModel::Not
    } else if w == "true"@ {
        TokenKindModel::True
    } else if w == "false"@ {
        TokenKindModel::False
    } else if w == "nothing"@ {
        TokenKindModel::Nothing
    } else if w == "text"@ {
        TokenKindModel::Text
    } else if w == "number"@ {
        TokenKindModel::NumberType
    } else if w == "boolean"@ {
        TokenKindModel::Boolean
    } else {
        TokenKindModel::Identifier(w)
    }
}

/// The character that `\c` stands for inside a string, if `c` names an escape.
pub open spec fn escaped(c: char) -> Option<char> {
    if c == 'n' {
        Some('\n')
    } else if c == 't' {
        Some('\t')
    } else if c == 'r' {
        Some('\r')
    } else if c == '"' {
        Some('"')
    } else if c == '\\' {
        Some('\\')
    } else if c == '0' {
        Some('\0')
    } else {
        None
    }
}

pub open spec fn unexpected_message(c: char) -> Seq<char> {
    "Unexpected character '"@.push(c) + "'"@
}

pub open spec fn unknown_escape_message(c: char) -> Seq<char> {
    "Unknown escape sequence '\\"@.push(c) + "'"@
}

/// The text of a string literal that continues at `q` (its opening quote is at `start`),
/// and the position just after its closing quote.
pub open spec fn string_rest(s: Seq<char>, start: int, q: int) -> Result<(Seq<char>, int), LexErrorModel>
    decreases s.len() - q,
{
    if q < 0 || q >= s.len() {
        Err(lex_error_at("Unfinished string"@, s, start))
    } else if s[q] == '"' {
        Ok((Seq::empty(), q + 1))
    } else if s[q] == '\\' {
        if q + 1 >= s.len() {
            Err(lex_error_at("Unfinished string escape"@, s, q + 1))
        } else {
            match escaped(s[q + 1]) {
                Some(e) => match string_rest(s, start, q + 2) {
                    Ok((t, r)) => Ok((seq![e] + t, r)),
                    Err(x) => Err(x),
                },
                None => Err(lex_error_at(unknown_escape_message(s[q + 1]), s, q + 1)),
            }
        }
    } else if s[q] == '\n' {
        Err(lex_error_at("Strings cannot contain an unescaped newline"@, s, q))
    } else {
        match string_rest(s, start, q + 1) {
            Ok((t, r)) => Ok((seq![s[q]] + t, r)),
            Err(x) => Err(x),
        }
    }
}

/// The text of a string literal that continues at `q`, and the position just after its
/// closing quote; a string left unfinished is reported at `line` and `column`, where the
/// string started.
pub open spec fn string_at(s: Seq<char>, line: int, column: int, q: int) -> Result<(Seq<char>, int), LexErrorModel>
    decreases s.len() - q,
{
    if q < 0 || q >= s.len() {
        Err(LexErrorModel { message: "Unfinished string"@, line, column })
    } else if s[q] == '"' {
        Ok((Seq::empty(), q + 1))
    } else if s[q] == '\\' {
        if q + 1 >= s.len() {
            Err(lex_error_at("Unfinished string escape"@, s, q + 1))
        } else {
            match escaped(s[q + 1]) {
                Some(e) => match string_at(s, line, column, q + 2) {
                    Ok((t, r)) => Ok((seq![e] + t, r)),
                    Err(x) => Err(x),
                },
                None => Err(lex_error_at(unknown_escape_message(s[q + 1]), s, q + 1)),
            }
        }
    } else if s[q] == '\n' {
        Err(lex_error_at("Strings cannot contain an unescaped newline"@, s, q))
    } else {
        match string_at(s, line, column, q + 1) {
            Ok((t, r)) => Ok((seq![s[q]] + t, r)),
            Err(x) => Err(x),
        }
    }
}

proof fn lemma_string_at(s: Seq<char>, start: int, q: int)
    ensures
        string_at(s, line_at(s, start), column_at(s, start), q) == string_rest(s, start, q),
    decreases s.len() - q,
{
    if 0 <= q < s.len() {
        lemma_string_at(s, start, q + 1);
        if q + 2 <= s.len() {
            lemma_string_at(s, start, q + 2);
        }
    }
}

/// The operator or punctuation token at `p`, with the number of characters it takes.
pub open spec fn symbol_at(s: Seq<char>, p: int) -> Option<(TokenKindModel, int)> {
    let c = s[p];
    let next_is_equals = p + 1 < s.len() && s[p + 1] == '=';
    if c == '=' {
        if next_is_equals {
            Some((TokenKindModel::EqualEqual, 2))
        } else {
            Some((TokenKindModel::Equals, 1))
        }
    } else if c == '!' {
        if next_is_equals {
            Some((TokenKindModel::NotEqual, 2))
        } else {
            None
        }
    } else if c == '>' {
        if next_is_equals {
            Some((TokenKindModel::GreaterEqual, 2))
        } else {
            Some((TokenKindModel::Greater, 1))
        }
    } else if c == '<' {
        if next_is_equals {
            Some((TokenKindModel::LessEqual, 2))
        } else {
            Some((TokenKindModel::Less, 1))
        }
    } else if c == '+' {
        Some((TokenKindModel::Plus, 1))
    } else if c == '-' {
        Some((TokenKindModel::Minus, 1))
    } else if c == '*' {
        Some((TokenKindModel::Star, 1))
    } else if c == '/' {
        Some((TokenKindModel::Slash, 1))
    } else if c == '%' {
        Some((TokenKindModel::Percent, 1))
    } else if c == '(' {
        Some((TokenKindModel::LeftParen, 1))
    } else if c == ')' {
        Some((TokenKindModel::RightParen, 1))
    } else if c == '[' {
        Some((TokenKindModel::LeftBracket, 1))
    } else if c == ']' {
        Some((TokenKindModel::RightBracket, 1))
    } else if c == '{' {
        Some((TokenKindModel::LeftBrace, 1))
    } else if c == '}' {
        Some((TokenKindModel::RightBrace, 1))
    } else if c == ':' {
        Some((TokenKindModel::Colon, 1))
    } else if c == ',' {
        Some((TokenKindModel::Comma, 1))
    } else if c == ';' {
        Some((TokenKindModel::Semicolon, 1))
    } else {
        None
    }
}

/// `t` in front of the tokens of `rest`, or the error of `rest`.
pub open spec fn with_token(t: TokenModel, rest: Result<Seq<TokenModel>, LexErrorModel>) -> Result<Seq<TokenModel>, LexErrorModel> {
    match rest {
        Ok(ts) => Ok(seq![t] + ts),
        Err(e) => Err(e),
    }
}

/// `prefix` in front of the tokens of `rest`, or the error of `rest`.
pub open spec fn with_tokens(prefix: Seq<TokenModel>, rest: Result<Seq<TokenModel>, LexErrorModel>) -> Result<Seq<TokenModel>, LexErrorModel> {
    match rest {
        Ok(ts) => Ok(prefix + ts),
        Err(e) => Err(e),
    }
}

pub proof fn lemma_comment_end(s: Seq<char>, p: int)
    requires
        0 <= p <= s.len(),
    ensures
        p <= comment_end(s, p) <= s.len(),
    decreases s.len() - p,
{
    if p < s.len() {
        lemma_comment_end(s, p + 1);
    }
}

pub proof fn lemma_identifier_end(s: Seq<char>, p: int)
    requires
        0 <= p <= s.len(),
    ensures
        p <= identifier_end(s, p) <= s.len(),
    decreases s.len() - p,
{
    if p < s.len() {
        lemma_identifier_end(s, p + 1);
    }
}

pub proof fn lemma_number_end(s: Seq<char>, p: int, dot: bool)
    requires
        0 <= p <= s.len(),
    ensures
        p <= number_end(s, p, dot) <= s.len(),
    decreases s.len() - p,
{
    if p < s.len() {
        lemma_number_end(s, p + 1, dot || s[p] == '.');
    }
}

pub proof fn lemma_string_rest(s: Seq<char>, start: int, q: int)
    requires
        0 <= q <= s.len(),
    ensures
        string_rest(s, start, q) matches Ok((_, r)) ==> q < r <= s.len(),
    decreases s.len() - q,
{
    if q + 1 <= s.len() {
        lemma_string_rest(s, start, q + 1);
    }
    if q + 2 <= s.len() {
        lemma_string_rest(s, start, q + 2);
    }
}

/// The tokens of `s` from position `p` on, ending with `Eof`; or the first error.
pub open spec fn lex_from(s: Seq<char>, p: int) -> Result<Seq<TokenModel>, LexErrorModel>
    decreases s.len() - p,
{
    if p < 0 || p >= s.len() {
        Ok(seq![token_at(TokenKindModel::Eof, s, p)])
    } else {
        proof {
            lemma_string_rest(s, p, p + 1);
            lemma_number_end(s, p + 1, false);
            lemma_number_end(s, p + 1, true);
            lemma_identifier_end(s, p + 1);
            if p + 2 <= s.len() {
                lemma_comment_end(s, p + 2);
            }
        }
        let c = s[p];
        if c == ' ' || c == '\t' || c == '\r' {
            lex_from(s, p + 1)
        } else if c == '\n' {
            with_token(token_at(TokenKindModel::Newline, s, p), lex_from(s, p + 1))
        } else if c == '/' && p + 1 < s.len() && s[p + 1] == '/' {
            lex_from(s, comment_end(s, p + 2))
        } else if c == '"' {
            match string_rest(s, p, p + 1) {
                Ok((text, q)) => with_token(token_at(TokenKindModel::String(text), s, p), lex_from(s, q)),
                Err(e) => Err(e),
            }
        } else if is_digit(c) {
            let q = number_end(s, p, false);
            with_token(token_at(TokenKindModel::Number(s.subrange(p, q)), s, p), lex_from(s, q))
        } else if is_identifier_start(c) {
            let q = identifier_end(s, p);
            with_token(token_at(keyword_kind(s.subrange(p, q)), s, p), lex_from(s, q))
        } else {
            match symbol_at(s, p) {
                Some((k, w)) => if 1 <= w {
                    with_token(token_at(k, s, p), lex_from(s, p + w))
                } else {
                    Err(lex_error_at(unexpected_message(c), s, p))
                },
                None => Err(lex_error_at(unexpected_message(c), s, p)),
            }
        }
    }
}


/// Every successful run of the lexer ends with exactly one `Eof` token, placed at the end of
/// the source: every other token is not `Eof`.
pub proof fn lemma_lex_ends_with_eof(s: Seq<char>, p: int)
    requires
        0 <= p <= s.len(),
    ensures
        lex_from(s, p) matches Ok(ts) ==> {
            &&& ts.len() >= 1
            &&& ts.last() == token_at(TokenKindModel::Eof, s, s.len() as int)
            &&& forall|i: int| 0 <= i < ts.len() - 1 ==> !(#[trigger] ts[i].kind is Eof)
        },
    decreases s.len() - p,
{
    if p < s.len() {
        lemma_string_rest(s, p, p + 1);
        lemma_number_end(s, p + 1, false);
        lemma_number_end(s, p + 1, true);
        lemma_identifier_end(s, p + 1);
        if p + 2 <= s.len() {
            lemma_comment_end(s, p + 2);
        }
        let c = s[p];
        if c == ' ' || c == '\t' || c == '\r' {
            lemma_lex_ends_with_eof(s, p + 1);
        } else if c == '\n' {
            lemma_lex_ends_with_eof(s, p + 1);
            lemma_with_token_keeps_eof(token_at(TokenKindModel::Newline, s, p), lex_from(s, p + 1), s);
        } else if c == '/' && p + 1 < s.len() && s[p + 1] == '/' {
            lemma_lex_ends_with_eof(s, comment_end(s, p + 2));
        } else if c == '"' {
            match string_rest(s, p, p + 1) {
                Ok((text, q)) => {
                    lemma_lex_ends_with_eof(s, q);
                    lemma_with_token_keeps_eof(token_at(TokenKindModel::String(text), s, p), lex_from(s, q), s);
                },
                Err(_) => {},
            }
        } else if is_digit(c) {
            let q = number_end(s, p, false);
            lemma_lex_ends_with_eof(s, q);
            lemma_with_token_keeps_eof(token_at(TokenKindModel::Number(s.subrange(p, q)), s, p), lex_from(s, q), s);
        } else if is_identifier_start(c) {
            let q = identifier_end(s, p);
            lemma_lex_ends_with_eof(s, q);
            lemma_keyword_is_not_eof(s.subrange(p, q));
            lemma_with_token_keeps_eof(token_at(keyword_kind(s.subrange(p, q)), s, p), lex_from(s, q), s);
        } else {
            match symbol_at(s, p) {
                Some((k, w)) => {
                    if 1 <= w {
                        lemma_lex_ends_with_eof(s, p + w);
                        lemma_with_token_keeps_eof(token_at(k, s, p), lex_from(s, p + w), s);
                    }
                },
                None => {},
            }
        }
    }
}

proof fn lemma_keyword_is_not_eof(w: Seq<char>)
    ensures
        !(keyword_kind(w) is Eof),
{
}

proof fn lemma_with_token_keeps_eof(t: TokenModel, rest: Result<Seq<TokenModel>, LexErrorModel>, s: Seq<char>)
    requires
        !(t.kind is Eof),
        rest matches Ok(ts) ==> {
            &&& ts.len() >= 1
            &&& ts.last() == token_at(TokenKindModel::Eof, s, s.len() as int)
            &&& forall|i: int| 0 <= i < ts.len() - 1 ==> !(#[trigger] ts[i].kind is Eof)
        },
    ensures
        with_token(t, rest) matches Ok(ts) ==> {
            &&& ts.len() >= 1
            &&& ts.last() == token_at(TokenKindModel::Eof, s, s.len() as int)
            &&& forall|i: int| 0 <= i < ts.len() - 1 ==> !(#[trigger] ts[i].kind is Eof)
        },
{
    match rest {
        Ok(ts) => {
            let all = seq![t] + ts;
            assert forall|i: int| 0 <= i < all.len() - 1 implies !(#[trigger] all[i].kind is Eof) by {
                if i > 0 {
                    assert(all[i] == ts[i - 1]);
                }
            }
        },
        Err(_) => {},
    }
}

proof fn lemma_string_meets_newline(s: Seq<char>, start: int, q: int, k: int)
    requires
        0 <= q <= k < s.len(),
        s[k] == '\n',
        forall|j: int| q <= j < k ==> #[trigger] s[j] != '"' && s[j] != '\\' && s[j] != '\n',
    ensures
        string_rest(s, start, q) == Err::<(Seq<char>, int), LexErrorModel>(
            lex_error_at("Strings cannot contain an unescaped newline"@, s, k),
        ),
    decreases k - q,
{
    if q < k {
        lemma_string_meets_newline(s, start, q + 1, k);
    }
}

/// Strings cannot continue across an unescaped newline: a string whose text reaches a newline
/// before its closing quote (and before any `\`) is an error, placed at that newline.
pub proof fn law_string_stops_at_newline(s: Seq<char>, p: int, k: int)
    requires
        0 <= p < k < s.len(),
        s[p] == '"',
        s[k] == '\n',
        forall|j: int| p < j < k ==> #[trigger] s[j] != '"' && s[j] != '\\' && s[j] != '\n',
    ensures
        lex_from(s, p) == Err::<Seq<TokenModel>, LexErrorModel>(
            lex_error_at("Strings cannot contain an unescaped newline"@, s, k),
        ),
{
    lemma_string_meets_newline(s, p, p + 1, k);
}

/// The number of newline characters of `s` from position `p` on.
pub open spec fn newlines_from(s: Seq<char>, p: int) -> nat
    decreases s.len() - p,
{
    if p < 0 || p >= s.len() {
        0
    } else {
        (if s[p] == '\n' { 1nat } else { 0nat }) + newlines_from(s, p + 1)
    }
}

/// The number of `Newline` tokens among `ts`.
pub open spec fn newline_tokens(ts: Seq<TokenModel>) -> nat
    decreases ts.len(),
{
    if ts.len() == 0 {
        0
    } else {
        (if ts[0].kind is Newline { 1nat } else { 0nat }) + newline_tokens(ts.drop_first())
    }
}

proof fn lemma_newline_tokens_front(t: TokenModel, ts: Seq<TokenModel>)
    ensures
        newline_tokens(seq![t] + ts) == (if t.kind is Newline { 1nat } else { 0nat }) + newline_tokens(ts),
{
    assert((seq![t] + ts).drop_first() =~= ts);
}

proof fn lemma_no_newline_between(s: Seq<char>, p: int, q: int)
    requires
        0 <= p <= q <= s.len(),
        forall|j: int| p <= j < q ==> #[trigger] s[j] != '\n',
    ensures
        newlines_from(s, p) == newlines_from(s, q),
    decreases q - p,
{
    if p < q {
        lemma_no_newline_between(s, p + 1, q);
    }
}

proof fn lemma_comment_has_no_newline(s: Seq<char>, p: int)
    requires
        0 <= p <= s.len(),
    ensures
        forall|j: int| p <= j < comment_end(s, p) ==> #[trigger] s[j] != '\n',
    decreases s.len() - p,
{
    if p < s.len() {
        lemma_comment_has_no_newline(s, p + 1);
    }
}

proof fn lemma_number_has_no_newline(s: Seq<char>, p: int, dot: bool)
    requires
        0 <= p <= s.len(),
    ensures
        forall|j: int| p <= j < number_end(s, p, dot) ==> #[trigger] s[j] != '\n',
    decreases s.len() - p,
{
    if p < s.len() {
        lemma_number_has_no_newline(s, p + 1, dot || s[p] == '.');
    }
}

proof fn lemma_identifier_has_no_newline(s: Seq<char>, p: int)
    requires
        0 <= p <= s.len(),
    ensures
        forall|j: int| p <= j < identifier_end(s, p) ==> #[trigger] s[j] != '\n',
    decreases s.len() - p,
{
    if p < s.len() {
        lemma_identifier_has_no_newline(s, p + 1);
    }
}

proof fn lemma_string_has_no_newline(s: Seq<char>, start: int, q: int)
    requires
        0 <= q <= s.len(),
    ensures
        string_rest(s, start, q) matches Ok((_, r)) ==> forall|j: int| q <= j < r ==> #[trigger] s[j] != '\n',
    decreases s.len() - q,
{
    lemma_string_rest(s, start, q);
    if q + 1 <= s.len() {
        lemma_string_rest(s, start, q + 1);
        lemma_string_has_no_newline(s, start, q + 1);
    }
    if q + 2 <= s.len() {
        lemma_string_rest(s, start, q + 2);
        lemma_string_has_no_newline(s, start, q + 2);
    }
}

proof fn lemma_newline_count(s: Seq<char>, p: int)
    requires
        0 <= p <= s.len(),
    ensures
        lex_from(s, p) matches Ok(ts) ==> newline_tokens(ts) == newlines_from(s, p),
    decreases s.len() - p,
{
    if p >= s.len() {
        let t = token_at(TokenKindModel::Eof, s, p);
        lemma_newline_tokens_front(t, Seq::empty());
        assert(seq![t] + Seq::<TokenModel>::empty() =~= seq![t]);
    } else if lex_from(s, p) is Ok {
        lemma_string_rest(s, p, p + 1);
        lemma_number_end(s, p + 1, false);
        lemma_number_end(s, p + 1, true);
        lemma_identifier_end(s, p + 1);
        if p + 2 <= s.len() {
            lemma_comment_end(s, p + 2);
        }
        let c = s[p];
        if c == ' ' || c == '\t' || c == '\r' {
            lemma_newline_count(s, p + 1);
        } else if c == '\n' {
            lemma_newline_count(s, p + 1);
            lemma_newline_tokens_front(token_at(TokenKindModel::Newline, s, p), lex_from(s, p + 1)->Ok_0);
        } else if c == '/' && p + 1 < s.len() && s[p + 1] == '/' {
            let q = comment_end(s, p + 2);
            lemma_comment_has_no_newline(s, p + 2);
            lemma_no_newline_between(s, p, q);
            lemma_newline_count(s, q);
        } else if c == '"' {
            let (text, q) = string_rest(s, p, p + 1)->Ok_0;
            lemma_string_has_no_newline(s, p, p + 1);
            lemma_no_newline_between(s, p, q);
            lemma_newline_count(s, q);
            lemma_newline_tokens_front(token_at(TokenKindModel::String(text), s, p), lex_from(s, q)->Ok_0);
        } else if is_digit(c) {
            let q = number_end(s, p, false);
            lemma_number_has_no_newline(s, p, false);
            lemma_no_newline_between(s, p, q);
            lemma_newline_count(s, q);
            lemma_newline_tokens_front(
                token_at(TokenKindModel::Number(s.subrange(p, q)), s, p),
                lex_from(s, q)->Ok_0,
            );
        } else if is_identifier_start(c) {
            let q = identifier_end(s, p);
            lemma_identifier_has_no_newline(s, p);
            lemma_no_newline_between(s, p, q);
            lemma_newline_count(s, q);
            lemma_keyword_is_not_newline(s.subrange(p, q));
            lemma_newline_tokens_front(token_at(keyword_kind(s.subrange(p, q)), s, p), lex_from(s, q)->Ok_0);
        } else {
            let (k, w) = symbol_at(s, p)->Some_0;
            lemma_no_newline_between(s, p, p + w);
            lemma_newline_count(s, p + w);
            lemma_newline_tokens_front(token_at(k, s, p), lex_from(s, p + w)->Ok_0);
        }
    }
}

proof fn lemma_keyword_is_not_newline(w: Seq<char>)
    ensures
        !(keyword_kind(w) is Newline),
{
}

/// Every newline of the source, also one that ends a `//` comment, gives exactly one
/// `Newline` token: a successful run of the lexer has as many `Newline` tokens as the source
/// has newline characters.
pub proof fn law_one_newline_token_per_newline(s: Seq<char>)
    ensures
        tokenize_model(s) matches Ok(ts) ==> newline_tokens(ts) == newlines_from(s, 0),
{
    lemma_newline_count(s, 0);
}

/// Whether the place (`line1`, `column1`) comes before (`line2`, `column2`): on an earlier
/// line, or further left on the same line.
pub open spec fn earlier(line1: int, column1: int, line2: int, column2: int) -> bool {
    line1 < line2 || (line1 == line2 && column1 < column2)
}

proof fn lemma_positions_advance(s: Seq<char>, a: int, b: int)
    requires
        0 <= a < b <= s.len(),
    ensures
        earlier(line_at(s, a), column_at(s, a), line_at(s, b), column_at(s, b)),
    decreases b - a,
{
    if a + 1 < b {
        lemma_positions_advance(s, a, b - 1);
    }
}

/// The tokens of `ts` are in order of their places, and none comes before position `p`.
pub open spec fn in_order_from(ts: Seq<TokenModel>, s: Seq<char>, p: int) -> bool {
    &&& forall|i: int, j: int| #![trigger ts[i], ts[j]] 0 <= i < j < ts.len() ==> earlier(
        ts[i].line,
        ts[i].column,
        ts[j].line,
        ts[j].column,
    )
    &&& forall|i: int| #![trigger ts[i]] 0 <= i < ts.len() ==> !earlier(
        ts[i].line,
        ts[i].column,
        line_at(s, p),
        column_at(s, p),
    )
}

proof fn lemma_in_order_front(t: TokenModel, ts: Seq<TokenModel>, s: Seq<char>, p: int, q: int)
    requires
        0 <= p < q <= s.len(),
        t.line == line_at(s, p),
        t.column == column_at(s, p),
        in_order_from(ts, s, q),
    ensures
        in_order_from(seq![t] + ts, s, p),
{
    lemma_positions_advance(s, p, q);
    let all = seq![t] + ts;
    assert forall|i: int, j: int| #![trigger all[i], all[j]] 0 <= i < j < all.len() implies earlier(
        all[i].line,
        all[i].column,
        all[j].line,
        all[j].column,
    ) by {
        assert(all[j] == ts[j - 1]);
        if i > 0 {
            assert(all[i] == ts[i - 1]);
        }
    }
    assert forall|i: int| #![trigger all[i]] 0 <= i < all.len() implies !earlier(
        all[i].line,
        all[i].column,
        line_at(s, p),
        column_at(s, p),
    ) by {
        if i > 0 {
            assert(all[i] == ts[i - 1]);
        }
    }
}

proof fn lemma_in_order_later(ts: Seq<TokenModel>, s: Seq<char>, p: int, q: int)
    requires
        0 <= p < q <= s.len(),
        in_order_from(ts, s, q),
    ensures
        in_order_from(ts, s, p),
{
    lemma_positions_advance(s, p, q);
}

proof fn lemma_lex_in_order(s: Seq<char>, p: int)
    requires
        0 <= p <= s.len(),
    ensures
        lex_from(s, p) matches Ok(ts) ==> in_order_from(ts, s, p),
    decreases s.len() - p,
{
    if p < s.len() && lex_from(s, p) is Ok {
        lemma_string_rest(s, p, p + 1);
        lemma_number_end(s, p + 1, false);
        lemma_number_end(s, p + 1, true);
        lemma_identifier_end(s, p + 1);
        if p + 2 <= s.len() {
            lemma_comment_end(s, p + 2);
        }
        let c = s[p];
        if c == ' ' || c == '\t' || c == '\r' {
            lemma_lex_in_order(s, p + 1);
            lemma_in_order_later(lex_from(s, p + 1)->Ok_0, s, p, p + 1);
        } else if c == '\n' {
            lemma_lex_in_order(s, p + 1);
            lemma_in_order_front(token_at(TokenKindModel::Newline, s, p), lex_from(s, p + 1)->Ok_0, s, p, p + 1);
        } else if c == '/' && p + 1 < s.len() && s[p + 1] == '/' {
            let q = comment_end(s, p + 2);
            lemma_lex_in_order(s, q);
            lemma_in_order_later(lex_from(s, q)->Ok_0, s, p, q);
        } else if c == '"' {
            let (text, q) = string_rest(s, p, p + 1)->Ok_0;
            lemma_lex_in_order(s, q);
            lemma_in_order_front(token_at(TokenKindModel::String(text), s, p), lex_from(s, q)->Ok_0, s, p, q);
        } else if is_digit(c) {
            let q = number_end(s, p, false);
            lemma_lex_in_order(s, q);
            lemma_in_order_front(
                token_at(TokenKindModel::Number(s.subrange(p, q)), s, p),
                lex_from(s, q)->Ok_0,
                s,
                p,
                q,
            );
        } else if is_identifier_start(c) {
            let q = identifier_end(s, p);
            lemma_lex_in_order(s, q);
            lemma_in_order_front(token_at(keyword_kind(s.subrange(p, q)), s, p), lex_from(s, q)->Ok_0, s, p, q);
        } else {
            let (k, w) = symbol_at(s, p)->Some_0;
            lemma_lex_in_order(s, p + w);
            lemma_in_order_front(token_at(k, s, p), lex_from(s, p + w)->Ok_0, s, p, p + w);
        }
    }
}

/// Tokens come in the order of their places in the source: each token's line and column
/// (those of its first character; for `Eof`, of the end) come strictly after those of the
/// token before it.
pub proof fn law_token_positions_increase(s: Seq<char>)
    ensures
        tokenize_model(s) matches Ok(ts) ==> forall|i: int, j: int| #![trigger ts[i], ts[j]]
            0 <= i < j < ts.len() ==> earlier(ts[i].line, ts[i].column, ts[j].line, ts[j].column),
{
    lemma_lex_in_order(s, 0);
}

/// The token that the characters of `s` from `q` on begin with, when they begin one: a
/// newline, a string, a number, a word (a keyword or an identifier) or a symbol.
pub open spec fn token_starting_at(s: Seq<char>, q: int) -> Option<TokenKindModel> {
    let c = s[q];
    if c == '\n' {
        Some(TokenKindModel::Newline)
    } else if c == '"' {
        match string_rest(s, q, q + 1) {
            Ok((text, _)) => Some(TokenKindModel::String(text)),
            Err(_) => None,
        }
    } else if is_digit(c) {
        Some(TokenKindModel::Number(s.subrange(q, number_end(s, q, false))))
    } else if is_identifier_start(c) {
        Some(keyword_kind(s.subrange(q, identifier_end(s, q))))
    } else {
        match symbol_at(s, q) {
            Some((k, _)) => Some(k),
            None => None,
        }
    }
}

/// Each token of `ts` but the last is the token that begins at some position `q >= p` of `s`,
/// and carries the line and column of that position: those of its first character.
pub open spec fn placed_from(ts: Seq<TokenModel>, s: Seq<char>, p: int) -> bool {
    forall|i: int| #![trigger ts[i]] 0 <= i < ts.len() - 1 ==> exists|q: int|
        p <= q < s.len() && token_starting_at(s, q) == Some(ts[i].kind) && ts[i] == token_at(ts[i].kind, s, q)
}

proof fn lemma_placed_front(t: TokenModel, ts: Seq<TokenModel>, s: Seq<char>, p: int, q: int)
    requires
        0 <= p < q,
        p < s.len(),
        ts.len() >= 1,
        token_starting_at(s, p) == Some(t.kind),
        t == token_at(t.kind, s, p),
        placed_from(ts, s, q),
    ensures
        placed_from(seq![t] + ts, s, p),
{
    let all = seq![t] + ts;
    assert forall|i: int| #![trigger all[i]] 0 <= i < all.len() - 1 implies exists|r: int|
        p <= r < s.len() && token_starting_at(s, r) == Some(all[i].kind) && all[i] == token_at(all[i].kind, s, r) by {
        if i == 0 {
            assert(all[0] == t);
            assert(p <= p < s.len() && token_starting_at(s, p) == Some(all[0].kind) && all[0] == token_at(all[0].kind, s, p));
        } else {
            assert(all[i] == ts[i - 1]);
            let r = choose|r: int| q <= r < s.len() && token_starting_at(s, r) == Some(ts[i - 1].kind) && ts[i - 1] == token_at(ts[i - 1].kind, s, r);
            assert(p <= r < s.len() && token_starting_at(s, r) == Some(all[i].kind) && all[i] == token_at(all[i].kind, s, r));
        }
    }
}

proof fn lemma_placed_later(ts: Seq<TokenModel>, s: Seq<char>, p: int, q: int)
    requires
        p <= q,
        placed_from(ts, s, q),
    ensures
        placed_from(ts, s, p),
{
    assert forall|i: int| #![trigger ts[i]] 0 <= i < ts.len() - 1 implies exists|r: int|
        p <= r < s.len() && token_starting_at(s, r) == Some(ts[i].kind) && ts[i] == token_at(ts[i].kind, s, r) by {
        let r = choose|r: int| q <= r < s.len() && token_starting_at(s, r) == Some(ts[i].kind) && ts[i] == token_at(ts[i].kind, s, r);
        assert(p <= r < s.len() && token_starting_at(s, r) == Some(ts[i].kind) && ts[i] == token_at(ts[i].kind, s, r));
    }
}

proof fn lemma_lex_placed(s: Seq<char>, p: int)
    requires
        0 <= p <= s.len(),
    ensures
        lex_from(s, p) matches Ok(ts) ==> placed_from(ts, s, p),
    decreases s.len() - p,
{
    if p < s.len() && lex_from(s, p) is Ok {
        lemma_string_rest(s, p, p + 1);
        lemma_number_end(s, p + 1, false);
        lemma_number_end(s, p + 1, true);
        lemma_identifier_end(s, p + 1);
        if p + 2 <= s.len() {
            lemma_comment_end(s, p + 2);
        }
        let c = s[p];
        if c == ' ' || c == '\t' || c == '\r' {
            lemma_lex_placed(s, p + 1);
            lemma_placed_later(lex_from(s, p + 1)->Ok_0, s, p, p + 1);
        } else if c == '\n' {
            lemma_lex_placed(s, p + 1);
            lemma_lex_ends_with_eof(s, p + 1);
            lemma_placed_front(token_at(TokenKindModel::Newline, s, p), lex_from(s, p + 1)->Ok_0, s, p, p + 1);
        } else if c == '/' && p + 1 < s.len() && s[p + 1] == '/' {
            let q = comment_end(s, p + 2);
            lemma_lex_placed(s, q);
            lemma_placed_later(lex_from(s, q)->Ok_0, s, p, q);
        } else if c == '"' {
            let (text, q) = string_rest(s, p, p + 1)->Ok_0;
            lemma_lex_placed(s, q);
            lemma_lex_ends_with_eof(s, q);
            lemma_placed_front(token_at(TokenKindModel::String(text), s, p), lex_from(s, q)->Ok_0, s, p, q);
        } else if is_digit(c) {
            let q = number_end(s, p, false);
            lemma_lex_placed(s, q);
            lemma_lex_ends_with_eof(s, q);
            lemma_placed_front(
                token_at(TokenKindModel::Number(s.subrange(p, q)), s, p),
                lex_from(s, q)->Ok_0,
                s,
                p,
                q,
            );
        } else if is_identifier_start(c) {
            let q = identifier_end(s, p);
            lemma_lex_placed(s, q);
            lemma_lex_ends_with_eof(s, q);
            lemma_placed_front(token_at(keyword_kind(s.subrange(p, q)), s, p), lex_from(s, q)->Ok_0, s, p, q);
        } else {
            let (k, w) = symbol_at(s, p)->Some_0;
            lemma_lex_placed(s, p + w);
            lemma_lex_ends_with_eof(s, p + w);
            lemma_placed_front(token_at(k, s, p), lex_from(s, p + w)->Ok_0, s, p, p + w);
        }
    }
}

proof fn lemma_line_and_column(s: Seq<char>, q: int)
    requires
        0 <= q <= s.len(),
    ensures
        line_at(s, q) == 1 + newlines_from(s.take(q), 0),
        1 <= column_at(s, q) <= q + 1,
        forall|j: int| q - column_at(s, q) + 1 <= j < q ==> #[trigger] s[j] != '\n',
        q - column_at(s, q) + 1 == 0 || s[q - column_at(s, q)] == '\n',
    decreases q,
{
    if q > 0 {
        lemma_line_and_column(s, q - 1);
        lemma_newlines_push(s.take(q - 1), s[q - 1]);
        assert(s.take(q - 1).push(s[q - 1]) =~= s.take(q));
    } else {
        assert(s.take(0).len() == 0);
    }
}

proof fn lemma_newlines_from_shift(x: Seq<char>, c: char, p: int)
    requires
        0 <= p <= x.len(),
    ensures
        newlines_from(x.push(c), p) == newlines_from(x, p) + (if c == '\n' { 1nat } else { 0nat }),
    decreases x.len() - p,
{
    if p < x.len() {
        lemma_newlines_from_shift(x, c, p + 1);
        assert(x.push(c)[p] == x[p]);
    } else {
        assert(x.push(c)[p] == c);
        assert(newlines_from(x.push(c), p + 1) == 0);
        assert(newlines_from(x, p) == 0);
    }
}

proof fn lemma_newlines_push(x: Seq<char>, c: char)
    ensures
        newlines_from(x.push(c), 0) == newlines_from(x, 0) + (if c == '\n' { 1nat } else { 0nat }),
{
    lemma_newlines_from_shift(x, c, 0);
}

/// Each token carries the place of its first character: every token but the last is the
/// token that begins at some position `q` of the source, with the line and column of `q`,
/// and the last is `Eof`, at the end of the source. A position's line is one more than the
/// number of newlines before it; its column is one more than the number of characters since
/// the last newline before it (or since the start).
pub proof fn law_tokens_sit_at_their_first_character(s: Seq<char>)
    ensures
        tokenize_model(s) matches Ok(ts) ==> {
            &&& ts.len() >= 1
            &&& ts.last() == token_at(TokenKindModel::Eof, s, s.len() as int)
            &&& forall|i: int| #![trigger ts[i]] 0 <= i < ts.len() - 1 ==> exists|q: int|
                0 <= q < s.len() && token_starting_at(s, q) == Some(ts[i].kind) && ts[i] == token_at(
                    ts[i].kind,
                    s,
                    q,
                )
        },
        forall|q: int| 0 <= q <= s.len() ==> #[trigger] line_at(s, q) == 1 + newlines_from(s.take(q), 0),
        forall|q: int, j: int| #![trigger column_at(s, q), s[j]]
            0 <= q <= s.len() && q - column_at(s, q) + 1 <= j < q ==> s[j] != '\n',
        forall|q: int| 0 <= q <= s.len() ==> 1 <= #[trigger] column_at(s, q) <= q + 1 && (q - column_at(s, q) + 1 == 0
            || s[q - column_at(s, q)] == '\n'),
{
    lemma_lex_placed(s, 0);
    lemma_lex_ends_with_eof(s, 0);
    assert forall|q: int| 0 <= q <= s.len() implies #[trigger] line_at(s, q) == 1 + newlines_from(s.take(q), 0) by {
        lemma_line_and_column(s, q);
    }
    assert forall|q: int, j: int| #![trigger column_at(s, q), s[j]]
        0 <= q <= s.len() && q - column_at(s, q) + 1 <= j < q implies s[j] != '\n' by {
        lemma_line_and_column(s, q);
    }
    assert forall|q: int| 0 <= q <= s.len() implies 1 <= #[trigger] column_at(s, q) <= q + 1 && (q - column_at(s, q) + 1 == 0
        || s[q - column_at(s, q)] == '\n') by {
        lemma_line_and_column(s, q);
    }
}

/// Whether a '.' stands in `s` between `p` (included) and `j` (excluded).
pub open spec fn has_dot(s: Seq<char>, p: int, j: int) -> bool {
    exists|k: int| p <= k < j && s[k] == '.'
}

proof fn lemma_number_run_end(s: Seq<char>, p: int, q: int, j: int, dot: bool)
    requires
        0 <= p <= j <= q <= s.len(),
        forall|k: int| p <= k < q ==> ('0' <= #[trigger] s[k] <= '9') || s[k] == '.',
        forall|k: int, m: int| p <= k < m < q && #[trigger] s[k] == '.' ==> #[trigger] s[m] != '.',
        q == s.len() || !(('0' <= s[q] <= '9') || (s[q] == '.' && !has_dot(s, p, q))),
        dot == has_dot(s, p, j),
    ensures
        number_end(s, j, dot) == q,
    decreases q - j,
{
    if j < q {
        if s[j] == '.' {
            if dot {
                let k = choose|k: int| p <= k < j && s[k] == '.';
                assert(s[k] == '.');
            }
            assert(has_dot(s, p, j + 1)) by {
                assert(p <= j < j + 1 && s[j] == '.');
            }
        } else {
            assert(has_dot(s, p, j + 1) == has_dot(s, p, j)) by {
                if has_dot(s, p, j + 1) {
                    let k = choose|k: int| p <= k < j + 1 && s[k] == '.';
                    assert(k < j);
                }
            }
        }
        lemma_number_run_end(s, p, q, j + 1, dot || s[j] == '.');
    } else {
        assert(dot == has_dot(s, p, q));
    }
}

/// A number is one token holding its whole text: a run of digits, with at most one '.', that
/// starts with a digit and goes as far as it can lexes as a single `Number` token whose text is
/// the whole run, placed at its first digit; lexing then goes on after the run.
pub proof fn law_number_is_one_token(s: Seq<char>, p: int, q: int)
    requires
        0 <= p < q <= s.len(),
        '0' <= s[p] <= '9',
        forall|k: int| p <= k < q ==> ('0' <= #[trigger] s[k] <= '9') || s[k] == '.',
        forall|k: int, m: int| p <= k < m < q && #[trigger] s[k] == '.' ==> #[trigger] s[m] != '.',
        q == s.len() || !(('0' <= s[q] <= '9') || (s[q] == '.' && !has_dot(s, p, q))),
    ensures
        lex_from(s, p) == with_token(token_at(TokenKindModel::Number(s.subrange(p, q)), s, p), lex_from(s, q)),
{
    assert(!has_dot(s, p, p));
    lemma_number_run_end(s, p, q, p, false);
}

/// A letter of the English alphabet, either case, or '_'.
pub open spec fn word_start_char(c: char) -> bool {
    c == '_' || ('A' <= c <= 'Z') || ('a' <= c <= 'z')
}

/// A character that may continue a word: a letter, a digit or '_'.
pub open spec fn word_char(c: char) -> bool {
    word_start_char(c) || ('0' <= c <= '9')
}

proof fn lemma_word_end(s: Seq<char>, j: int, q: int)
    requires
        0 <= j <= q <= s.len(),
        forall|k: int| j <= k < q ==> word_char(#[trigger] s[k]),
        q == s.len() || !word_char(s[q]),
    ensures
        identifier_end(s, j) == q,
    decreases q - j,
{
    if j < q {
        lemma_word_end(s, j + 1, q);
    }
}

/// A word is one token: a run of letters (either case), digits and '_' that starts with a
/// letter or '_' and goes as far as it can lexes as a single token, placed at its first
/// character, whose kind is the one that the whole word names; lexing then goes on after it.
pub proof fn law_word_is_one_token(s: Seq<char>, p: int, q: int)
    requires
        0 <= p < q <= s.len(),
        word_start_char(s[p]),
        forall|k: int| p <= k < q ==> word_char(#[trigger] s[k]),
        q == s.len() || !word_char(s[q]),
    ensures
        lex_from(s, p) == with_token(token_at(keyword_kind(s.subrange(p, q)), s, p), lex_from(s, q)),
{
    lemma_word_end(s, p, q);
}

/// Keywords are written in lower case: a word holding an upper-case letter is always an
/// identifier, holding the whole word.
pub proof fn law_capitalised_words_are_identifiers(w: Seq<char>, k: int)
    requires
        0 <= k < w.len(),
        'A' <= w[k] <= 'Z',
    ensures
        keyword_kind(w) == TokenKindModel::Identifier(w),
{
    reveal_strlit("define");
    reveal_strlit("write");
    reveal_strlit("get");
    reveal_strlit("as");
    reveal_strlit("when");
    reveal_strlit("otherwise");
    reveal_strlit("function");
    reveal_strlit("give");
    reveal_strlit("add");
    reveal_strlit("to");
    reveal_strlit("save");
    reveal_strlit("loop");
    reveal_strlit("restart");
    reveal_strlit("end");
    reveal_strlit("and");
    reveal_strlit("or");
    reveal_strlit("not");
    reveal_strlit("true");
    reveal_strlit("false");
    reveal_strlit("nothing");
    reveal_strlit("text");
    reveal_strlit("number");
    reveal_strlit("boolean");
}

/// `full` is `code` with a comment written after it: `//` and a text without a newline.
pub open spec fn code_then_comment(code: Seq<char>, full: Seq<char>) -> bool {
    &&& full.len() >= code.len() + 2
    &&& forall|i: int| 0 <= i < code.len() ==> #[trigger] full[i] == code[i]
    &&& full[code.len() as int] == '/'
    &&& full[code.len() + 1int] == '/'
    &&& forall|j: int| code.len() <= j < full.len() ==> #[trigger] full[j] != '\n'
}

proof fn lemma_positions_prefix(code: Seq<char>, full: Seq<char>, p: int)
    requires
        code_then_comment(code, full),
        0 <= p <= code.len(),
    ensures
        line_at(full, p) == line_at(code, p),
        column_at(full, p) == column_at(code, p),
    decreases p,
{
    if p > 0 {
        lemma_positions_prefix(code, full, p - 1);
        assert(full[p - 1] == code[p - 1]);
    }
}

proof fn lemma_number_end_prefix(code: Seq<char>, full: Seq<char>, p: int, dot: bool)
    requires
        code_then_comment(code, full),
        0 <= p <= code.len(),
    ensures
        number_end(full, p, dot) == number_end(code, p, dot),
    decreases code.len() - p,
{
    if p < code.len() {
        assert(full[p] == code[p]);
        lemma_number_end_prefix(code, full, p + 1, dot || code[p] == '.');
    }
}

proof fn lemma_identifier_end_prefix(code: Seq<char>, full: Seq<char>, p: int)
    requires
        code_then_comment(code, full),
        0 <= p <= code.len(),
    ensures
        identifier_end(full, p) == identifier_end(code, p),
    decreases code.len() - p,
{
    if p < code.len() {
        assert(full[p] == code[p]);
        lemma_identifier_end_prefix(code, full, p + 1);
    }
}

proof fn lemma_comment_end_after(full: Seq<char>, q: int, start: int)
    requires
        0 <= start <= q <= full.len(),
        forall|j: int| start <= j < full.len() ==> #[trigger] full[j] != '\n',
    ensures
        comment_end(full, q) == full.len(),
    decreases full.len() - q,
{
    if q < full.len() {
        lemma_comment_end_after(full, q + 1, start);
    }
}

proof fn lemma_comment_end_prefix(code: Seq<char>, full: Seq<char>, p: int)
    requires
        code_then_comment(code, full),
        0 <= p <= code.len(),
    ensures
        comment_end(code, p) < code.len() ==> comment_end(full, p) == comment_end(code, p),
        comment_end(code, p) >= code.len() ==> comment_end(full, p) == full.len(),
    decreases code.len() - p,
{
    if p < code.len() {
        assert(full[p] == code[p]);
        lemma_comment_end_prefix(code, full, p + 1);
    } else {
        lemma_comment_end_after(full, p, code.len() as int);
    }
}

proof fn lemma_string_rest_prefix(code: Seq<char>, full: Seq<char>, start: int, q: int)
    requires
        code_then_comment(code, full),
        0 <= q <= code.len(),
        string_rest(code, start, q) is Ok,
    ensures
        string_rest(full, start, q) == string_rest(code, start, q),
    decreases code.len() - q,
{
    if q < code.len() {
        assert(full[q] == code[q]);
        if code[q] == '\\' {
            if q + 1 < code.len() {
                assert(full[q + 1] == code[q + 1]);
                if escaped(code[q + 1]) is Some {
                    lemma_string_rest_prefix(code, full, start, q + 2);
                }
            }
        } else if code[q] != '"' && code[q] != '\n' {
            lemma_string_rest_prefix(code, full, start, q + 1);
        }
    }
}

/// `t` in front of tokens that end with `Eof`: the `Eof` can be moved without touching `t`.
proof fn lemma_with_token_moves_eof(t: TokenModel, ts: Seq<TokenModel>, eof: TokenModel)
    requires
        ts.len() >= 1,
    ensures
        (seq![t] + ts).drop_last().push(eof) == seq![t] + ts.drop_last().push(eof),
{
    assert((seq![t] + ts).drop_last().push(eof) =~= seq![t] + ts.drop_last().push(eof));
}

proof fn lemma_lex_with_comment(code: Seq<char>, full: Seq<char>, p: int)
    requires
        code_then_comment(code, full),
        code.len() == 0 || code.last() != '/',
        0 <= p <= code.len(),
    ensures
        lex_from(code, p) matches Ok(ts) ==> lex_from(full, p) == Ok::<Seq<TokenModel>, LexErrorModel>(
            ts.drop_last().push(token_at(TokenKindModel::Eof, full, full.len() as int)),
        ),
    decreases code.len() - p,
{
    let eof = token_at(TokenKindModel::Eof, full, full.len() as int);
    lemma_positions_prefix(code, full, p);
    if p == code.len() {
        lemma_comment_end_after(full, p + 2, code.len() as int);
        assert(lex_from(full, full.len() as int) == Ok::<Seq<TokenModel>, LexErrorModel>(seq![eof]));
        assert(seq![token_at(TokenKindModel::Eof, code, p)].drop_last().push(eof) =~= seq![eof]);
    } else if lex_from(code, p) is Ok {
        lemma_string_rest(code, p, p + 1);
        lemma_number_end(code, p + 1, false);
        lemma_number_end(code, p + 1, true);
        lemma_identifier_end(code, p + 1);
        if p + 2 <= code.len() {
            lemma_comment_end(code, p + 2);
        }
        let c = code[p];
        assert(full[p] == c);
        if p + 1 < code.len() {
            assert(full[p + 1] == code[p + 1]);
        }
        if c == ' ' || c == '\t' || c == '\r' {
            lemma_lex_with_comment(code, full, p + 1);
        } else if c == '\n' {
            lemma_lex_with_comment(code, full, p + 1);
            lemma_lex_ends_with_eof(code, p + 1);
            lemma_with_token_moves_eof(token_at(TokenKindModel::Newline, code, p), lex_from(code, p + 1)->Ok_0, eof);
        } else if c == '/' && p + 1 < code.len() && code[p + 1] == '/' {
            lemma_comment_end_prefix(code, full, p + 2);
            let q = comment_end(code, p + 2);
            if q < code.len() {
                lemma_lex_with_comment(code, full, q);
            } else {
                assert(q == code.len());
                assert(lex_from(full, full.len() as int) == Ok::<Seq<TokenModel>, LexErrorModel>(seq![eof]));
                assert(seq![token_at(TokenKindModel::Eof, code, q)].drop_last().push(eof) =~= seq![eof]);
            }
        } else if c == '"' {
            lemma_string_rest_prefix(code, full, p, p + 1);
            let (text, q) = string_rest(code, p, p + 1)->Ok_0;
            lemma_lex_with_comment(code, full, q);
            lemma_lex_ends_with_eof(code, q);
            lemma_with_token_moves_eof(token_at(TokenKindModel::String(text), code, p), lex_from(code, q)->Ok_0, eof);
        } else if is_digit(c) {
            lemma_number_end_prefix(code, full, p, false);
            let q = number_end(code, p, false);
            assert(full.subrange(p, q) =~= code.subrange(p, q));
            lemma_lex_with_comment(code, full, q);
            lemma_lex_ends_with_eof(code, q);
            lemma_with_token_moves_eof(
                token_at(TokenKindModel::Number(code.subrange(p, q)), code, p),
                lex_from(code, q)->Ok_0,
                eof,
            );
        } else if is_identifier_start(c) {
            lemma_identifier_end_prefix(code, full, p);
            let q = identifier_end(code, p);
            assert(full.subrange(p, q) =~= code.subrange(p, q));
            lemma_lex_with_comment(code, full, q);
            lemma_lex_ends_with_eof(code, q);
            lemma_with_token_moves_eof(token_at(keyword_kind(code.subrange(p, q)), code, p), lex_from(code, q)->Ok_0, eof);
        } else {
            if p + 1 == code.len() {
                assert(c == code.last());
            }
            assert(symbol_at(full, p) == symbol_at(code, p));
            let (k, w) = symbol_at(code, p)->Some_0;
            lemma_lex_with_comment(code, full, p + w);
            lemma_lex_ends_with_eof(code, p + w);
            lemma_with_token_moves_eof(token_at(k, code, p), lex_from(code, p + w)->Ok_0, eof);
        }
    }
}

/// Comments can come after code: writing `//` and a text without a newline after code that
/// lexes leaves its tokens as they were; only `Eof` moves to the new end of the source. (Code
/// that ends in `/` is left out: that `/` and the comment's first one make a comment.)
pub proof fn law_trailing_comment_is_ignored(code: Seq<char>, text: Seq<char>)
    requires
        lex_from(code, 0) is Ok,
        code.len() == 0 || code.last() != '/',
        forall|j: int| 0 <= j < text.len() ==> text[j] != '\n',
    ensures
        ({
            let full = code + seq!['/', '/'] + text;
            lex_from(full, 0) == Ok::<Seq<TokenModel>, LexErrorModel>(
                lex_from(code, 0)->Ok_0.drop_last().push(
                    token_at(TokenKindModel::Eof, full, full.len() as int),
                ),
            )
        }),
{
    let full = code + seq!['/', '/'] + text;
    assert forall|j: int| code.len() <= j < full.len() implies #[trigger] full[j] != '\n' by {
        if j >= code.len() + 2 {
            assert(full[j] == text[j - code.len() - 2]);
        }
    }
    assert(code_then_comment(code, full));
    lemma_lex_with_comment(code, full, 0);
}

/// The tokens of the whole of `s`.
pub open spec fn tokenize_model(s: Seq<char>) -> Result<Seq<TokenModel>, LexErrorModel> {
    lex_from(s, 0)
}


/// The variant of a token kind, as a number: two kinds have the same variant exactly when
/// their numbers are equal.
#[verifier::opaque]
pub open spec fn kind_tag(k: TokenKindModel) -> int {
    match k {
        TokenKindModel::Identifier(_) => 0,
        TokenKindModel::Number(_) => 1,
        TokenKindModel::String(_) => 2,
        TokenKindModel::Define => 3,
        TokenKindModel::Write => 4,
        TokenKindModel::Get => 5,
        TokenKindModel::As => 6,
        TokenKindModel::When => 7,
        TokenKindModel::Otherwise => 8,
        TokenKindModel::Function => 9,
        TokenKindModel::Give => 10,
        TokenKindModel::Add => 11,
        TokenKindModel::To => 12,
        TokenKindModel::Save => 13,
        TokenKindModel::Loop => 14,
        TokenKindModel::Restart => 15,
        TokenKindModel::End => 16,
        TokenKindModel::And => 17,
        TokenKindModel::Or => 18,
        TokenKindModel::Not => 19,
        TokenKindModel::True => 20,
        TokenKindModel::False => 21,
        TokenKindModel::Nothing => 22,
        TokenKindModel::Text => 23,
        TokenKindModel::NumberType => 24,
        TokenKindModel::Boolean => 25,
        TokenKindModel::EqualEqual => 26,
        TokenKindModel::Equals => 27,
        TokenKindModel::NotEqual => 28,
        TokenKindModel::Plus => 29,
        TokenKindModel::Minus => 30,
        TokenKindModel::Star => 31,
        TokenKindModel::Slash => 32,
        TokenKindModel::Percent => 33,
        TokenKindModel::Greater => 34,
        TokenKindModel::Less => 35,
        TokenKindModel::GreaterEqual => 36,
        TokenKindModel::LessEqual => 37,
        TokenKindModel::LeftParen => 38,
        TokenKindModel::RightParen => 39,
        TokenKindModel::LeftBracket => 40,
        TokenKindModel::RightBracket => 41,
        TokenKindModel::LeftBrace => 42,
        TokenKindModel::RightBrace => 43,
        TokenKindModel::Colon => 44,
        TokenKindModel::Comma => 45,
        TokenKindModel::Semicolon => 46,
        TokenKindModel::Newline => 47,
        TokenKindModel::Eof => 48,
    }
}

/// How a token kind is written by its `Debug` form.
#[verifier::opaque]
pub open spec fn kind_debug(k: TokenKindModel) -> Seq<char> {
    match k {
        TokenKindModel::Identifier(t) => "Identifier("@ + str_debug(t) + ")"@,
        TokenKindModel::Number(t) => "Number("@ + str_debug(t) + ")"@,
        TokenKindModel::String(t) => "String("@ + str_debug(t) + ")"@,
        TokenKindModel::Define => "Define"@,
        TokenKindModel::Write => "Write"@,
        TokenKindModel::Get => "Get"@,
        TokenKindModel::As => "As"@,
        TokenKindModel::When => "When"@,
        TokenKindModel::Otherwise => "Otherwise"@,
        TokenKindModel::Function => "Function"@,
        TokenKindModel::Give => "Give"@,
        TokenKindModel::Add => "Add"@,
        TokenKindModel::To => "To"@,
        TokenKindModel::Save => "Save"@,
        TokenKindModel::Loop => "Loop"@,
        TokenKindModel::Restart => "Restart"@,
        TokenKindModel::End => "End"@,
        TokenKindModel::And => "And"@,
        TokenKindModel::Or => "Or"@,
        TokenKindModel::Not => "Not"@,
        TokenKindModel::True => "True"@,
        TokenKindModel::False => "False"@,
        TokenKindModel::Nothing => "Nothing"@,
        TokenKindModel::Text => "Text"@,
        TokenKindModel::NumberType => "NumberType"@,
        TokenKindModel::Boolean => "Boolean"@,
        TokenKindModel::EqualEqual => "EqualEqual"@,
        TokenKindModel::Equals => "Equals"@,
        TokenKindModel::NotEqual => "NotEqual"@,
        TokenKindModel::Plus => "Plus"@,
        TokenKindModel::Minus => "Minus"@,
        TokenKindModel::Star => "Star"@,
        TokenKindModel::Slash => "Slash"@,
        TokenKindModel::Percent => "Percent"@,
        TokenKindModel::Greater => "Greater"@,
        TokenKindModel::Less => "Less"@,
        TokenKindModel::GreaterEqual => "GreaterEqual"@,
        TokenKindModel::LessEqual => "LessEqual"@,
        TokenKindModel::LeftParen => "LeftParen"@,
        TokenKindModel::RightParen => "RightParen"@,
        TokenKindModel::LeftBracket => "LeftBracket"@,
        TokenKindModel::RightBracket => "RightBracket"@,
        TokenKindModel::LeftBrace => "LeftBrace"@,
        TokenKindModel::RightBrace => "RightBrace"@,
        TokenKindModel::Colon => "Colon"@,
        TokenKindModel::Comma => "Comma"@,
        TokenKindModel::Semicolon => "Semicolon"@,
        TokenKindModel::Newline => "Newline"@,
        TokenKindModel::Eof => "Eof"@,
    }
}

/// Whether `a` and `b` are of the same variant.
pub fn same_variant(a: &TokenKind, b: &TokenKind) -> (r: bool)
    ensures
        r == (kind_tag(a@) == kind_tag(b@)),
{
    proof {
        reveal(kind_tag);
    }
    match (a, b) {
        (TokenKind::Identifier(_), TokenKind::Identifier(_)) => true,
        (TokenKind::Number(_), TokenKind::Number(_)) => true,
        (TokenKind::String(_), TokenKind::String(_)) => true,
        (TokenKind::Define, TokenKind::Define) => true,
        (TokenKind::Write, TokenKind::Write) => true,
        (TokenKind::Get, TokenKind::Get) => true,
        (TokenKind::As, TokenKind::As) => true,
        (TokenKind::When, TokenKind::When) => true,
        (TokenKind::Otherwise, TokenKind::Otherwise) => true,
        (TokenKind::Function, TokenKind::Function) => true,
        (TokenKind::Give, TokenKind::Give) => true,
        (TokenKind::Add, TokenKind::Add) => true,
        (TokenKind::To, TokenKind::To) => true,
        (TokenKind::Save, TokenKind::Save) => true,
        (TokenKind::Loop, TokenKind::Loop) => true,
        (TokenKind::Restart, TokenKind::Restart) => true,
        (TokenKind::End, TokenKind::End) => true,
        (TokenKind::And, TokenKind::And) => true,
        (TokenKind::Or, TokenKind::Or) => true,
        (TokenKind::Not, TokenKind::Not) => true,
        (TokenKind::True, TokenKind::True) => true,
        (TokenKind::False, TokenKind::False) => true,
        (TokenKind::Nothing, TokenKind::Nothing) => true,
        (TokenKind::Text, TokenKind::Text) => true,
        (TokenKind::NumberType, TokenKind::NumberType) => true,
        (TokenKind::Boolean, TokenKind::Boolean) => true,
        (TokenKind::EqualEqual, TokenKind::EqualEqual) => true,
        (TokenKind::Equals, TokenKind::Equals) => true,
        (TokenKind::NotEqual, TokenKind::NotEqual) => true,
        (TokenKind::Plus, TokenKind::Plus) => true,
        (TokenKind::Minus, TokenKind::Minus) => true,
        (TokenKind::Star, TokenKind::Star) => true,
        (TokenKind::Slash, TokenKind::Slash) => true,
        (TokenKind::Percent, TokenKind::Percent) => true,
        (TokenKind::Greater, TokenKind::Greater) => true,
        (TokenKind::Less, TokenKind::Less) => true,
        (TokenKind::GreaterEqual, TokenKind::GreaterEqual) => true,
        (TokenKind::LessEqual, TokenKind::LessEqual) => true,
        (TokenKind::LeftParen, TokenKind::LeftParen) => true,
        (TokenKind::RightParen, TokenKind::RightParen) => true,
        (TokenKind::LeftBracket, TokenKind::LeftBracket) => true,
        (TokenKind::RightBracket, TokenKind::RightBracket) => true,
        (TokenKind::LeftBrace, TokenKind::LeftBrace) => true,
        (TokenKind::RightBrace, TokenKind::RightBrace) => true,
        (TokenKind::Colon, TokenKind::Colon) => true,
        (TokenKind::Comma, TokenKind::Comma) => true,
        (TokenKind::Semicolon, TokenKind::Semicolon) => true,
        (TokenKind::Newline, TokenKind::Newline) => true,
        (TokenKind::Eof, TokenKind::Eof) => true,
        _ => false,
    }
}

/// The `Debug` form of a token kind.
pub fn describe_kind(k: &TokenKind) -> (r: String)
    ensures
        r@ == kind_debug(k@),
{
    proof {
        reveal(kind_debug);
    }
    match k {
        TokenKind::Identifier(t) => {
            let mut r = String::from_str("Identifier(");
            r.append(debug_text(t.as_str()).as_str());
            r.append(")");
            r
        },
        TokenKind::Number(t) => {
            let mut r = String::from_str("Number(");
            r.append(debug_text(t.as_str()).as_str());
            r.append(")");
            r
        },
        TokenKind::String(t) => {
            let mut r = String::from_str("String(");
            r.append(debug_text(t.as_str()).as_str());
            r.append(")");
            r
        },
        TokenKind::Define => String::from_str("Define"),
        TokenKind::Write => String::from_str("Write"),
        TokenKind::Get => String::from_str("Get"),
        TokenKind::As => String::from_str("As"),
        TokenKind::When => String::from_str("When"),
        TokenKind::Otherwise => String::from_str("Otherwise"),
        TokenKind::Function => String::from_str("Function"),
        TokenKind::Give => String::from_str("Give"),
        TokenKind::Add => String::from_str("Add"),
        TokenKind::To => String::from_str("To"),
        TokenKind::Save => String::from_str("Save"),
        TokenKind::Loop => String::from_str("Loop"),
        TokenKind::Restart => String::from_str("Restart"),
        TokenKind::End => String::from_str("End"),
        TokenKind::And => String::from_str("And"),
        TokenKind::Or => String::from_str("Or"),
        TokenKind::Not => String::from_str("Not"),
        TokenKind::True => String::from_str("True"),
        TokenKind::False => String::from_str("False"),
        TokenKind::Nothing => String::from_str("Nothing"),
        TokenKind::Text => String::from_str("Text"),
        TokenKind::NumberType => String::from_str("NumberType"),
        TokenKind::Boolean => String::from_str("Boolean"),
        TokenKind::EqualEqual => String::from_str("EqualEqual"),
        TokenKind::Equals => String::from_str("Equals"),
        TokenKind::NotEqual => String::from_str("NotEqual"),
        TokenKind::Plus => String::from_str("Plus"),
        TokenKind::Minus => String::from_str("Minus"),
        TokenKind::Star => String::from_str("Star"),
        TokenKind::Slash => String::from_str("Slash"),
        TokenKind::Percent => String::from_str("Percent"),
        TokenKind::Greater => String::from_str("Greater"),
        TokenKind::Less => String::from_str("Less"),
        TokenKind::GreaterEqual => String::from_str("GreaterEqual"),
        TokenKind::LessEqual => String::from_str("LessEqual"),
        TokenKind::LeftParen => String::from_str("LeftParen"),
        TokenKind::RightParen => String::from_str("RightParen"),
        TokenKind::LeftBracket => String::from_str("LeftBracket"),
        TokenKind::RightBracket => String::from_str("RightBracket"),
        TokenKind::LeftBrace => String::from_str("LeftBrace"),
        TokenKind::RightBrace => String::from_str("RightBrace"),
        TokenKind::Colon => String::from_str("Colon"),
        TokenKind::Comma => String::from_str("Comma"),
        TokenKind::Semicolon => String::from_str("Semicolon"),
        TokenKind::Newline => String::from_str("Newline"),
        TokenKind::Eof => String::from_str("Eof"),
    }
}

/// For a kind `b` that carries no text, a kind is of the variant of `b` exactly when it is `b`.
pub proof fn lemma_same_variant_simple(a: TokenKindModel, b: TokenKindModel)
    requires
        !(b is Identifier),
        !(b is Number),
        !(b is String),
    ensures
        (kind_tag(a) == kind_tag(b)) == (a == b),
{
    reveal(kind_tag);
}

/// The models of a sequence of tokens.
pub open spec fn tokens_model(ts: Seq<Token>) -> Seq<TokenModel> {
    ts.map_values(|t: Token| t@)
}

/// The model of what `tokenize` returns.
pub open spec fn lexed(r: Result<Vec<Token>, LexerError>) -> Result<Seq<TokenModel>, LexErrorModel> {
    match r {
        Ok(ts) => Ok(tokens_model(ts@)),
        Err(e) => Err(e@),
    }
}

/// Every token list that the lexer gives for a whole source holds exactly one `Eof`, and it is
/// the last token.
pub proof fn law_tokenize_ends_with_one_eof(s: Seq<char>, ts: Seq<Token>)
    requires
        tokenize_model(s) == Ok::<Seq<TokenModel>, LexErrorModel>(tokens_model(ts)),
    ensures
        ts.len() >= 1,
        ts.last().kind is Eof,
        forall|i: int| 0 <= i < ts.len() - 1 ==> !(#[trigger] ts[i].kind is Eof),
{
    lemma_lex_ends_with_eof(s, 0);
    let ms = tokens_model(ts);
    assert(ms.len() == ts.len());
    assert(ms.last() == ts.last()@);
    assert forall|i: int| 0 <= i < ts.len() - 1 implies !(#[trigger] ts[i].kind is Eof) by {
        assert(ms[i] == ts[i]@);
        assert(!(ms[i].kind is Eof));
        assert(ms[i].kind == ts[i].kind@);
    }
}

/// `prefix` in front of the text of `rest`, or the error of `rest`.
pub open spec fn with_text(prefix: Seq<char>, rest: Result<(Seq<char>, int), LexErrorModel>) -> Result<(Seq<char>, int), LexErrorModel> {
    match rest {
        Ok((t, q)) => Ok((prefix + t, q)),
        Err(e) => Err(e),
    }
}

pub proof fn lemma_position_bounds(s: Seq<char>, p: int)
    requires
        0 <= p,
    ensures
        1 <= line_at(s, p) <= p + 1,
        1 <= column_at(s, p) <= p + 1,
    decreases p,
{
    if p > 0 {
        lemma_position_bounds(s, p - 1);
    }
}

proof fn lemma_push_token(prefix: Seq<Token>, t: Token, rest: Result<Seq<TokenModel>, LexErrorModel>)
    ensures
        with_tokens(tokens_model(prefix.push(t)), rest) == with_tokens(tokens_model(prefix), with_token(t@, rest)),
{
    assert(tokens_model(prefix.push(t)) =~= tokens_model(prefix).push(t@));
    match rest {
        Ok(ts) => {
            assert(tokens_model(prefix).push(t@) + ts =~= tokens_model(prefix) + (seq![t@] + ts));
        },
        Err(_) => {},
    }
}

fn unexpected_character(c: char) -> (message: String)
    ensures
        message@ == unexpected_message(c),
{
    let mut message = String::from_str("Unexpected character '");
    push_char(&mut message, c);
    message.append("'");
    message
}

fn unknown_escape(c: char) -> (message: String)
    ensures
        message@ == unknown_escape_message(c),
{
    let mut message = String::from_str("Unknown escape sequence '\\");
    push_char(&mut message, c);
    message.append("'");
    message
}

fn escape_for(c: char) -> (r: Option<char>)
    ensures
        r == escaped(c),
{
    if c == 'n' {
        Some('\n')
    } else if c == 't' {
        Some('\t')
    } else if c == 'r' {
        Some('\r')
    } else if c == '"' {
        Some('"')
    } else if c == '\\' {
        Some('\\')
    } else if c == '0' {
        Some('\0')
    } else {
        None
    }
}

fn keyword_or_identifier(word: Vec<char>) -> (kind: TokenKind)
    ensures
        kind@ == keyword_kind(word@),
{
    if matches_text(&word, "define") {
        TokenKind::Define
    } else if matches_text(&word, "write") {
        TokenKind::Write
    } else if matches_text(&word, "get") {
        TokenKind::Get
    } else if matches_text(&word, "as") {
        TokenKind::As
    } else if matches_text(&word, "when") {
        TokenKind::When
    } else if matches_text(&word, "otherwise") {
        TokenKind::Otherwise
    } else if matches_text(&word, "function") {
        TokenKind::Function
    } else if matches_text(&word, "give") {
        TokenKind::Give
    } else if matches_text(&word, "add") {
        TokenKind::Add
    } else if matches_text(&word, "to") {
        TokenKind::To
    } else if matches_text(&word, "save") {
        TokenKind::Save
    } else if matches_text(&word, "loop") {
        TokenKind::Loop
    } else if matches_text(&word, "restart") {
        TokenKind::Restart
    } else if matches_text(&word, "end") {
        TokenKind::End
    } else if matches_text(&word, "and") {
        TokenKind::And
    } else if matches_text(&word, "or") {
        TokenKind::Or
    } else if matches_text(&word, "not") {
        TokenKind::Not
    } else if matches_text(&word, "true") {
        TokenKind::True
    } else if matches_text(&word, "false") {
        TokenKind::False
    } else if matches_text(&word, "nothing") {
        TokenKind::Nothing
    } else if matches_text(&word, "text") {
        TokenKind::Text
    } else if matches_text(&word, "number") {
        TokenKind::NumberType
    } else if matches_text(&word, "boolean") {
        TokenKind::Boolean
    } else {
        TokenKind::Identifier(string_from_chars(word.as_slice()))
    }
}

/// Turns source text into tokens.
pub struct Lexer {
    source: Vec<char>,
    position: usize,
    line: usize,
    column: usize,
}

impl Lexer {
    /// The characters being read.
    pub closed spec fn source_chars(&self) -> Seq<char> {
        self.source@
    }

    /// The position of the next character to read.
    pub closed spec fn at(&self) -> int {
        self.position as int
    }

    /// The line and column kept by the lexer are those of its position.
    pub closed spec fn wf(&self) -> bool {
        &&& self.source@.len() < usize::MAX
        &&& self.position <= self.source@.len()
        &&& self.line == line_at(self.source@, self.position as int)
        &&& self.column == column_at(self.source@, self.position as int)
    }

    pub fn new(source: &str) -> (lexer: Self)
        requires
            source@.len() < usize::MAX,
        ensures
            lexer.wf(),
            lexer.source_chars() == source@,
            lexer.at() == 0,
    {
        Self { source: chars_of(source), position: 0, line: 1, column: 1 }
    }

    /// Reads the tokens from the lexer's position to the end of the source.
    pub fn tokenize(&mut self) -> (r: Result<Vec<Token>, LexerError>)
        requires
            old(self).wf(),
        ensures
            final(self).wf(),
            final(self).source_chars() == old(self).source_chars(),
            lexed(r) == lex_from(old(self).source_chars(), old(self).at()),
    {
        let ghost s = self.source@;
        let ghost p0 = self.position as int;
        let mut tokens: Vec<Token> = Vec::new();
        assert(tokens_model(tokens@) =~= Seq::<TokenModel>::empty());
        assert(with_tokens(Seq::<TokenModel>::empty(), lex_from(s, p0)) =~= lex_from(s, p0)) by {
            match lex_from(s, p0) {
                Ok(ts) => {
                    assert(Seq::<TokenModel>::empty() + ts =~= ts);
                },
                Err(_) => {},
            }
        };
        loop
            invariant
                self.wf(),
                self.source@ == s,
                s == old(self).source@,
                p0 == old(self).position,
                0 <= p0 <= s.len(),
                lex_from(s, p0) == with_tokens(tokens_model(tokens@), lex_from(s, self.position as int)),
            ensures
                self.wf(),
                self.source@ == s,
                self.position == s.len(),
                lex_from(s, p0) == with_tokens(tokens_model(tokens@), lex_from(s, self.position as int)),
            decreases s.len() - self.position,
        {
            let character = match self.peek() {
                Some(c) => c,
                None => break,
            };
            let line = self.line;
            let column = self.column;
            let ghost p = self.position as int;
            proof {
                lemma_string_rest(s, p, p + 1);
                lemma_number_end(s, p + 1, false);
                lemma_number_end(s, p + 1, true);
                lemma_identifier_end(s, p + 1);
                if p + 2 <= s.len() {
                    lemma_comment_end(s, p + 2);
                }
            }
            if character == ' ' || character == '\t' || character == '\r' {
                self.advance();
            } else if character == '\n' {
                self.advance();
                let t = self.token(TokenKind::Newline, line, column);
                proof {
                    lemma_push_token(tokens@, t, lex_from(s, p + 1));
                }
                tokens.push(t);
            } else if character == '/' && self.peek_next() == Some('/') {
                self.skip_comment();
            } else if character == '"' {
                proof {
                    lemma_string_at(s, p, p + 1);
                }
                let t = match self.read_string(line, column) {
                    Ok(t) => t,
                    Err(e) => {
                        return Err(e);
                    },
                };
                proof {
                    lemma_push_token(tokens@, t, lex_from(s, self.position as int));
                }
                tokens.push(t);
            } else if '0' <= character && character <= '9' {
                let t = self.read_number(line, column);
                proof {
                    lemma_push_token(tokens@, t, lex_from(s, self.position as int));
                }
                tokens.push(t);
            } else if ('a' <= character && character <= 'z') || ('A' <= character && character <= 'Z')
                || character == '_' {
                let t = self.read_identifier(line, column);
                proof {
                    lemma_push_token(tokens@, t, lex_from(s, self.position as int));
                }
                tokens.push(t);
            } else {
                match self.symbol() {
                    Some((kind, width)) => {
                        self.advance();
                        if width == 2 {
                            self.advance();
                        }
                        let t = self.token(kind, line, column);
                        proof {
                            lemma_push_token(tokens@, t, lex_from(s, self.position as int));
                        }
                        tokens.push(t);
                    },
                    None => {
                        let message = unexpected_character(character);
                        return Err(self.error(message.as_str(), line, column));
                    },
                }
            }
        }
        let t = Token { kind: TokenKind::Eof, line: self.line, column: self.column };
        proof {
            lemma_push_token(tokens@, t, Ok(Seq::<TokenModel>::empty()));
            assert(seq![t@] + Seq::<TokenModel>::empty() =~= seq![t@]);
            assert(tokens_model(tokens@.push(t)) =~= tokens_model(tokens@) + seq![t@]);
        }
        tokens.push(t);
        Ok(tokens)
    }

    /// The operator or punctuation token at the lexer's position, and its width.
    fn symbol(&self) -> (r: Option<(TokenKind, usize)>)
        requires
            self.wf(),
            self.position < self.source@.len(),
        ensures
            match symbol_at(self.source@, self.position as int) {
                Some((k, w)) => r matches Some((kind, width)) && kind@ == k && width == w,
                None => r is None,
            },
    {
        let c = self.source[self.position];
        let next_is_equals = match self.peek_next() {
            Some(n) => n == '=',
            None => false,
        };
        if c == '=' {
            if next_is_equals {
                Some((TokenKind::EqualEqual, 2))
            } else {
                Some((TokenKind::Equals, 1))
            }
        } else if c == '!' {
            if next_is_equals {
                Some((TokenKind::NotEqual, 2))
            } else {
                None
            }
        } else if c == '>' {
            if next_is_equals {
                Some((TokenKind::GreaterEqual, 2))
            } else {
                Some((TokenKind::Greater, 1))
            }
        } else if c == '<' {
            if next_is_equals {
                Some((TokenKind::LessEqual, 2))
            } else {
                Some((TokenKind::Less, 1))
            }
        } else if c == '+' {
            Some((TokenKind::Plus, 1))
        } else if c == '-' {
            Some((TokenKind::Minus, 1))
        } else if c == '*' {
            Some((TokenKind::Star, 1))
        } else if c == '/' {
            Some((TokenKind::Slash, 1))
        } else if c == '%' {
            Some((TokenKind::Percent, 1))
        } else if c == '(' {
            Some((TokenKind::LeftParen, 1))
        } else if c == ')' {
            Some((TokenKind::RightParen, 1))
        } else if c == '[' {
            Some((TokenKind::LeftBracket, 1))
        } else if c == ']' {
            Some((TokenKind::RightBracket, 1))
        } else if c == '{' {
            Some((TokenKind::LeftBrace, 1))
        } else if c == '}' {
            Some((TokenKind::RightBrace, 1))
        } else if c == ':' {
            Some((TokenKind::Colon, 1))
        } else if c == ',' {
            Some((TokenKind::Comma, 1))
        } else if c == ';' {
            Some((TokenKind::Semicolon, 1))
        } else {
            None
        }
    }

    fn read_string(&mut self, line: usize, column: usize) -> (r: Result<Token, LexerError>)
        requires
            old(self).wf(),
            old(self).position < old(self).source@.len(),
            old(self).source@[old(self).position as int] == '"',
        ensures
            final(self).wf(),
            final(self).source@ == old(self).source@,
            match string_at(old(self).source@, line as int, column as int, old(self).position + 1) {
                Ok((text, q)) => r is Ok && r->Ok_0@ == (TokenModel {
                    kind: TokenKindModel::String(text),
                    line: line as int,
                    column: column as int,
                }) && final(self).position == q,
                Err(e) => r is Err && r->Err_0@ == e,
            },
    {
        let ghost s = self.source@;
        let ghost p0 = self.position as int;
        self.advance();
        let mut value: Vec<char> = Vec::new();
        assert(with_text(Seq::<char>::empty(), string_at(s, line as int, column as int, p0 + 1)) =~= string_at(s, line as int, column as int, p0 + 1)) by {
            match string_at(s, line as int, column as int, p0 + 1) {
                Ok((t, q)) => {
                    assert(Seq::<char>::empty() + t =~= t);
                },
                Err(_) => {},
            }
        };
        loop
            invariant
                self.wf(),
                self.source@ == s,
                s == old(self).source@,
                p0 == old(self).position,
                0 <= p0 < s.len(),
                p0 < self.position,
                string_at(s, line as int, column as int, p0 + 1) == with_text(value@, string_at(s, line as int, column as int, self.position as int)),
            ensures
                self.wf(),
                self.source@ == s,
                self.position == s.len(),
                string_at(s, line as int, column as int, p0 + 1) == with_text(value@, string_at(s, line as int, column as int, self.position as int)),
            decreases s.len() - self.position,
        {
            let character = match self.peek() {
                Some(c) => c,
                None => break,
            };
            let ghost q = self.position as int;
            if character == '"' {
                self.advance();
                assert(value@ + Seq::<char>::empty() =~= value@);
                let text = string_from_chars(value.as_slice());
                return Ok(self.token(TokenKind::String(text), line, column));
            } else if character == '\\' {
                self.advance();
                let escaped = match self.peek() {
                    Some(other) => match escape_for(other) {
                        Some(e) => {
                            self.advance();
                            e
                        },
                        None => {
                            let message = unknown_escape(other);
                            return Err(self.error(message.as_str(), self.line, self.column));
                        },
                    },
                    None => {
                        return Err(self.error("Unfinished string escape", self.line, self.column));
                    },
                };
                proof {
                    match string_at(s, line as int, column as int, q + 2) {
                        Ok((t, r)) => {
                            assert(value@.push(escaped) + t =~= value@ + (seq![escaped] + t));
                        },
                        Err(_) => {},
                    }
                }
                value.push(escaped);
            } else if character == '\n' {
                return Err(self.error("Strings cannot contain an unescaped newline", self.line, self.column));
            } else {
                proof {
                    match string_at(s, line as int, column as int, q + 1) {
                        Ok((t, r)) => {
                            assert(value@.push(character) + t =~= value@ + (seq![character] + t));
                        },
                        Err(_) => {},
                    }
                }
                value.push(character);
                self.advance();
            }
        }
        Err(self.error("Unfinished string", line, column))
    }

    fn read_number(&mut self, line: usize, column: usize) -> (t: Token)
        requires
            old(self).wf(),
            old(self).position < old(self).source@.len(),
            is_digit(old(self).source@[old(self).position as int]),
        ensures
            final(self).wf(),
            final(self).source@ == old(self).source@,
            final(self).position == number_end(old(self).source@, old(self).position as int, false),
            t@ == (TokenModel {
                kind: TokenKindModel::Number(old(self).source@.subrange(old(self).position as int, final(self).position as int)),
                line: line as int,
                column: column as int,
            }),
    {
        let ghost s = self.source@;
        let ghost p0 = self.position as int;
        let mut value: Vec<char> = Vec::new();
        let mut decimal_point_found = false;
        loop
            invariant
                self.wf(),
                self.source@ == s,
                0 <= p0 <= self.position,
                value@ == s.subrange(p0, self.position as int),
                number_end(s, p0, false) == number_end(s, self.position as int, decimal_point_found),
            ensures
                number_end(s, p0, false) == self.position,
            decreases s.len() - self.position,
        {
            let character = match self.peek() {
                Some(c) => c,
                None => break,
            };
            if '0' <= character && character <= '9' {
                value.push(character);
                self.advance();
            } else if character == '.' && !decimal_point_found {
                decimal_point_found = true;
                value.push(character);
                self.advance();
            } else {
                break;
            }
            assert(value@ =~= s.subrange(p0, self.position as int));
        }
        let text = string_from_chars(value.as_slice());
        self.token(TokenKind::Number(text), line, column)
    }

    fn read_identifier(&mut self, line: usize, column: usize) -> (t: Token)
        requires
            old(self).wf(),
            old(self).position < old(self).source@.len(),
            is_identifier_start(old(self).source@[old(self).position as int]),
        ensures
            final(self).wf(),
            final(self).source@ == old(self).source@,
            final(self).position == identifier_end(old(self).source@, old(self).position as int),
            t@ == (TokenModel {
                kind: keyword_kind(old(self).source@.subrange(old(self).position as int, final(self).position as int)),
                line: line as int,
                column: column as int,
            }),
    {
        let ghost s = self.source@;
        let ghost p0 = self.position as int;
        let mut value: Vec<char> = Vec::new();
        loop
            invariant
                self.wf(),
                self.source@ == s,
                0 <= p0 <= self.position,
                value@ == s.subrange(p0, self.position as int),
                identifier_end(s, p0) == identifier_end(s, self.position as int),
            ensures
                identifier_end(s, p0) == self.position,
            decreases s.len() - self.position,
        {
            let character = match self.peek() {
                Some(c) => c,
                None => break,
            };
            if ('a' <= character && character <= 'z') || ('A' <= character && character <= 'Z')
                || ('0' <= character && character <= '9') || character == '_' {
                value.push(character);
                self.advance();
            } else {
                break;
            }
            assert(value@ =~= s.subrange(p0, self.position as int));
        }
        let kind = keyword_or_identifier(value);
        self.token(kind, line, column)
    }

    fn skip_comment(&mut self)
        requires
            old(self).wf(),
            old(self).position + 1 < old(self).source@.len(),
        ensures
            final(self).wf(),
            final(self).source@ == old(self).source@,
            final(self).position == comment_end(old(self).source@, old(self).position + 2),
    {
        let ghost s = self.source@;
        let ghost p0 = self.position as int;
        self.advance();
        self.advance();
        loop
            invariant
                self.wf(),
                self.source@ == s,
                comment_end(s, p0 + 2) == comment_end(s, self.position as int),
            ensures
                comment_end(s, p0 + 2) == self.position,
            decreases s.len() - self.position,
        {
            let character = match self.peek() {
                Some(c) => c,
                None => break,
            };
            if character == '\n' {
                break;
            }
            self.advance();
        }
    }

    fn peek(&self) -> (r: Option<char>)
        requires
            self.wf(),
        ensures
            r == (if self.position < self.source@.len() {
                Some(self.source@[self.position as int])
            } else {
                None
            }),
    {
        if self.position < self.source.len() {
            Some(self.source[self.position])
        } else {
            None
        }
    }

    fn peek_next(&self) -> (r: Option<char>)
        requires
            self.wf(),
        ensures
            r == (if self.position + 1 < self.source@.len() {
                Some(self.source@[self.position + 1])
            } else {
                None
            }),
    {
        if self.position + 1 < self.source.len() {
            Some(self.source[self.position + 1])
        } else {
            None
        }
    }

    fn advance(&mut self) -> (r: Option<char>)
        requires
            old(self).wf(),
        ensures
            final(self).wf(),
            final(self).source@ == old(self).source@,
            old(self).position < old(self).source@.len() ==> final(self).position == old(self).position + 1
                && r == Some(old(self).source@[old(self).position as int]),
            old(self).position >= old(self).source@.len() ==> final(self).position == old(self).position
                && r is None,
    {
        let character = match self.peek() {
            Some(c) => c,
            None => {
                return None;
            },
        };
        proof {
            lemma_position_bounds(self.source@, self.position as int);
        }
        self.position = self.position + 1;
        if character == '\n' {
            self.line = self.line + 1;
            self.column = 1;
        } else {
            self.column = self.column + 1;
        }
        Some(character)
    }

    fn token(&self, kind: TokenKind, line: usize, column: usize) -> (t: Token)
        ensures
            t@ == (TokenModel { kind: kind@, line: line as int, column: column as int }),
    {
        Token { kind, line, column }
    }

    fn error(&self, message: &str, line: usize, column: usize) -> (e: LexerError)
        ensures
            e@ == (LexErrorModel { message: message@, line: line as int, column: column as int }),
    {
        LexerError { message: String::from_str(message), line, column }
    }
}

} // verus!
