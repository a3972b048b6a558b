//! The lexer: from source text to tokens.
//!
//! [`lex`] defines the token sequence of a text. Lexing never fails: white
//! space and comments separate tokens, text that yields no token is dropped,
//! and the sequence is closed by the end marker. [`Lexer::tokenize`] computes
//! that sequence.

use crate::text::{is_word, same_text, to_chars};
use vstd::prelude::*;
use vstd::std_specs::cmp::PartialEqSpecImpl;

verus! {

/// A lexical unit: a kind and, for literals and identifiers, a payload.
///
/// A `Number` carries the text of its literal: digits with at most one dot,
/// starting with a digit. Turning that text into a double is left to the host,
/// since this crate holds no floating-point code.
#[derive(Debug)]
pub enum Token {
    // Literals
    Number(String),
    String(String),
    Boolean(bool),
    Nil,
    // Identifiers
    Identifier(String),
    // Keywords
    And,
    Break,
    Do,
    Else,
    ElseIf,
    End,
    False,
    For,
    Function,
    If,
    In,
    Local,
    Not,
    Or,
    Repeat,
    Return,
    Then,
    True,
    Until,
    While,
    // Operators
    Plus,
    Minus,
    Multiply,
    Divide,
    Modulo,
    Power,
    Length,
    Equal,
    NotEqual,
    LessThan,
    LessEqual,
    GreaterThan,
    GreaterEqual,
    Assign,
    // Delimiters
    LeftParen,
    RightParen,
    LeftBrace,
    RightBrace,
    LeftBracket,
    RightBracket,
    Semicolon,
    Comma,
    Dot,
    Colon,
    DoubleDot,
    Ellipsis,
    // End of input
    EOF,
}

/// The mathematical value of a [`Token`]: the same variants over `Seq<char>`.
pub enum TokenView {
    Number(Seq<char>),
    String(Seq<char>),
    Boolean(bool),
    Nil,
    Identifier(Seq<char>),
    And,
    Break,
    Do,
    Else,
    ElseIf,
    End,
    False,
    For,
    Function,
    If,
    In,
    Local,
    Not,
    Or,
    Repeat,
    Return,
    Then,
    True,
    Until,
    While,
    Plus,
    Minus,
    Multiply,
    Divide,
    Modulo,
    Power,
    Length,
    Equal,
    NotEqual,
    LessThan,
    LessEqual,
    GreaterThan,
    GreaterEqual,
    Assign,
    LeftParen,
    RightParen,
    LeftBrace,
    RightBrace,
    LeftBracket,
    RightBracket,
    Semicolon,
    Comma,
    Dot,
    Colon,
    DoubleDot,
    Ellipsis,
    EOF,
}

impl View for Token {
    type V = TokenView;

    open spec fn view(&self) -> TokenView {
        match self {
            Token::Number(s) => TokenView::Number(s@),
            Token::String(s) => TokenView::String(s@),
            Token::Boolean(b) => TokenView::Boolean(*b),
            Token::Nil => TokenView::Nil,
            Token::Identifier(s) => TokenView::Identifier(s@),
            Token::And => TokenView::And,
            Token::Break => TokenView::Break,
            Token::Do => TokenView::Do,
            Token::Else => TokenView::Else,
            Token::ElseIf => TokenView::ElseIf,
            Token::End => TokenView::End,
            Token::False => TokenView::False,
            Token::For => TokenView::For,
            Token::Function => TokenView::Function,
            Token::If => TokenView::If,
            Token::In => TokenView::In,
            Token::Local => TokenView::Local,
            Token::Not => TokenView::Not,
            Token::Or => TokenView::Or,
            Token::Repeat => TokenView::Repeat,
            Token::Return => TokenView::Return,
            Token::Then => TokenView::Then,
            Token::True => TokenView::True,
            Token::Until => TokenView::Until,
            Token::While => TokenView::While,
            Token::Plus => TokenView::Plus,
            Token::Minus => TokenView::Minus,
            Token::Multiply => TokenView::Multiply,
            Token::Divide => TokenView::Divide,
            Token::Modulo => TokenView::Modulo,
            Token::Power => TokenView::Power,
            Token::Length => TokenView::Length,
            Token::Equal => TokenView::Equal,
            Token::NotEqual => TokenView::NotEqual,
            Token::LessThan => TokenView::LessThan,
            Token::LessEqual => TokenView::LessEqual,
            Token::GreaterThan => TokenView::GreaterThan,
            Token::GreaterEqual => TokenView::GreaterEqual,
            Token::Assign => TokenView::Assign,
            Token::LeftParen => TokenView::LeftParen,
            Token::RightParen => TokenView::RightParen,
            Token::LeftBrace => TokenView::LeftBrace,
            Token::RightBrace => TokenView::RightBrace,
            Token::LeftBracket => TokenView::LeftBracket,
            Token::RightBracket => TokenView::RightBracket,
            Token::Semicolon => TokenView::Semicolon,
            Token::Comma => TokenView::Comma,
            Token::Dot => TokenView::Dot,
            Token::Colon => TokenView::Colon,
            Token::DoubleDot => TokenView::DoubleDot,
            Token::Ellipsis => TokenView::Ellipsis,
            Token::EOF => TokenView::EOF,
        }
    }
}

impl Clone for Token {
    fn clone(&self) -> (copy: Token)
        ensures
            copy@ == self@,
    {
        match self {
            Token::Number(text) => Token::Number(text.clone()),
            Token::String(text) => Token::String(text.clone()),
            Token::Boolean(b) => Token::Boolean(*b),
            Token::Nil => Token::Nil,
            Token::Identifier(name) => Token::Identifier(name.clone()),
            Token::And => Token::And,
            Token::Break => Token::Break,
            Token::Do => Token::Do,
            Token::Else => Token::Else,
            Token::ElseIf => Token::ElseIf,
            Token::End => Token::End,
            Token::False => Token::False,
            Token::For => Token::For,
            Token::Function => Token::Function,
            Token::If => Token::If,
            Token::In => Token::In,
            Token::Local => Token::Local,
            Token::Not => Token::Not,
            Token::Or => Token::Or,
            Token::Repeat => Token::Repeat,
            Token::Return => Token::Return,
            Token::Then => Token::Then,
            Token::True => Token::True,
            Token::Until => Token::Until,
            Token::While => Token::While,
            Token::Plus => Token::Plus,
            Token::Minus => Token::Minus,
            Token::Multiply => Token::Multiply,
            Token::Divide => Token::Divide,
            Token::Modulo => Token::Modulo,
            Token::Power => Token::Power,
            Token::Length => Token::Length,
            Token::Equal => Token::Equal,
            Token::NotEqual => Token::NotEqual,
            Token::LessThan => Token::LessThan,
            Token::LessEqual => Token::LessEqual,
            Token::GreaterThan => Token::GreaterThan,
            Token::GreaterEqual => Token::GreaterEqual,
            Token::Assign => Token::Assign,
            Token::LeftParen => Token::LeftParen,
            Token::RightParen => Token::RightParen,
            Token::LeftBrace => Token::LeftBrace,
            Token::RightBrace => Token::RightBrace,
            Token::LeftBracket => Token::LeftBracket,
            Token::RightBracket => Token::RightBracket,
            Token::Semicolon => Token::Semicolon,
            Token::Comma => Token::Comma,
            Token::Dot => Token::Dot,
            Token::Colon => Token::Colon,
            Token::DoubleDot => Token::DoubleDot,
            Token::Ellipsis => Token::Ellipsis,
            Token::EOF => Token::EOF,
        }
    }
}

impl PartialEq for Token {
    /// Two tokens are equal when they are the same variant with the same payload.
    fn eq(&self, other: &Token) -> (r: bool) {
        match (self, other) {
            (Token::Number(a), Token::Number(b)) => same_text(a, b),
            (Token::String(a), Token::String(b)) => same_text(a, b),
            (Token::Boolean(a), Token::Boolean(b)) => *a == *b,
            (Token::Nil, Token::Nil) => true,
            (Token::Identifier(a), Token::Identifier(b)) => same_text(a, b),
            (Token::And, Token::And) => true,
            (Token::Break, Token::Break) => true,
            (Token::Do, Token::Do) => true,
            (Token::Else, Token::Else) => true,
            (Token::ElseIf, Token::ElseIf) => true,
            (Token::End, Token::End) => true,
            (Token::False, Token::False) => true,
            (Token::For, Token::For) => true,
            (Token::Function, Token::Function) => true,
            (Token::If, Token::If) => true,
            (Token::In, Token::In) => true,
            (Token::Local, Token::Local) => true,
            (Token::Not, Token::Not) => true,
            (Token::Or, Token::Or) => true,
            (Token::Repeat, Token::Repeat) => true,
            (Token::Return, Token::Return) => true,
            (Token::Then, Token::Then) => true,
            (Token::True, Token::True) => true,
            (Token::Until, Token::Until) => true,
            (Token::While, Token::While) => true,
            (Token::Plus, Token::Plus) => true,
            (Token::Minus, Token::Minus) => true,
            (Token::Multiply, Token::Multiply) => true,
            (Token::Divide, Token::Divide) => true,
            (Token::Modulo, Token::Modulo) => true,
            (Token::Power, Token::Power) => true,
            (Token::Length, Token::Length) => true,
            (Token::Equal, Token::Equal) => true,
            (Token::NotEqual, Token::NotEqual) => true,
            (Token::LessThan, Token::LessThan) => true,
            (Token::LessEqual, Token::LessEqual) => true,
            (Token::GreaterThan, Token::GreaterThan) => true,
            (Token::GreaterEqual, Token::GreaterEqual) => true,
            (Token::Assign, Token::Assign) => true,
            (Token::LeftParen, Token::LeftParen) => true,
            (Token::RightParen, Token::RightParen) => true,
            (Token::LeftBrace, Token::LeftBrace) => true,
            (Token::RightBrace, Token::RightBrace) => true,
            (Token::LeftBracket, Token::LeftBracket) => true,
            (Token::RightBracket, Token::RightBracket) => true,
            (Token::Semicolon, Token::Semicolon) => true,
            (Token::Comma, Token::Comma) => true,
            (Token::Dot, Token::Dot) => true,
            (Token::Colon, Token::Colon) => true,
            (Token::DoubleDot, Token::DoubleDot) => true,
            (Token::Ellipsis, Token::Ellipsis) => true,
            (Token::EOF, Token::EOF) => true,
            _ => false,
        }
    }
}

impl PartialEqSpecImpl for Token {
    open spec fn obeys_eq_spec() -> bool {
        true
    }

    open spec fn eq_spec(&self, other: &Token) -> bool {
        self@ == other@
    }
}

/// The views of a run of tokens, in order.
pub open spec fn token_views(tokens: Seq<Token>) -> Seq<TokenView> {
    tokens.map_values(|t: Token| t@)
}

/// The view of a token that may be absent.
pub open spec fn optional_view(token: Option<Token>) -> Option<TokenView> {
    match token {
        Some(t) => Some(t@),
        None => None,
    }
}

/// The classes of characters that the lexer consumes in runs.
#[derive(Clone, Copy, Debug)]
pub enum CharClass {
    /// A digit or a dot: the body of a numeric literal.
    NumberPart,
    /// A letter, a digit or an underscore: the body of an identifier.
    NamePart,
    /// Anything but a line feed: the body of a comment.
    CommentPart,
}

/// Whether a character is a decimal digit.
pub open spec fn is_digit(c: char) -> bool {
    '0' <= c <= '9'
}

/// Whether a character is a letter of the basic Latin alphabet.
pub open spec fn is_letter(c: char) -> bool {
    ('a' <= c <= 'z') || ('A' <= c <= 'Z')
}

/// Whether a character can start a word: a letter or an underscore.
pub open spec fn is_name_start(c: char) -> bool {
    is_letter(c) || c == '_'
}

/// Whether a character is white space: a space, a tab, a carriage return
/// or a line feed.
pub open spec fn is_blank(c: char) -> bool {
    c == ' ' || c == '\r' || c == '\t' || c == '\n'
}

/// Whether a character opens and closes strings: a double or a single
/// quote.
pub open spec fn is_quote(c: char) -> bool {
    c == '"' || c == '\''
}

/// Whether a character belongs to a class.
pub open spec fn in_class(c: char, class: CharClass) -> bool {
    match class {
        CharClass::NumberPart => is_digit(c) || c == '.',
        CharClass::NamePart => is_letter(c) || is_digit(c) || c == '_',
        CharClass::CommentPart => c != '\n',
    }
}

/// Whether the character at `pos` exists and is `c`.
pub open spec fn has_char(src: Seq<char>, pos: int, c: char) -> bool {
    0 <= pos < src.len() && src[pos] == c
}

/// How many characters of `src` lie at or after `pos`.
pub open spec fn remaining(src: Seq<char>, pos: int) -> nat {
    if pos < src.len() {
        (src.len() - pos) as nat
    } else {
        0
    }
}

/// The length of the longest run of `class` characters that starts at `pos`.
pub open spec fn run_len(src: Seq<char>, pos: int, class: CharClass) -> nat
    decreases remaining(src, pos),
{
    if 0 <= pos < src.len() && in_class(src[pos], class) {
        1 + run_len(src, pos + 1, class)
    } else {
        0
    }
}

/// Whether a comment (two hyphens) starts at `pos`.
pub open spec fn starts_comment(src: Seq<char>, pos: int) -> bool {
    has_char(src, pos, '-') && has_char(src, pos + 1, '-')
}

/// The number of characters of white space and comments that start at `pos`.
/// A comment runs from its two hyphens up to, not including, the next line feed.
pub open spec fn trivia_len(src: Seq<char>, pos: int) -> nat
    decreases remaining(src, pos),
{
    if pos < 0 || pos >= src.len() {
        0
    } else if is_blank(src[pos]) {
        1 + trivia_len(src, pos + 1)
    } else if starts_comment(src, pos) {
        let n = 2 + run_len(src, pos + 2, CharClass::CommentPart);
        n + trivia_len(src, pos + n)
    } else {
        0
    }
}

/// The number of line feeds among the white space counted by [`trivia_len`].
pub open spec fn trivia_newlines(src: Seq<char>, pos: int) -> nat
    decreases remaining(src, pos),
{
    if pos < 0 || pos >= src.len() {
        0
    } else if is_blank(src[pos]) {
        (if src[pos] == '\n' { 1nat } else { 0nat }) + trivia_newlines(src, pos + 1)
    } else if starts_comment(src, pos) {
        let n = 2 + run_len(src, pos + 2, CharClass::CommentPart);
        trivia_newlines(src, pos + n)
    } else {
        0
    }
}

/// The character that an escape sequence stands for, given the character after
/// the backslash. Unknown escapes stand for that character itself.
pub open spec fn unescape(c: char) -> char {
    if c == 'n' {
        '\n'
    } else if c == 't' {
        '\t'
    } else if c == 'r' {
        '\r'
    } else {
        c
    }
}

/// Reads the body of a string literal from `pos`, the character after its
/// opening quote; `acc` is what has been read so far. Either quote character
/// closes the literal. Gives the contents, or `None` when the text ends before
/// a closing quote, and the number of characters consumed, the closing quote
/// included.
pub open spec fn string_scan(src: Seq<char>, pos: int, acc: Seq<char>) -> (Option<Seq<char>>, nat)
    decreases remaining(src, pos),
{
    if pos < 0 || pos >= src.len() {
        (None, 0)
    } else if is_quote(src[pos]) {
        (Some(acc), 1)
    } else if src[pos] == '\\' {
        if pos + 1 < src.len() {
            let (body, n) = string_scan(src, pos + 2, acc.push(unescape(src[pos + 1])));
            (body, n + 2)
        } else {
            (None, 1)
        }
    } else {
        let (body, n) = string_scan(src, pos + 1, acc.push(src[pos]));
        (body, n + 1)
    }
}

/// The number of dots in `text`.
pub open spec fn dot_count(text: Seq<char>) -> nat
    decreases text.len(),
{
    if text.len() == 0 {
        0
    } else {
        dot_count(text.drop_last()) + (if text.last() == '.' { 1nat } else { 0nat })
    }
}

/// The token that a word (letters, digits, underscores) stands for: a keyword
/// of the fixed table, or else an identifier.
pub open spec fn word_token(text: Seq<char>) -> TokenView {
    if text == "and"@ {
        TokenView::And
    } else if text == "break"@ {
        TokenView::Break
    } else if text == "do"@ {
        TokenView::Do
    } else if text == "else"@ {
        TokenView::Else
    } else if text == "elseif"@ {
        TokenView::ElseIf
    } else if text == "end"@ {
        TokenView::End
    } else if text == "false"@ {
        TokenView::False
    } else if text == "for"@ {
        TokenView::For
    } else if text == "function"@ {
        TokenView::Function
    } else if text == "if"@ {
        TokenView::If
    } else if text == "in"@ {
        TokenView::In
    } else if text == "local"@ {
        TokenView::Local
    } else if text == "not"@ {
        TokenView::Not
    } else if text == "or"@ {
        TokenView::Or
    } else if text == "repeat"@ {
        TokenView::Repeat
    } else if text == "return"@ {
        TokenView::Return
    } else if text == "then"@ {
        TokenView::Then
    } else if text == "true"@ {
        TokenView::True
    } else if text == "until"@ {
        TokenView::Until
    } else if text == "while"@ {
        TokenView::While
    } else {
        TokenView::Identifier(text)
    }
}

/// The token that starts at `pos`, a position inside the text that holds
/// neither white space nor the start of a comment, and the number of
/// characters it takes beyond its first. `None` stands for text that yields
/// no token and is dropped: an unknown character, a `~` without `=`, a string
/// without its closing quote, a numeric literal with more than one dot.
pub open spec fn token_at(src: Seq<char>, pos: int) -> (Option<TokenView>, nat) {
    let c = src[pos];
    if c == '+' {
        (Some(TokenView::Plus), 0)
    } else if c == '-' {
        (Some(TokenView::Minus), 0)
    } else if c == '*' {
        (Some(TokenView::Multiply), 0)
    } else if c == '/' {
        (Some(TokenView::Divide), 0)
    } else if c == '%' {
        (Some(TokenView::Modulo), 0)
    } else if c == '^' {
        (Some(TokenView::Power), 0)
    } else if c == '#' {
        (Some(TokenView::Length), 0)
    } else if c == '(' {
        (Some(TokenView::LeftParen), 0)
    } else if c == ')' {
        (Some(TokenView::RightParen), 0)
    } else if c == '{' {
        (Some(TokenView::LeftBrace), 0)
    } else if c == '}' {
        (Some(TokenView::RightBrace), 0)
    } else if c == '[' {
        (Some(TokenView::LeftBracket), 0)
    } else if c == ']' {
        (Some(TokenView::RightBracket), 0)
    } else if c == ';' {
        (Some(TokenView::Semicolon), 0)
    } else if c == ',' {
        (Some(TokenView::Comma), 0)
    } else if c == ':' {
        (Some(TokenView::Colon), 0)
    } else if c == '=' {
        if has_char(src, pos + 1, '=') {
            (Some(TokenView::Equal), 1)
        } else {
            (Some(TokenView::Assign), 0)
        }
    } else if c == '<' {
        if has_char(src, pos + 1, '=') {
            (Some(TokenView::LessEqual), 1)
        } else {
            (Some(TokenView::LessThan), 0)
        }
    } else if c == '>' {
        if has_char(src, pos + 1, '=') {
            (Some(TokenView::GreaterEqual), 1)
        } else {
            (Some(TokenView::GreaterThan), 0)
        }
    } else if c == '~' {
        if has_char(src, pos + 1, '=') {
            (Some(TokenView::NotEqual), 1)
        } else {
            (None, 0)
        }
    } else if c == '.' {
        if has_char(src, pos + 1, '.') {
            if has_char(src, pos + 2, '.') {
                (Some(TokenView::Ellipsis), 2)
            } else {
                (Some(TokenView::DoubleDot), 1)
            }
        } else {
            (Some(TokenView::Dot), 0)
        }
    } else if is_quote(c) {
        let (body, n) = string_scan(src, pos + 1, Seq::empty());
        match body {
            Some(s) => (Some(TokenView::String(s)), n),
            None => (None, n),
        }
    } else if is_digit(c) {
        let n = run_len(src, pos + 1, CharClass::NumberPart);
        let text = src.subrange(pos, pos + 1 + n);
        if dot_count(text) <= 1 {
            (Some(TokenView::Number(text)), n)
        } else {
            (None, n)
        }
    } else if is_name_start(c) {
        let n = run_len(src, pos + 1, CharClass::NamePart);
        (Some(word_token(src.subrange(pos, pos + 1 + n))), n)
    } else {
        (None, 0)
    }
}

/// The tokens of `src` from `pos` on, closed by the end marker. White space and
/// comments separate tokens; text that yields no token is skipped.
pub open spec fn tokens_from(src: Seq<char>, pos: int) -> Seq<TokenView>
    decreases remaining(src, pos),
{
    let start = pos + trivia_len(src, pos);
    if pos < 0 || start >= src.len() {
        seq![TokenView::EOF]
    } else {
        let (token, n) = token_at(src, start);
        let rest = tokens_from(src, start + 1 + n);
        match token {
            Some(t) => seq![t] + rest,
            None => rest,
        }
    }
}

/// The number of line feeds that lexing `src` from `pos` on counts: those in
/// the white space between tokens. Line feeds inside string literals are not
/// counted.
pub open spec fn newlines_from(src: Seq<char>, pos: int) -> nat
    decreases remaining(src, pos),
{
    let start = pos + trivia_len(src, pos);
    if pos < 0 || start >= src.len() {
        trivia_newlines(src, pos)
    } else {
        trivia_newlines(src, pos) + newlines_from(src, start + 1 + token_at(src, start).1)
    }
}

/// The token sequence of a whole source text.
pub open spec fn lex(src: Seq<char>) -> Seq<TokenView> {
    tokens_from(src, 0)
}

/// A line count held in a `usize`: it stops at the largest value.
pub open spec fn clip_line(n: int) -> int {
    if n <= usize::MAX {
        n
    } else {
        usize::MAX as int
    }
}

/// A cursor over a source text that turns it into tokens.
pub struct Lexer {
    source: Vec<char>,
    position: usize,
    line: usize,
}

fn char_in_class(c: char, class: CharClass) -> (r: bool)
    ensures
        r == in_class(c, class),
{
    let digit = c >= '0' && c <= '9';
    let letter = (c >= 'a' && c <= 'z') || (c >= 'A' && c <= 'Z');
    match class {
        CharClass::NumberPart => digit || c == '.',
        CharClass::NamePart => letter || digit || c == '_',
        CharClass::CommentPart => c != '\n',
    }
}

fn unescape_char(c: char) -> (r: char)
    ensures
        r == unescape(c),
{
    if c == 'n' {
        '\n'
    } else if c == 't' {
        '\t'
    } else if c == 'r' {
        '\r'
    } else {
        c
    }
}

/// Looks a word up in the keyword table.
fn keyword_or_identifier(text: String) -> (token: Token)
    ensures
        token@ == word_token(text@),
{
    if is_word(&text, "and") {
        Token::And
    } else if is_word(&text, "break") {
        Token::Break
    } else if is_word(&text, "do") {
        Token::Do
    } else if is_word(&text, "else") {
        Token::Else
    } else if is_word(&text, "elseif") {
        Token::ElseIf
    } else if is_word(&text, "end") {
        Token::End
    } else if is_word(&text, "false") {
        Token::False
    } else if is_word(&text, "for") {
        Token::For
    } else if is_word(&text, "function") {
        Token::Function
    } else if is_word(&text, "if") {
        Token::If
    } else if is_word(&text, "in") {
        Token::In
    } else if is_word(&text, "local") {
        Token::Local
    } else if is_word(&text, "not") {
        Token::Not
    } else if is_word(&text, "or") {
        Token::Or
    } else if is_word(&text, "repeat") {
        Token::Repeat
    } else if is_word(&text, "return") {
        Token::Return
    } else if is_word(&text, "then") {
        Token::Then
    } else if is_word(&text, "true") {
        Token::True
    } else if is_word(&text, "until") {
        Token::Until
    } else if is_word(&text, "while") {
        Token::While
    } else {
        Token::Identifier(text)
    }
}

impl Lexer {
    #[verifier::type_invariant]
    spec fn well_formed(&self) -> bool {
        self.position <= self.source.len()
    }

    /// The characters of the source text.
    pub closed spec fn source(&self) -> Seq<char> {
        self.source@
    }

    /// The cursor: how many characters have been consumed.
    pub closed spec fn position(&self) -> int {
        self.position as int
    }

    /// The current line number, starting at 1.
    pub closed spec fn line(&self) -> int {
        self.line as int
    }

    /// A lexer at the start of `source`, on line 1.
    pub fn new(source: String) -> (lexer: Lexer)
        ensures
            lexer.source() == source@,
            lexer.position() == 0,
            lexer.line() == 1,
    {
        Lexer { source: to_chars(source.as_str()), position: 0, line: 1 }
    }

    /// The current line number: one more than the number of line feeds that
    /// were skipped as white space.
    pub fn current_line(&self) -> (line: usize)
        ensures
            line == self.line(),
    {
        self.line
    }

    /// Lexes the rest of the source text: the tokens in order, then the end
    /// marker. The cursor ends behind the last character.
    pub fn tokenize(&mut self) -> (tokens: Vec<Token>)
        ensures
            token_views(tokens@) == tokens_from(old(self).source(), old(self).position()),
            final(self).source() == old(self).source(),
            final(self).position() == old(self).source().len(),
            final(self).line() == clip_line(
                old(self).line() + newlines_from(old(self).source(), old(self).position()),
            ),
    {
        proof {
            use_type_invariant(&*self);
        }
        let ghost src = self.source@;
        let ghost start = self.position as int;
        let ghost line = self.line as int;
        let mut tokens: Vec<Token> = Vec::new();
        let mut done = false;
        while !done
            invariant
                self.source@ == src,
                0 <= start <= self.position <= src.len(),
                !done ==> tokens_from(src, start) == token_views(tokens@) + tokens_from(
                    src,
                    self.position as int,
                ),
                !done ==> clip_line(line + newlines_from(src, start)) == clip_line(
                    self.line + newlines_from(src, self.position as int),
                ),
                done ==> tokens_from(src, start) == token_views(tokens@),
                done ==> self.position == src.len(),
                done ==> self.line == clip_line(line + newlines_from(src, start)),
            decreases src.len() - self.position + (if done { 0int } else { 1int }),
        {
            let ghost before = self.position as int;
            let ghost seen = token_views(tokens@);
            let next = self.next_token();
            proof {
                use_type_invariant(&*self);
            }
            match next {
                Some(token) => {
                    let at_end = matches!(token, Token::EOF);
                    proof {
                        assert(token_views(tokens@.push(token)) =~= seen.push(token@));
                        assert(seen + (seq![token@] + tokens_from(src, self.position as int))
                            =~= seen.push(token@) + tokens_from(src, self.position as int));
                        assert(seen + seq![TokenView::EOF] =~= seen.push(TokenView::EOF));
                    }
                    tokens.push(token);
                    if at_end {
                        done = true;
                    }
                },
                None => {},
            }
        }
        tokens
    }

    /// Skips white space and comments, then reads one token. Gives the end
    /// marker at the end of the text, and `None` for text that yields no token.
    fn next_token(&mut self) -> (token: Option<Token>)
        ensures
            final(self).source == old(self).source,
            final(self).line == clip_line(
                old(self).line + trivia_newlines(old(self).source@, old(self).position as int),
            ),
            ({
                let src = old(self).source@;
                let start = old(self).position + trivia_len(src, old(self).position as int);
                if start >= src.len() {
                    &&& optional_view(token) == Some(TokenView::EOF)
                    &&& final(self).position == start
                } else {
                    &&& optional_view(token) == token_at(src, start).0
                    &&& final(self).position == start + 1 + token_at(src, start).1
                }
            }),
    {
        self.skip_whitespace();
        proof {
            use_type_invariant(&*self);
        }
        if self.is_at_end() {
            return Some(Token::EOF);
        }
        let ghost src = self.source@;
        let ghost start = self.position as int;
        let c = self.advance();
        match c {
            '+' => Some(Token::Plus),
            '-' => Some(Token::Minus),
            '*' => Some(Token::Multiply),
            '/' => Some(Token::Divide),
            '%' => Some(Token::Modulo),
            '^' => Some(Token::Power),
            '#' => Some(Token::Length),
            '(' => Some(Token::LeftParen),
            ')' => Some(Token::RightParen),
            '{' => Some(Token::LeftBrace),
            '}' => Some(Token::RightBrace),
            '[' => Some(Token::LeftBracket),
            ']' => Some(Token::RightBracket),
            ';' => Some(Token::Semicolon),
            ',' => Some(Token::Comma),
            '=' => {
                if self.match_char('=') {
                    Some(Token::Equal)
                } else {
                    Some(Token::Assign)
                }
            },
            '<' => {
                if self.match_char('=') {
                    Some(Token::LessEqual)
                } else {
                    Some(Token::LessThan)
                }
            },
            '>' => {
                if self.match_char('=') {
                    Some(Token::GreaterEqual)
                } else {
                    Some(Token::GreaterThan)
                }
            },
            '~' => {
                if self.match_char('=') {
                    Some(Token::NotEqual)
                } else {
                    None
                }
            },
            '.' => {
                if self.match_char('.') {
                    if self.match_char('.') {
                        Some(Token::Ellipsis)
                    } else {
                        Some(Token::DoubleDot)
                    }
                } else {
                    Some(Token::Dot)
                }
            },
            ':' => Some(Token::Colon),
            '"' => self.string(),
            '\'' => self.string(),
            _ => {
                if c >= '0' && c <= '9' {
                    let token = self.number(c);
                    proof {
                        use_type_invariant(&*self);
                        let n = run_len(src, start + 1, CharClass::NumberPart);
                        assert(seq![c] + src.subrange(start + 1, start + 1 + n) =~= src.subrange(
                            start,
                            start + 1 + n,
                        ));
                    }
                    token
                } else if (c >= 'a' && c <= 'z') || (c >= 'A' && c <= 'Z') || c == '_' {
                    let token = self.identifier(c);
                    proof {
                        use_type_invariant(&*self);
                        let n = run_len(src, start + 1, CharClass::NamePart);
                        assert(seq![c] + src.subrange(start + 1, start + 1 + n) =~= src.subrange(
                            start,
                            start + 1 + n,
                        ));
                    }
                    token
                } else {
                    None
                }
            },
        }
    }

    /// Reads the body of a string literal whose opening quote was just
    /// consumed.
    fn string(&mut self) -> (token: Option<Token>)
        ensures
            final(self).source == old(self).source,
            final(self).line == old(self).line,
            ({
                let (body, n) = string_scan(
                    old(self).source@,
                    old(self).position as int,
                    Seq::empty(),
                );
                &&& final(self).position == old(self).position + n
                &&& optional_view(token) == match body {
                    Some(s) => Some(TokenView::String(s)),
                    None => None,
                }
            }),
    {
        proof {
            use_type_invariant(&*self);
        }
        let ghost src = self.source@;
        let ghost start = self.position as int;
        let mut value = String::new();
        while self.position < self.source.len()
            invariant
                self.source == old(self).source,
                self.source@ == src,
                self.line == old(self).line,
                start == old(self).position,
                start <= self.position <= src.len(),
                string_scan(src, start, Seq::empty()).0 == string_scan(
                    src,
                    self.position as int,
                    value@,
                ).0,
                string_scan(src, start, Seq::empty()).1 == string_scan(
                    src,
                    self.position as int,
                    value@,
                ).1 + (self.position - start),
            decreases src.len() - self.position,
        {
            let c = self.source[self.position];
            if c == '"' || c == '\'' {
                assert(string_scan(src, self.position as int, value@) == (Some(value@), 1nat));
                self.position += 1;
                let token = Some(Token::String(value));
                return token;
            }
            if c == '\\' {
                self.position += 1;
                if self.position < self.source.len() {
                    let escaped = self.source[self.position];
                    value.push(unescape_char(escaped));
                    self.position += 1;
                }
            } else {
                value.push(c);
                self.position += 1;
            }
        }
        None
    }

    /// Reads the rest of a numeric literal whose first character, `first`, was
    /// just consumed: the digits and dots that follow. The literal is a token
    /// only if it holds at most one dot.
    fn number(&mut self, first: char) -> (token: Option<Token>)
        ensures
            final(self).source == old(self).source,
            final(self).line == old(self).line,
            ({
                let src = old(self).source@;
                let n = run_len(src, old(self).position as int, CharClass::NumberPart);
                let text = seq![first] + src.subrange(
                    old(self).position as int,
                    old(self).position + n,
                );
                &&& final(self).position == old(self).position + n
                &&& optional_view(token) == if dot_count(text) <= 1 {
                    Some(TokenView::Number(text))
                } else {
                    None
                }
            }),
    {
        proof {
            use_type_invariant(&*self);
        }
        let ghost src = self.source@;
        let ghost start = self.position as int;
        let mut value = String::new();
        value.push(first);
        let mut dots: u8 = if first == '.' {
            1
        } else {
            0
        };
        proof {
            assert(value@ =~= seq![first] + src.subrange(start, start));
            assert(value@.drop_last() =~= Seq::<char>::empty());
            assert(dot_count(value@.drop_last()) == 0);
        }
        while self.position < self.source.len() && char_in_class(
            self.source[self.position as usize],
            CharClass::NumberPart,
        )
            invariant
                self.source == old(self).source,
                self.source@ == src,
                self.line == old(self).line,
                start <= self.position <= src.len(),
                start + run_len(src, start, CharClass::NumberPart) == self.position + run_len(
                    src,
                    self.position as int,
                    CharClass::NumberPart,
                ),
                value@ == seq![first] + src.subrange(start, self.position as int),
                dots <= 2,
                dots < 2 ==> dots == dot_count(value@),
                dots == 2 ==> dot_count(value@) >= 2,
            decreases src.len() - self.position,
        {
            let c = self.source[self.position];
            proof {
                assert(value@.push(c).drop_last() =~= value@);
                assert(value@.push(c) =~= seq![first] + src.subrange(start, self.position + 1));
            }
            value.push(c);
            if c == '.' && dots < 2 {
                dots += 1;
            }
            self.position += 1;
        }
        if dots <= 1 {
            Some(Token::Number(value))
        } else {
            None
        }
    }

    /// Reads the rest of a word whose first character, `first`, was just
    /// consumed, and looks the word up in the keyword table.
    fn identifier(&mut self, first: char) -> (token: Option<Token>)
        ensures
            final(self).source == old(self).source,
            final(self).line == old(self).line,
            ({
                let src = old(self).source@;
                let n = run_len(src, old(self).position as int, CharClass::NamePart);
                let text = seq![first] + src.subrange(
                    old(self).position as int,
                    old(self).position + n,
                );
                &&& final(self).position == old(self).position + n
                &&& optional_view(token) == Some(word_token(text))
            }),
    {
        proof {
            use_type_invariant(&*self);
        }
        let ghost src = self.source@;
        let ghost start = self.position as int;
        let mut value = String::new();
        value.push(first);
        proof {
            assert(value@ =~= seq![first] + src.subrange(start, start));
        }
        while self.position < self.source.len() && char_in_class(
            self.source[self.position as usize],
            CharClass::NamePart,
        )
            invariant
                self.source == old(self).source,
                self.source@ == src,
                self.line == old(self).line,
                start <= self.position <= src.len(),
                start + run_len(src, start, CharClass::NamePart) == self.position + run_len(
                    src,
                    self.position as int,
                    CharClass::NamePart,
                ),
                value@ == seq![first] + src.subrange(start, self.position as int),
            decreases src.len() - self.position,
        {
            let c = self.source[self.position];
            proof {
                assert(value@.push(c) =~= seq![first] + src.subrange(start, self.position + 1));
            }
            value.push(c);
            self.position += 1;
        }
        Some(keyword_or_identifier(value))
    }

    /// Skips white space and comments, counting the line feeds.
    fn skip_whitespace(&mut self)
        ensures
            final(self).source == old(self).source,
            final(self).position == old(self).position + trivia_len(
                old(self).source@,
                old(self).position as int,
            ),
            final(self).line == clip_line(
                old(self).line + trivia_newlines(old(self).source@, old(self).position as int),
            ),
    {
        proof {
            use_type_invariant(&*self);
        }
        let ghost src = self.source@;
        let ghost start = self.position as int;
        let ghost line = self.line as int;
        let mut done = false;
        while !done && self.position < self.source.len()
            invariant
                self.source == old(self).source,
                self.source@ == src,
                start <= self.position <= src.len(),
                start + trivia_len(src, start) == self.position + trivia_len(
                    src,
                    self.position as int,
                ),
                clip_line(line + trivia_newlines(src, start)) == clip_line(
                    self.line + trivia_newlines(src, self.position as int),
                ),
                done ==> trivia_len(src, self.position as int) == 0 && trivia_newlines(
                    src,
                    self.position as int,
                ) == 0,
            decreases src.len() - self.position + (if done { 0int } else { 1int }),
        {
            let c = self.source[self.position];
            if c == ' ' || c == '\r' || c == '\t' {
                self.position += 1;
            } else if c == '\n' {
                if self.line < usize::MAX {
                    self.line += 1;
                }
                self.position += 1;
            } else if c == '-' {
                match self.peek_next() {
                    Some('-') => {
                        proof {
                            let p = self.position as int;
                            assert(run_len(src, p, CharClass::CommentPart) == 2 + run_len(
                                src,
                                p + 2,
                                CharClass::CommentPart,
                            )) by {
                                assert(run_len(src, p + 1, CharClass::CommentPart) == 1 + run_len(
                                    src,
                                    p + 2,
                                    CharClass::CommentPart,
                                ));
                            }
                        }
                        self.skip_comment();
                        proof {
                            use_type_invariant(&*self);
                        }
                    },
                    _ => {
                        done = true;
                    },
                }
            } else {
                done = true;
            }
        }
    }

    /// Skips to the end of the line: the line feed itself stays.
    fn skip_comment(&mut self)
        ensures
            final(self).source == old(self).source,
            final(self).line == old(self).line,
            final(self).position == old(self).position + run_len(
                old(self).source@,
                old(self).position as int,
                CharClass::CommentPart,
            ),
    {
        proof {
            use_type_invariant(&*self);
        }
        let ghost src = self.source@;
        let ghost start = self.position as int;
        while self.position < self.source.len() && char_in_class(
            self.source[self.position as usize],
            CharClass::CommentPart,
        )
            invariant
                self.source == old(self).source,
                self.source@ == src,
                self.line == old(self).line,
                start <= self.position <= src.len(),
                start + run_len(src, start, CharClass::CommentPart) == self.position + run_len(
                    src,
                    self.position as int,
                    CharClass::CommentPart,
                ),
            decreases src.len() - self.position,
        {
            self.position += 1;
        }
    }

    /// Consumes the next character if it is `expected`.
    fn match_char(&mut self, expected: char) -> (matched: bool)
        ensures
            final(self).source == old(self).source,
            final(self).line == old(self).line,
            matched == has_char(old(self).source@, old(self).position as int, expected),
            final(self).position == old(self).position + (if matched { 1int } else { 0int }),
    {
        proof {
            use_type_invariant(&*self);
        }
        match self.peek() {
            Some(c) => {
                if c == expected {
                    self.position += 1;
                    true
                } else {
                    false
                }
            },
            None => false,
        }
    }

    /// Consumes one character and gives it.
    fn advance(&mut self) -> (c: char)
        requires
            old(self).position < old(self).source.len(),
        ensures
            final(self).source == old(self).source,
            final(self).line == old(self).line,
            final(self).position == old(self).position + 1,
            c == old(self).source@[old(self).position as int],
    {
        let c = self.source[self.position];
        self.position += 1;
        c
    }

    /// The next character, if there is one.
    fn peek(&self) -> (c: Option<char>)
        ensures
            c == if self.position < self.source.len() {
                Some(self.source@[self.position as int])
            } else {
                None
            },
    {
        if self.position < self.source.len() {
            Some(self.source[self.position])
        } else {
            None
        }
    }

    /// The character after the next, if there is one.
    fn peek_next(&self) -> (c: Option<char>)
        ensures
            c == if self.position + 1 < self.source.len() {
                Some(self.source@[self.position + 1])
            } else {
                None
            },
    {
        proof {
            use_type_invariant(self);
        }
        if self.position < self.source.len() && self.position + 1 < self.source.len() {
            Some(self.source[self.position + 1])
        } else {
            None
        }
    }

    /// Whether every character has been consumed.
    fn is_at_end(&self) -> (at_end: bool)
        ensures
            at_end == (self.position >= self.source.len()),
    {
        self.position >= self.source.len()
    }
}

/// No text lexes to the end marker: it stands for the end of the text only.
pub proof fn lemma_no_token_is_the_end_marker(src: Seq<char>, pos: int)
    requires
        0 <= pos < src.len(),
    ensures
        token_at(src, pos).0 != Some(TokenView::EOF),
{
}

/// Every token sequence is closed by the end marker, and holds it nowhere
/// else.
pub proof fn lemma_end_marker_is_last(src: Seq<char>, pos: int)
    requires
        0 <= pos,
    ensures
        tokens_from(src, pos).len() >= 1,
        tokens_from(src, pos).last() == TokenView::EOF,
        forall|i: int|
            0 <= i < tokens_from(src, pos).len() - 1 ==> tokens_from(src, pos)[i] != TokenView::EOF,
    decreases remaining(src, pos),
{
    let start = pos + trivia_len(src, pos);
    if start < src.len() {
        let (token, n) = token_at(src, start);
        lemma_no_token_is_the_end_marker(src, start);
        lemma_end_marker_is_last(src, start + 1 + n);
    }
}

/// Whether a text holds digits only.
pub open spec fn all_digits(text: Seq<char>) -> bool {
    forall|i: int| 0 <= i < text.len() ==> is_digit(#[trigger] text[i])
}

/// A run of characters of one class that reaches the end of the text has
/// the length of what is left of the text.
pub proof fn lemma_run_to_the_end(src: Seq<char>, pos: int, class: CharClass)
    requires
        0 <= pos <= src.len(),
        forall|i: int| pos <= i < src.len() ==> in_class(#[trigger] src[i], class),
    ensures
        run_len(src, pos, class) == src.len() - pos,
    decreases src.len() - pos,
{
    if pos < src.len() {
        lemma_run_to_the_end(src, pos + 1, class);
    }
}

/// Digits hold no dot.
pub proof fn lemma_digits_hold_no_dot(text: Seq<char>)
    requires
        all_digits(text),
    ensures
        dot_count(text) == 0,
    decreases text.len(),
{
    if text.len() > 0 {
        lemma_digits_hold_no_dot(text.drop_last());
    }
}

/// Digits, a dot and digits hold one dot.
pub proof fn lemma_one_dot(whole: Seq<char>, fraction: Seq<char>)
    requires
        all_digits(whole),
        all_digits(fraction),
    ensures
        dot_count(whole + seq!['.'] + fraction) == 1,
    decreases fraction.len(),
{
    let text = whole + seq!['.'] + fraction;
    if fraction.len() == 0 {
        assert(text.drop_last() =~= whole);
        lemma_digits_hold_no_dot(whole);
    } else {
        assert(text.drop_last() =~= whole + seq!['.'] + fraction.drop_last());
        assert(text.last() == fraction.last());
        lemma_one_dot(whole, fraction.drop_last());
    }
}

/// A text of digits and dots that starts with a digit and holds at most one
/// dot lexes to one numeric literal that holds the text as it stands.
pub proof fn lemma_literal(text: Seq<char>)
    requires
        text.len() >= 1,
        is_digit(text[0]),
        forall|i: int| 0 <= i < text.len() ==> in_class(#[trigger] text[i], CharClass::NumberPart),
        dot_count(text) <= 1,
    ensures
        lex(text) == seq![TokenView::Number(text), TokenView::EOF],
{
    assert(trivia_len(text, 0) == 0);
    lemma_run_to_the_end(text, 1, CharClass::NumberPart);
    assert(text.subrange(0, text.len() as int) =~= text);
    assert(token_at(text, 0) == (Some(TokenView::Number(text)), (text.len() - 1) as nat));
    assert(trivia_len(text, text.len() as int) == 0);
    assert(tokens_from(text, text.len() as int) == seq![TokenView::EOF]);
    assert(seq![TokenView::Number(text)] + seq![TokenView::EOF] =~= seq![
        TokenView::Number(text),
        TokenView::EOF,
    ]);
}

/// A decimal literal, digits with or without a dot and more digits behind
/// them, goes through the lexer unchanged: it lexes to one numeric literal
/// with the same text, so the number that is read from the token is the
/// number that is read from the text.
pub proof fn lemma_decimal_literal(whole: Seq<char>, fraction: Seq<char>)
    requires
        whole.len() >= 1,
        all_digits(whole),
        all_digits(fraction),
    ensures
        lex(whole) == seq![TokenView::Number(whole), TokenView::EOF],
        lex(whole + seq!['.'] + fraction) == seq![
            TokenView::Number(whole + seq!['.'] + fraction),
            TokenView::EOF,
        ],
{
    lemma_digits_hold_no_dot(whole);
    lemma_literal(whole);
    lemma_one_dot(whole, fraction);
    let text = whole + seq!['.'] + fraction;
    assert forall|i: int| 0 <= i < text.len() implies in_class(
        #[trigger] text[i],
        CharClass::NumberPart,
    ) by {
        if i < whole.len() {
            assert(text[i] == whole[i]);
        } else if i > whole.len() {
            assert(text[i] == fraction[i - whole.len() - 1]);
        }
    }
    assert(text[0] == whole[0]);
    lemma_literal(text);
}

} // verus!
