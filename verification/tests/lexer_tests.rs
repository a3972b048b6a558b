use lua_interpreter::lexer::{Lexer, Token};

fn lex(source: &str) -> Vec<Token> {
    Lexer::new(source.to_string()).tokenize()
}

fn ident(name: &str) -> Token {
    Token::Identifier(name.to_string())
}

fn number(text: &str) -> Token {
    Token::Number(text.to_string())
}

fn string(text: &str) -> Token {
    Token::String(text.to_string())
}

#[test]
fn tokenizes_if_then_else() {
    assert_eq!(
        lex("if x then y else z end"),
        vec![
            Token::If,
            ident("x"),
            Token::Then,
            ident("y"),
            Token::Else,
            ident("z"),
            Token::End,
            Token::EOF,
        ]
    );
}

#[test]
fn empty_source_is_only_the_end_marker() {
    assert_eq!(lex(""), vec![Token::EOF]);
    assert_eq!(lex("  \t\r\n  \n"), vec![Token::EOF]);
}

#[test]
fn single_character_operators_and_delimiters() {
    assert_eq!(
        lex("+ - * / % ^ # ( ) { } [ ] ; , :"),
        vec![
            Token::Plus,
            Token::Minus,
            Token::Multiply,
            Token::Divide,
            Token::Modulo,
            Token::Power,
            Token::Length,
            Token::LeftParen,
            Token::RightParen,
            Token::LeftBrace,
            Token::RightBrace,
            Token::LeftBracket,
            Token::RightBracket,
            Token::Semicolon,
            Token::Comma,
            Token::Colon,
            Token::EOF,
        ]
    );
}

#[test]
fn two_character_operators() {
    assert_eq!(
        lex("== = <= < >= > ~="),
        vec![
            Token::Equal,
            Token::Assign,
            Token::LessEqual,
            Token::LessThan,
            Token::GreaterEqual,
            Token::GreaterThan,
            Token::NotEqual,
            Token::EOF,
        ]
    );
    assert_eq!(lex("a<=b"), vec![ident("a"), Token::LessEqual, ident("b"), Token::EOF]);
    assert_eq!(lex("==="), vec![Token::Equal, Token::Assign, Token::EOF]);
}

#[test]
fn one_two_and_three_dots() {
    assert_eq!(lex("."), vec![Token::Dot, Token::EOF]);
    assert_eq!(lex(".."), vec![Token::DoubleDot, Token::EOF]);
    assert_eq!(lex("..."), vec![Token::Ellipsis, Token::EOF]);
    assert_eq!(lex("...."), vec![Token::Ellipsis, Token::Dot, Token::EOF]);
    assert_eq!(lex("a.b"), vec![ident("a"), Token::Dot, ident("b"), Token::EOF]);
}

#[test]
fn every_keyword_is_recognised() {
    assert_eq!(
        lex("and break do else elseif end false for function if in local not or repeat return then true until while"),
        vec![
            Token::And,
            Token::Break,
            Token::Do,
            Token::Else,
            Token::ElseIf,
            Token::End,
            Token::False,
            Token::For,
            Token::Function,
            Token::If,
            Token::In,
            Token::Local,
            Token::Not,
            Token::Or,
            Token::Repeat,
            Token::Return,
            Token::Then,
            Token::True,
            Token::Until,
            Token::While,
            Token::EOF,
        ]
    );
}

#[test]
fn identifiers_hold_letters_digits_and_underscores() {
    assert_eq!(
        lex("_x x1 If ends nil end_"),
        vec![
            ident("_x"),
            ident("x1"),
            ident("If"),
            ident("ends"),
            ident("nil"),
            ident("end_"),
            Token::EOF,
        ]
    );
}

#[test]
fn numeric_literals_keep_their_text() {
    assert_eq!(
        lex("0 42 3.14 7. 007"),
        vec![number("0"), number("42"), number("3.14"), number("7."), number("007"), Token::EOF]
    );
    assert_eq!(lex("12abc"), vec![number("12"), ident("abc"), Token::EOF]);
}

#[test]
fn a_literal_with_several_dots_is_consumed_and_dropped() {
    assert_eq!(lex("1.2.3"), vec![Token::EOF]);
    assert_eq!(lex("x = 1..2 y"), vec![ident("x"), Token::Assign, ident("y"), Token::EOF]);
    assert_eq!(lex("1.2.3 + 4"), vec![Token::Plus, number("4"), Token::EOF]);
}

#[test]
fn a_dot_before_digits_is_a_token_of_its_own() {
    assert_eq!(lex(".5"), vec![Token::Dot, number("5"), Token::EOF]);
}

#[test]
fn strings_in_either_quote() {
    assert_eq!(lex("\"hello\""), vec![string("hello"), Token::EOF]);
    assert_eq!(lex("'hello'"), vec![string("hello"), Token::EOF]);
    assert_eq!(lex("\"\""), vec![string(""), Token::EOF]);
    assert_eq!(lex("'a b' \"c\""), vec![string("a b"), string("c"), Token::EOF]);
}

#[test]
fn either_quote_closes_a_string() {
    assert_eq!(lex("\"ab'cd"), vec![string("ab"), ident("cd"), Token::EOF]);
    assert_eq!(lex("'ab\"cd"), vec![string("ab"), ident("cd"), Token::EOF]);
}

#[test]
fn escapes_in_strings() {
    assert_eq!(lex(r#""a\nb""#), vec![string("a\nb"), Token::EOF]);
    assert_eq!(lex(r#""a\tb""#), vec![string("a\tb"), Token::EOF]);
    assert_eq!(lex(r#""a\rb""#), vec![string("a\rb"), Token::EOF]);
    assert_eq!(lex(r#""a\\b""#), vec![string("a\\b"), Token::EOF]);
    assert_eq!(lex(r#""a\"b""#), vec![string("a\"b"), Token::EOF]);
    assert_eq!(lex(r#"'a\'b'"#), vec![string("a'b"), Token::EOF]);
}

#[test]
fn an_unknown_escape_stands_for_its_character() {
    assert_eq!(lex(r#""a\qb""#), vec![string("aqb"), Token::EOF]);
    assert_eq!(lex(r#""\0""#), vec![string("0"), Token::EOF]);
}

#[test]
fn a_line_feed_inside_a_string_belongs_to_it() {
    assert_eq!(lex("\"a\nb\" c"), vec![string("a\nb"), ident("c"), Token::EOF]);
}

#[test]
fn a_string_without_closing_quote_yields_no_token() {
    assert_eq!(lex("x \"abc def"), vec![ident("x"), Token::EOF]);
    assert_eq!(lex("\"abc\\"), vec![Token::EOF]);
    assert_eq!(lex("'"), vec![Token::EOF]);
}

#[test]
fn comments_run_to_the_end_of_the_line() {
    assert_eq!(lex("-- nothing here"), vec![Token::EOF]);
    assert_eq!(lex("a -- b c\nd"), vec![ident("a"), ident("d"), Token::EOF]);
    assert_eq!(lex("a --\n-- x\n  b"), vec![ident("a"), ident("b"), Token::EOF]);
    assert_eq!(lex("a - - b"), vec![ident("a"), Token::Minus, Token::Minus, ident("b"), Token::EOF]);
    assert_eq!(lex("a-b"), vec![ident("a"), Token::Minus, ident("b"), Token::EOF]);
    assert_eq!(lex("a---b\nc"), vec![ident("a"), ident("c"), Token::EOF]);
}

#[test]
fn unknown_characters_are_dropped_and_lexing_goes_on() {
    assert_eq!(lex("a @ b"), vec![ident("a"), ident("b"), Token::EOF]);
    assert_eq!(lex("a ~ b"), vec![ident("a"), ident("b"), Token::EOF]);
    assert_eq!(lex("$?!&|"), vec![Token::EOF]);
    assert_eq!(lex("x = 1 ` y = 2"), vec![
        ident("x"),
        Token::Assign,
        number("1"),
        ident("y"),
        Token::Assign,
        number("2"),
        Token::EOF,
    ]);
}

#[test]
fn characters_outside_ascii_are_dropped_one_by_one() {
    assert_eq!(lex("é x ü"), vec![ident("x"), Token::EOF]);
    assert_eq!(lex("\"é\""), vec![string("é"), Token::EOF]);
}

#[test]
fn the_end_marker_comes_last_and_only_there() {
    for source in ["", "a", "a b c", "1.2.3", "\"open", "x = 1 -- c", "@@@", "if then end"] {
        let tokens = lex(source);
        assert_eq!(tokens.last(), Some(&Token::EOF));
        assert_eq!(tokens.iter().filter(|t| **t == Token::EOF).count(), 1);
    }
}

#[test]
fn tokenizing_again_gives_only_the_end_marker() {
    let mut lexer = Lexer::new("a b".to_string());
    assert_eq!(lexer.tokenize(), vec![ident("a"), ident("b"), Token::EOF]);
    assert_eq!(lexer.tokenize(), vec![Token::EOF]);
}

#[test]
fn tokens_compare_by_variant_and_payload() {
    assert_eq!(ident("a"), ident("a"));
    assert_ne!(ident("a"), ident("b"));
    assert_ne!(ident("a"), string("a"));
    assert_ne!(number("1"), string("1"));
    assert_eq!(Token::Boolean(true), Token::Boolean(true));
    assert_ne!(Token::Boolean(true), Token::Boolean(false));
    assert_ne!(Token::True, Token::Boolean(true));
    assert_eq!(Token::Nil, Token::Nil);
    assert_eq!(ident("a").clone(), ident("a"));
    assert_eq!(Token::While.clone(), Token::While);
}

#[test]
fn decimal_literals_round_trip_through_the_lexer() {
    let samples: [f64; 12] = [
        0.0, 1.0, 0.5, 3.14, 123.456, 1e15, 0.000001, 2.5e-7, 9007199254740993.0, 0.1, 1e21,
        123456789.125,
    ];
    for n in samples {
        let mut text = format!("{}", n);
        if !text.contains('.') {
            text.push_str(".0");
        }
        let tokens = lex(&text);
        assert_eq!(tokens.len(), 2, "{}", text);
        match &tokens[0] {
            Token::Number(literal) => {
                assert_eq!(literal, &text);
                assert_eq!(literal.parse::<f64>().unwrap(), n);
            }
            other => panic!("{:?}", other),
        }
    }
}

#[test]
fn line_feeds_between_tokens_are_counted() {
    let line_after = |source: &str| {
        let mut lexer = Lexer::new(source.to_string());
        assert_eq!(lexer.current_line(), 1);
        lexer.tokenize();
        lexer.current_line()
    };
    assert_eq!(line_after(""), 1);
    assert_eq!(line_after("a b c"), 1);
    assert_eq!(line_after("a\nb"), 2);
    assert_eq!(line_after("a\nb\n"), 3);
    assert_eq!(line_after("\n\n\n"), 4);
    assert_eq!(line_after("a -- comment\nb -- last"), 2);
    assert_eq!(line_after("a\r\nb"), 2);
}

#[test]
fn line_feeds_inside_strings_are_not_counted() {
    let mut lexer = Lexer::new("'a\nb'\n'c\n\nd'".to_string());
    lexer.tokenize();
    assert_eq!(lexer.current_line(), 2);
}
