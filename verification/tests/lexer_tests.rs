use kaleidoscope::lexer::Lexer;
use kaleidoscope::token::{LexError, Token};

fn lex_all(text: &str) -> Vec<Result<Token, LexError>> {
    let mut lexer = Lexer::new(text.as_bytes().to_vec());
    let mut out = Vec::new();
    loop {
        let step = lexer.gettok();
        let done = step == Ok(Token::TokEof);
        out.push(step);
        if done {
            break;
        }
    }
    out
}

fn ident(name: &str) -> Result<Token, LexError> {
    Ok(Token::TokIdentifier(name.to_string()))
}

fn number(text: &str) -> Result<Token, LexError> {
    Ok(Token::TokNumber(text.to_string()))
}

fn ascii(c: char) -> Result<Token, LexError> {
    Ok(Token::TokAscii(c))
}

fn eof() -> Result<Token, LexError> {
    Ok(Token::TokEof)
}

#[test]
fn empty_input_is_the_end_of_input() {
    let mut lexer = Lexer::new(Vec::new());
    assert_eq!(lexer.gettok(), eof());
    assert_eq!(lexer.offset(), 0);
    assert_eq!(lexer.gettok(), eof());
    assert_eq!(lexer.offset(), 0);
}

#[test]
fn whitespace_only_input_is_the_end_of_input() {
    for text in [" ", "\n", " \t\r\n  ", "\u{b}\u{c}", "    \n\n\n   "] {
        let mut lexer = Lexer::new(text.as_bytes().to_vec());
        assert_eq!(lexer.gettok(), eof(), "{:?}", text);
        assert_eq!(lexer.offset(), text.len());
        for _ in 0..3 {
            assert_eq!(lexer.gettok(), eof(), "{:?}", text);
            assert_eq!(lexer.offset(), text.len());
        }
    }
}

#[test]
fn no_break_space_and_next_line_are_whitespace() {
    let mut lexer = Lexer::new(vec![0xa0, 0x85, b'x', 0xa0]);
    assert_eq!(lexer.gettok(), ident("x"));
    assert_eq!(lexer.gettok(), eof());
}

#[test]
fn comment_yields_no_token() {
    assert_eq!(lex_all("# a comment\nfoo"), vec![ident("foo"), eof()]);
    assert_eq!(lex_all("# a comment\rfoo"), vec![ident("foo"), eof()]);
    assert_eq!(lex_all("#\n1"), vec![number("1"), eof()]);
    assert_eq!(lex_all("# only a comment\n"), vec![eof()]);
}

#[test]
fn comment_ends_at_the_first_line_end() {
    assert_eq!(
        lex_all("# one\n# two\n\n  # three\nx # four\ny"),
        vec![ident("x"), ident("y"), eof()]
    );
    assert_eq!(lex_all("#a\n\rb"), vec![ident("b"), eof()]);
}

#[test]
fn comment_without_line_end_runs_to_the_end() {
    assert_eq!(lex_all("x # no line end"), vec![ident("x"), eof()]);
    assert_eq!(lex_all("#"), vec![eof()]);
    let mut lexer = Lexer::new(b"# abc".to_vec());
    assert_eq!(lexer.gettok(), eof());
    assert_eq!(lexer.offset(), 5);
}

#[test]
fn comment_character_ends_a_word() {
    assert_eq!(lex_all("abc#def\nghi"), vec![ident("abc"), ident("ghi"), eof()]);
    assert_eq!(lex_all("12#3\n4"), vec![number("12"), number("4"), eof()]);
}

#[test]
fn single_numeral_is_one_number() {
    for (text, value) in [
        ("0", 0.0),
        ("1", 1.0),
        ("42", 42.0),
        ("3.25", 3.25),
        (".5", 0.5),
        ("5.", 5.0),
        ("1e5", 100000.0),
        ("2E3", 2000.0),
        ("1.5e2", 150.0),
        ("007", 7.0),
    ] {
        let tokens = lex_all(text);
        assert_eq!(tokens, vec![number(text), eof()], "{}", text);
        match &tokens[0] {
            Ok(Token::TokNumber(found)) => assert_eq!(found.parse::<f64>().unwrap(), value),
            other => panic!("no number: {:?}", other),
        }
    }
}

#[test]
fn number_between_whitespace() {
    assert_eq!(lex_all("  12.5\n"), vec![number("12.5"), eof()]);
}

#[test]
fn keywords_are_exact_words() {
    let declared = String::from_utf8(vec![b'e', b'x', b't', b'e', b'r', b'n']).unwrap();
    assert_eq!(lex_all("def"), vec![Ok(Token::TokDef), eof()]);
    assert_eq!(lex_all(&declared), vec![Ok(Token::TokExtern), eof()]);
    assert_eq!(lex_all("define"), vec![ident("define"), eof()]);
    assert_eq!(lex_all("de"), vec![ident("de"), eof()]);
    assert_eq!(lex_all("Def"), vec![ident("Def"), eof()]);
    assert_eq!(lex_all("def1"), vec![ident("def1"), eof()]);
    assert_eq!(lex_all(&format!("{}al", declared)), vec![ident("external"), eof()]);
    assert_eq!(
        lex_all(&format!("def {} x", declared)),
        vec![Ok(Token::TokDef), Ok(Token::TokExtern), ident("x"), eof()]
    );
}

#[test]
fn identifiers_hold_letters_digits_and_dots() {
    assert_eq!(lex_all("x1 y.z a2b"), vec![ident("x1"), ident("y.z"), ident("a2b"), eof()]);
}

#[test]
fn other_characters_are_tokens_by_themselves() {
    assert_eq!(
        lex_all("+-*/ <=>;_"),
        vec![
            ascii('+'),
            ascii('-'),
            ascii('*'),
            ascii('/'),
            ascii('<'),
            ascii('='),
            ascii('>'),
            ascii(';'),
            ascii('_'),
            eof()
        ]
    );
}

#[test]
fn call_is_split_at_punctuation() {
    assert_eq!(
        lex_all("foo(1, 2)"),
        vec![ident("foo"), ascii('('), number("1"), ascii(','), number("2"), ascii(')'), eof()]
    );
}

#[test]
fn operators_end_words_without_whitespace() {
    assert_eq!(
        lex_all("a+b*2.5-c"),
        vec![
            ident("a"),
            ascii('+'),
            ident("b"),
            ascii('*'),
            number("2.5"),
            ascii('-'),
            ident("c"),
            eof()
        ]
    );
    assert_eq!(
        lex_all("(1 + 2"),
        vec![ascii('('), number("1"), ascii('+'), number("2"), eof()]
    );
}

#[test]
fn malformed_number_is_reported() {
    for text in ["1.2.3", ".", "1e", "..", "1e5e5", "1.e"] {
        assert_eq!(lex_all(text), vec![Err(LexError::MalformedNumber), eof()], "{}", text);
    }
}

#[test]
fn unexpected_character_in_number_is_reported() {
    for text in ["1x", "12abc", ".foo", "1e5f", "3.25q"] {
        assert_eq!(lex_all(text), vec![Err(LexError::UnexpectedCharacter), eof()], "{}", text);
    }
    // a numeric character that is no digit starts a word that is no numeral
    let mut lexer = Lexer::new(vec![0xb2]);
    assert_eq!(lexer.gettok(), Err(LexError::UnexpectedCharacter));
    assert_eq!(lexer.gettok(), eof());
}

#[test]
fn exponent_sign_ends_the_numeral() {
    assert_eq!(
        lex_all("1e+5"),
        vec![Err(LexError::MalformedNumber), ascii('+'), number("5"), eof()]
    );
}

#[test]
fn lexer_goes_on_behind_a_malformed_number() {
    let mut lexer = Lexer::new(b"1.2.3 + x".to_vec());
    assert_eq!(lexer.gettok(), Err(LexError::MalformedNumber));
    assert_eq!(lexer.offset(), 5);
    assert_eq!(lexer.gettok(), ascii('+'));
    assert_eq!(lexer.gettok(), ident("x"));
    assert_eq!(lexer.gettok(), eof());
}

#[test]
fn bytes_of_the_upper_half_are_their_code_points() {
    // 0xe9 is a letter, 0xd7 the multiplication sign
    let mut lexer = Lexer::new(vec![b'a', 0xe9, 0xd7, b'b']);
    assert_eq!(lexer.gettok(), ident("a\u{e9}"));
    assert_eq!(lexer.gettok(), ascii('\u{d7}'));
    assert_eq!(lexer.gettok(), ident("b"));
    assert_eq!(lexer.gettok(), eof());
}

#[test]
fn getchar_takes_one_character() {
    let mut lexer = Lexer::new(b"ab".to_vec());
    assert_eq!(lexer.getchar(), Some('a'));
    assert_eq!(lexer.offset(), 1);
    assert_eq!(lexer.getchar(), Some('b'));
    assert_eq!(lexer.offset(), 2);
    assert_eq!(lexer.getchar(), None);
    assert_eq!(lexer.offset(), 2);
    assert_eq!(lexer.getchar(), None);
}

#[test]
fn getchar_and_gettok_share_the_position() {
    let mut lexer = Lexer::new(b"xy z".to_vec());
    assert_eq!(lexer.getchar(), Some('x'));
    assert_eq!(lexer.gettok(), ident("y"));
    assert_eq!(lexer.getchar(), Some(' '));
    assert_eq!(lexer.gettok(), ident("z"));
    assert_eq!(lexer.getchar(), None);
    assert_eq!(lexer.gettok(), eof());
}

#[test]
fn offset_is_behind_the_token() {
    let mut lexer = Lexer::new(b"  foo (".to_vec());
    assert_eq!(lexer.offset(), 0);
    assert_eq!(lexer.gettok(), ident("foo"));
    assert_eq!(lexer.offset(), 5);
    assert_eq!(lexer.gettok(), ascii('('));
    assert_eq!(lexer.offset(), 7);
    assert_eq!(lexer.gettok(), eof());
    assert_eq!(lexer.offset(), 7);
}

#[test]
fn buffer_yields_the_tokens_and_then_nothing() {
    let mut buffer = Lexer::new(b"a + 1".to_vec()).into_iter();
    assert_eq!(buffer.peek(), &ident("a"));
    assert_eq!(buffer.peek(), &ident("a"));
    assert_eq!(buffer.next(), Some(ident("a")));
    assert_eq!(buffer.peek(), &ascii('+'));
    assert_eq!(buffer.next(), Some(ascii('+')));
    assert_eq!(buffer.next(), Some(number("1")));
    assert_eq!(buffer.peek(), &eof());
    assert_eq!(buffer.next(), None);
    assert_eq!(buffer.next(), None);
    assert_eq!(buffer.peek(), &eof());
}

#[test]
fn buffer_over_empty_input_yields_nothing() {
    let mut buffer = Lexer::new(b"  # nothing\n".to_vec()).into_iter();
    assert_eq!(buffer.peek(), &eof());
    assert_eq!(buffer.next(), None);
}

#[test]
fn buffer_hands_out_malformed_numbers() {
    let mut buffer = Lexer::new(b"1.2.3 x".to_vec()).into_iter();
    assert_eq!(buffer.next(), Some(Err(LexError::MalformedNumber)));
    assert_eq!(buffer.next(), Some(ident("x")));
    assert_eq!(buffer.next(), None);
}

#[test]
fn buffer_starts_where_the_lexer_stands() {
    let mut lexer = Lexer::new(b"a b c".to_vec());
    assert_eq!(lexer.gettok(), ident("a"));
    let mut buffer = lexer.into_iter();
    assert_eq!(buffer.next(), Some(ident("b")));
    assert_eq!(buffer.next(), Some(ident("c")));
    assert_eq!(buffer.next(), None);
}

#[test]
fn lex_error_messages() {
    assert_eq!(LexError::MalformedNumber.message(), "Malformed numeric literal");
    assert_eq!(LexError::UnexpectedCharacter.message(), "Unexpected character in numeric literal");
    assert_eq!(LexError::MalformedNumber.to_text(), "Lex error: Malformed numeric literal");
    assert_eq!(
        LexError::UnexpectedCharacter.to_text(),
        "Lex error: Unexpected character in numeric literal"
    );
}
