//! Tokens, and what the lexer reports in place of one.
use vstd::prelude::*;

verus! {

/// Why a run of characters that starts like a number is no token.
#[derive(Clone, Copy, Debug, PartialEq, Eq, Structural)]
pub enum LexError {
    /// The run holds only characters of numerals, but is no numeral.
    MalformedNumber,
    /// The run holds a character that no numeral holds.
    UnexpectedCharacter,
}

/// One lexical unit of the source.
#[derive(Debug, PartialEq, Eq)]
pub enum Token {
    /// The end of the input.
    TokEof,
    /// The keyword that opens a function definition.
    TokDef,
    /// The keyword that opens the declaration of an outside function.
    TokExtern,
    /// A name, with its text.
    TokIdentifier(String),
    /// A number, with the text of its numeral.
    TokNumber(String),
    /// Any other character: an operator, a parenthesis, a comma.
    TokAscii(char),
}

/// The mathematical value of what the lexer yields at one step: a token, or
/// the report of a run that is none.
pub enum Lexeme {
    Eof,
    Def,
    Extern,
    Identifier(Seq<char>),
    Number(Seq<char>),
    Ascii(char),
    Invalid(LexError),
}

impl View for Token {
    type V = Lexeme;

    open spec fn view(&self) -> Lexeme {
        match self {
            Token::TokEof => Lexeme::Eof,
            Token::TokDef => Lexeme::Def,
            Token::TokExtern => Lexeme::Extern,
            Token::TokIdentifier(name) => Lexeme::Identifier(name@),
            Token::TokNumber(text) => Lexeme::Number(text@),
            Token::TokAscii(c) => Lexeme::Ascii(*c),
        }
    }
}

/// The lexeme that one step of the lexer stands for.
pub open spec fn lexeme_of(step: Result<Token, LexError>) -> Lexeme {
    match step {
        Ok(token) => token@,
        Err(e) => Lexeme::Invalid(e),
    }
}

impl LexError {
    /// The fixed text of the error.
    pub open spec fn text(self) -> Seq<char> {
        match self {
            LexError::MalformedNumber => "Malformed numeric literal"@,
            LexError::UnexpectedCharacter => "Unexpected character in numeric literal"@,
        }
    }

    /// The fixed text of the error.
    pub fn message(&self) -> (r: &'static str)
        ensures
            r@ == self.text(),
    {
        match self {
            LexError::MalformedNumber => "Malformed numeric literal",
            LexError::UnexpectedCharacter => "Unexpected character in numeric literal",
        }
    }

    /// The error as a line for the user.
    pub fn to_text(&self) -> (r: String)
        ensures
            r@ == "Lex error: "@ + self.text(),
    {
        let mut r = String::from_str("Lex error: ");
        r.append(self.message());
        r
    }
}

} // verus!
