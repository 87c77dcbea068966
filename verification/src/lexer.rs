//! The lexer: from the bytes of the source to tokens, one at a time.
use vstd::prelude::*;
use crate::chars::{
    char_of, is_letter, is_line_end, is_numeral_char, is_numeric, is_space, is_word, letter,
    line_end, numeral_char, numeric, space, text_of, to_char, word,
};
use crate::numeral::{is_numeral, numeral};
use crate::token::{lexeme_of, LexError, Lexeme, Token};

verus! {

/// Trusted, not proved: `String::push` of the standard library appends the
/// character to the end of the string and leaves the rest of it as it was.
pub assume_specification[ String::push ](s: &mut String, c: char)
    ensures
        final(s)@ == old(s)@.push(c),
;

/// The end of the run of whitespace that starts at `pos`.
pub open spec fn spaces_end(input: Seq<u8>, pos: int) -> int
    decreases input.len() - pos,
{
    if 0 <= pos < input.len() && is_space(input[pos]) {
        spaces_end(input, pos + 1)
    } else {
        pos
    }
}

/// The end of the run of word characters that starts at `pos`.
pub open spec fn word_end(input: Seq<u8>, pos: int) -> int
    decreases input.len() - pos,
{
    if 0 <= pos < input.len() && is_word(input[pos]) {
        word_end(input, pos + 1)
    } else {
        pos
    }
}

/// The end of the comment that `pos` lies in: the place after the first line
/// end at or after `pos`, or the end of the input where there is none.
pub open spec fn comment_end(input: Seq<u8>, pos: int) -> int
    decreases input.len() - pos,
{
    if 0 <= pos < input.len() {
        if is_line_end(input[pos]) {
            pos + 1
        } else {
            comment_end(input, pos + 1)
        }
    } else {
        pos
    }
}

/// The byte that opens a comment.
pub open spec fn is_comment_start(b: u8) -> bool {
    b == 0x23
}

/// Where the token after `pos` starts: past whitespace and comments. It is
/// the end of the input where no token follows.
pub open spec fn token_start(input: Seq<u8>, pos: int) -> int
    decreases input.len() - pos,
    via token_start_decreases
{
    let p = spaces_end(input, pos);
    if 0 <= p < input.len() && is_comment_start(input[p]) {
        token_start(input, comment_end(input, p))
    } else {
        p
    }
}

#[via_fn]
proof fn token_start_decreases(input: Seq<u8>, pos: int) {
    let p = spaces_end(input, pos);
    if 0 <= p < input.len() && is_comment_start(input[p]) {
        lemma_spaces_end_bounds(input, pos);
        lemma_comment_end_bounds(input, p);
    }
}

pub proof fn lemma_spaces_end_bounds(input: Seq<u8>, pos: int)
    ensures
        pos <= spaces_end(input, pos),
        0 <= pos <= input.len() ==> spaces_end(input, pos) <= input.len(),
        0 <= pos && spaces_end(input, pos) < input.len() ==> !is_space(
            input[spaces_end(input, pos)],
        ),
        forall|i: int| pos <= i < spaces_end(input, pos) ==> is_space(#[trigger] input[i]),
    decreases input.len() - pos,
{
    if 0 <= pos < input.len() && is_space(input[pos]) {
        lemma_spaces_end_bounds(input, pos + 1);
    }
}

pub proof fn lemma_word_end_bounds(input: Seq<u8>, pos: int)
    ensures
        pos <= word_end(input, pos),
        0 <= pos <= input.len() ==> word_end(input, pos) <= input.len(),
        0 <= pos && word_end(input, pos) < input.len() ==> !is_word(input[word_end(input, pos)]),
        forall|i: int| pos <= i < word_end(input, pos) ==> is_word(#[trigger] input[i]),
        0 <= pos < input.len() && is_word(input[pos]) ==> pos < word_end(input, pos),
    decreases input.len() - pos,
{
    if 0 <= pos < input.len() && is_word(input[pos]) {
        lemma_word_end_bounds(input, pos + 1);
    }
}

pub proof fn lemma_comment_end_bounds(input: Seq<u8>, pos: int)
    ensures
        pos <= comment_end(input, pos),
        0 <= pos <= input.len() ==> comment_end(input, pos) <= input.len(),
        0 <= pos < input.len() ==> pos < comment_end(input, pos),
    decreases input.len() - pos,
{
    if 0 <= pos < input.len() && !is_line_end(input[pos]) {
        lemma_comment_end_bounds(input, pos + 1);
    }
}

pub proof fn lemma_token_start_bounds(input: Seq<u8>, pos: int)
    ensures
        pos <= token_start(input, pos),
        0 <= pos <= input.len() ==> token_start(input, pos) <= input.len(),
        0 <= pos && token_start(input, pos) < input.len() ==> {
            let b = input[token_start(input, pos)];
            !is_space(b) && !is_comment_start(b)
        },
    decreases input.len() - pos,
{
    let p = spaces_end(input, pos);
    lemma_spaces_end_bounds(input, pos);
    if 0 <= p < input.len() && is_comment_start(input[p]) {
        lemma_comment_end_bounds(input, p);
        lemma_token_start_bounds(input, comment_end(input, p));
    }
}

/// The bytes of the word that opens a function definition.
pub open spec fn def_word() -> Seq<u8> {
    seq![0x64u8, 0x65u8, 0x66u8]
}

/// The bytes of the word that opens the declaration of an outside function.
pub open spec fn extern_word() -> Seq<u8> {
    seq![0x65u8, 0x78u8, 0x74u8, 0x65u8, 0x72u8, 0x6eu8]
}

/// The lexeme of a word that starts with a letter: a keyword or a name.
pub open spec fn word_lexeme(run: Seq<u8>) -> Lexeme {
    if run =~= def_word() {
        Lexeme::Def
    } else if run =~= extern_word() {
        Lexeme::Extern
    } else {
        Lexeme::Identifier(text_of(run))
    }
}

/// Every byte of the run may occur in a numeral.
pub open spec fn all_numeral_chars(run: Seq<u8>) -> bool {
    forall|i: int| 0 <= i < run.len() ==> is_numeral_char(#[trigger] run[i])
}

/// The lexeme of a word that starts with a numeric character or a dot: a
/// number where the word is a numeral, else the report of what is wrong.
pub open spec fn number_lexeme(run: Seq<u8>) -> Lexeme {
    if is_numeral(run) {
        Lexeme::Number(text_of(run))
    } else if all_numeral_chars(run) {
        Lexeme::Invalid(LexError::MalformedNumber)
    } else {
        Lexeme::Invalid(LexError::UnexpectedCharacter)
    }
}

/// One step of the lexer: the lexeme found and the place after it.
pub struct Scan {
    pub lexeme: Lexeme,
    pub next: int,
}

/// The step that the lexer makes from `pos`.
///
/// Whitespace and comments are passed over. A letter starts a word, which is
/// a keyword or a name; a numeric character or a dot starts a word that must
/// be a numeral; any other character is a token by itself. At the end of the
/// input the lexeme is `Eof` and the place stays.
pub open spec fn scan(input: Seq<u8>, pos: int) -> Scan {
    let p = token_start(input, pos);
    if 0 <= p < input.len() {
        let b = input[p];
        let e = word_end(input, p);
        if is_letter(b) {
            Scan { lexeme: word_lexeme(input.subrange(p, e)), next: e }
        } else if is_numeric(b) || b == 0x2e {
            Scan { lexeme: number_lexeme(input.subrange(p, e)), next: e }
        } else {
            Scan { lexeme: Lexeme::Ascii(char_of(b)), next: p + 1 }
        }
    } else {
        Scan { lexeme: Lexeme::Eof, next: p }
    }
}

/// A step never goes back nor leaves the input, and moves on unless the
/// input has ended.
pub proof fn lemma_scan_bounds(input: Seq<u8>, pos: int)
    ensures
        pos <= scan(input, pos).next,
        pos <= input.len() ==> scan(input, pos).next <= input.len(),
        !(scan(input, pos).lexeme is Eof) ==> 0 <= pos < scan(input, pos).next <= input.len(),
        scan(input, pos).lexeme is Eof && 0 <= pos <= input.len() ==> scan(input, pos).next
            == input.len(),
{
    let p = token_start(input, pos);
    lemma_token_start_bounds(input, pos);
    if 0 <= p < input.len() {
        lemma_word_end_bounds(input, p);
        lemma_word_lexeme_not_eof(input.subrange(p, word_end(input, p)));
    }
}

proof fn lemma_word_lexeme_not_eof(run: Seq<u8>)
    ensures
        !(word_lexeme(run) is Eof),
        !(number_lexeme(run) is Eof),
{
}

/// The lexemes that the lexer yields from `pos` on, up to and with the end
/// of the input.
pub open spec fn lexemes(input: Seq<u8>, pos: int) -> Seq<Lexeme>
    decreases input.len() - pos,
    via lexemes_decreases
{
    let step = scan(input, pos);
    if step.lexeme is Eof {
        seq![Lexeme::Eof]
    } else {
        seq![step.lexeme] + lexemes(input, step.next)
    }
}

#[via_fn]
proof fn lexemes_decreases(input: Seq<u8>, pos: int) {
    lemma_scan_bounds(input, pos);
}

/// The end of the run of whitespace that starts at `pos`.
fn find_spaces_end(input: &Vec<u8>, pos: usize) -> (end: usize)
    requires
        pos <= input.len(),
    ensures
        end == spaces_end(input@, pos as int),
        pos <= end <= input.len(),
{
    let mut end: usize = pos;
    while end < input.len() && space(input[end])
        invariant
            pos <= end <= input.len(),
            spaces_end(input@, end as int) == spaces_end(input@, pos as int),
        decreases input.len() - end,
    {
        end += 1;
    }
    end
}

/// The end of the comment that `pos` lies in.
fn find_comment_end(input: &Vec<u8>, pos: usize) -> (end: usize)
    requires
        pos <= input.len(),
    ensures
        end == comment_end(input@, pos as int),
        pos <= end <= input.len(),
{
    let mut end: usize = pos;
    while end < input.len() && !line_end(input[end])
        invariant
            pos <= end <= input.len(),
            comment_end(input@, end as int) == comment_end(input@, pos as int),
        decreases input.len() - end,
    {
        end += 1;
    }
    if end < input.len() {
        end += 1;
    }
    end
}

/// Where the token after `pos` starts.
fn find_token_start(input: &Vec<u8>, pos: usize) -> (start: usize)
    requires
        pos <= input.len(),
    ensures
        start == token_start(input@, pos as int),
        pos <= start <= input.len(),
{
    let mut start: usize = find_spaces_end(input, pos);
    proof {
        lemma_spaces_end_fixed(input@, pos as int);
    }
    while start < input.len() && input[start] == 0x23
        invariant
            pos <= start <= input.len(),
            start == spaces_end(input@, start as int),
            token_start(input@, start as int) == token_start(input@, pos as int),
        decreases input.len() - start,
    {
        proof {
            lemma_comment_end_bounds(input@, start as int);
        }
        let after = find_comment_end(input, start);
        start = find_spaces_end(input, after);
        proof {
            lemma_spaces_end_fixed(input@, after as int);
        }
    }
    start
}

/// Past a run of whitespace no whitespace starts, and the next token starts
/// where it does from the start of the run.
proof fn lemma_spaces_end_fixed(input: Seq<u8>, pos: int)
    ensures
        spaces_end(input, spaces_end(input, pos)) == spaces_end(input, pos),
        token_start(input, spaces_end(input, pos)) == token_start(input, pos),
    decreases input.len() - pos,
{
    if 0 <= pos < input.len() && is_space(input[pos]) {
        lemma_spaces_end_fixed(input, pos + 1);
    }
}

/// The word that starts at `pos`.
fn take_word(input: &Vec<u8>, pos: usize) -> (run: Vec<u8>)
    requires
        pos <= input.len(),
    ensures
        run@ == input@.subrange(pos as int, word_end(input@, pos as int)),
        pos + run.len() == word_end(input@, pos as int),
        pos + run.len() <= input.len(),
{
    let mut run: Vec<u8> = Vec::new();
    let mut end: usize = pos;
    while end < input.len() && word(input[end])
        invariant
            pos <= end <= input.len(),
            word_end(input@, end as int) == word_end(input@, pos as int),
            run@ == input@.subrange(pos as int, end as int),
        decreases input.len() - end,
    {
        run.push(input[end]);
        end += 1;
        assert(run@ =~= input@.subrange(pos as int, end as int));
    }
    run
}

/// The text that the bytes of a word stand for.
fn word_text(run: &Vec<u8>) -> (text: String)
    ensures
        text@ == text_of(run@),
{
    let mut text = String::new();
    let mut i: usize = 0;
    while i < run.len()
        invariant
            i <= run.len(),
            text@ == text_of(run@.take(i as int)),
        decreases run.len() - i,
    {
        text.push(to_char(run[i]));
        i += 1;
        assert(text@ =~= text_of(run@.take(i as int)));
    }
    assert(run@.take(i as int) =~= run@);
    text
}

/// The token of a word that starts with a letter.
fn word_token(run: &Vec<u8>) -> (token: Token)
    ensures
        token@ == word_lexeme(run@),
{
    if run.len() == 3 && run[0] == 0x64 && run[1] == 0x65 && run[2] == 0x66 {
        Token::TokDef
    } else if run.len() == 6 && run[0] == 0x65 && run[1] == 0x78 && run[2] == 0x74 && run[3]
        == 0x65 && run[4] == 0x72 && run[5] == 0x6e {
        Token::TokExtern
    } else {
        assert(!(run@ =~= def_word())) by {
            if run.len() == 3 {
                assert(def_word()[0] == 0x64 && def_word()[1] == 0x65 && def_word()[2] == 0x66);
            }
        }
        assert(!(run@ =~= extern_word())) by {
            if run.len() == 6 {
                assert(extern_word()[0] == 0x65 && extern_word()[1] == 0x78 && extern_word()[2]
                    == 0x74);
                assert(extern_word()[3] == 0x65 && extern_word()[4] == 0x72 && extern_word()[5]
                    == 0x6e);
            }
        }
        Token::TokIdentifier(word_text(run))
    }
}

/// Tells whether every byte of the run may occur in a numeral.
fn only_numeral_chars(run: &Vec<u8>) -> (r: bool)
    ensures
        r == all_numeral_chars(run@),
{
    let mut i: usize = 0;
    while i < run.len()
        invariant
            i <= run.len(),
            forall|j: int| 0 <= j < i ==> is_numeral_char(#[trigger] run@[j]),
        decreases run.len() - i,
    {
        if !numeral_char(run[i]) {
            return false;
        }
        i += 1;
    }
    true
}

/// The token of a word that starts with a numeric character or a dot.
fn number_token(run: &Vec<u8>) -> (step: Result<Token, LexError>)
    ensures
        lexeme_of(step) == number_lexeme(run@),
{
    if numeral(run) {
        Ok(Token::TokNumber(word_text(run)))
    } else if only_numeral_chars(run) {
        Err(LexError::MalformedNumber)
    } else {
        Err(LexError::UnexpectedCharacter)
    }
}

/// The character at `pos`, if the input reaches that far.
pub open spec fn next_char(input: Seq<u8>, pos: int) -> Option<char> {
    if 0 <= pos < input.len() {
        Some(char_of(input[pos]))
    } else {
        None
    }
}

/// A lexer over the bytes of a source text. It yields the tokens of the text
/// one by one and never goes back.
pub struct Lexer {
    input: Vec<u8>,
    pos: usize,
}

impl Lexer {
    #[verifier::type_invariant]
    spec fn in_bounds(self) -> bool {
        self.pos <= self.input.len()
    }

    /// The bytes of the source.
    pub closed spec fn source(&self) -> Seq<u8> {
        self.input@
    }

    /// The number of bytes that the lexer has passed.
    pub closed spec fn position(&self) -> int {
        self.pos as int
    }

    /// The lexemes that the lexer has yet to yield.
    pub open spec fn pending(&self) -> Seq<Lexeme> {
        lexemes(self.source(), self.position())
    }

    /// A lexer at the start of `input`.
    pub fn new(input: Vec<u8>) -> (lexer: Self)
        ensures
            lexer.source() == input@,
            lexer.position() == 0,
    {
        Self { input, pos: 0 }
    }

    /// The number of bytes that the lexer has passed.
    pub fn offset(&self) -> (n: usize)
        ensures
            n == self.position(),
    {
        self.pos
    }

    /// Takes the next character of the source, if there is one.
    pub fn getchar(&mut self) -> (c: Option<char>)
        ensures
            final(self).source() == old(self).source(),
            c == next_char(old(self).source(), old(self).position()),
            0 <= old(self).position() <= final(self).position() <= final(self).source().len(),
            final(self).position() == old(self).position() + (if c.is_some() {
                1int
            } else {
                0int
            }),
    {
        proof {
            use_type_invariant(&*self);
        }
        if self.pos < self.input.len() {
            let b = self.input[self.pos];
            self.pos = self.pos + 1;
            Some(to_char(b))
        } else {
            None
        }
    }

    /// Yields the next token, or the report of a malformed number, and moves
    /// past it.
    pub fn gettok(&mut self) -> (step: Result<Token, LexError>)
        ensures
            final(self).source() == old(self).source(),
            lexeme_of(step) == scan(old(self).source(), old(self).position()).lexeme,
            final(self).position() == scan(old(self).source(), old(self).position()).next,
            0 <= old(self).position() <= final(self).position() <= final(self).source().len(),
    {
        proof {
            use_type_invariant(&*self);
        }
        let start = find_token_start(&self.input, self.pos);
        if start >= self.input.len() {
            self.pos = start;
            return Ok(Token::TokEof);
        }
        let b = self.input[start];
        if letter(b) {
            let run = take_word(&self.input, start);
            self.pos = start + run.len();
            Ok(word_token(&run))
        } else if numeric(b) || b == 0x2e {
            let run = take_word(&self.input, start);
            self.pos = start + run.len();
            number_token(&run)
        } else {
            self.pos = start;
            match self.getchar() {
                Some(c) => Ok(Token::TokAscii(c)),
                None => Ok(Token::TokEof),
            }
        }
    }

    /// Wraps the lexer in a buffer that holds one token of look-ahead. The
    /// buffer takes the first token from the lexer.
    pub fn into_iter(self) -> (buffer: TokenBuffer)
        ensures
            buffer.pending() == self.pending(),
    {
        let mut lexer = self;
        let first = lexer.gettok();
        TokenBuffer { lexer, next: first }
    }
}

/// A lexer with one token of look-ahead: the next token can be read before
/// it is taken.
pub struct TokenBuffer {
    lexer: Lexer,
    next: Result<Token, LexError>,
}

impl TokenBuffer {
    /// The lexemes that the buffer has yet to yield, up to and with the end
    /// of the input.
    pub closed spec fn pending(&self) -> Seq<Lexeme> {
        if lexeme_of(self.next) is Eof {
            seq![Lexeme::Eof]
        } else {
            seq![lexeme_of(self.next)] + self.lexer.pending()
        }
    }

    /// The next token, which stays in the buffer.
    pub fn peek(&self) -> (step: &Result<Token, LexError>)
        ensures
            lexeme_of(*step) == self.pending().first(),
    {
        &self.next
    }

    /// Takes the next token out of the buffer, which takes another one from
    /// the lexer. At the end of the input there is none, and nothing
    /// changes.
    pub fn next(&mut self) -> (step: Option<Result<Token, LexError>>)
        ensures
            match step {
                Some(found) => {
                    &&& !(old(self).pending().first() is Eof)
                    &&& lexeme_of(found) == old(self).pending().first()
                    &&& final(self).pending() == old(self).pending().drop_first()
                },
                None => {
                    &&& old(self).pending().first() is Eof
                    &&& final(self).pending() == old(self).pending()
                },
            },
    {
        if let Ok(Token::TokEof) = &self.next {
            return None;
        }
        let mut found = self.lexer.gettok();
        std::mem::swap(&mut self.next, &mut found);
        proof {
            assert(old(self).pending().drop_first() =~= old(self).lexer.pending());
        }
        Some(found)
    }
}

} // verus!
