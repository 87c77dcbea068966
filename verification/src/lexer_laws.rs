//! What holds of the lexer on every input.
use vstd::prelude::*;
use crate::chars::{
    is_decimal_digit, is_line_end, is_numeral_char, is_space, is_word, text_of,
};
use crate::lexer::{
    all_numeral_chars, comment_end, is_comment_start, lemma_scan_bounds, lexemes, scan,
    spaces_end, token_start, word_end, Scan,
};
use crate::numeral::{is_mantissa, is_mantissa_split, is_numeral, is_numeral_split};
use crate::token::Lexeme;

verus! {

/// Every byte of `input` from `pos` on is whitespace.
pub open spec fn only_spaces_from(input: Seq<u8>, pos: int) -> bool {
    forall|i: int| pos <= i < input.len() ==> is_space(#[trigger] input[i])
}

proof fn lemma_spaces_to_the_end(input: Seq<u8>, pos: int)
    requires
        0 <= pos <= input.len(),
        only_spaces_from(input, pos),
    ensures
        spaces_end(input, pos) == input.len(),
    decreases input.len() - pos,
{
    if pos < input.len() {
        assert(is_space(input[pos]));
        lemma_spaces_to_the_end(input, pos + 1);
    }
}

/// Where only whitespace is left, the lexer yields the end of the input and
/// stops at the end of the source. There it yields the end of the input
/// again, however often it is asked, and stays.
pub proof fn lemma_whitespace_yields_eof(input: Seq<u8>, pos: int)
    requires
        0 <= pos <= input.len(),
        only_spaces_from(input, pos),
    ensures
        scan(input, pos) == (Scan { lexeme: Lexeme::Eof, next: input.len() as int }),
        scan(input, input.len() as int) == (Scan { lexeme: Lexeme::Eof, next: input.len() as int }),
        lexemes(input, pos) == seq![Lexeme::Eof],
{
    lemma_spaces_to_the_end(input, pos);
    lemma_spaces_to_the_end(input, input.len() as int);
}

proof fn lemma_comment_ends_behind_line_end(input: Seq<u8>, pos: int, line_end: int)
    requires
        0 <= pos <= line_end < input.len(),
        is_line_end(input[line_end]),
        forall|i: int| pos <= i < line_end ==> !is_line_end(#[trigger] input[i]),
    ensures
        comment_end(input, pos) == line_end + 1,
    decreases line_end - pos,
{
    if pos < line_end {
        assert(!is_line_end(input[pos]));
        lemma_comment_ends_behind_line_end(input, pos + 1, line_end);
    }
}

/// A comment yields no token: from the character that opens it, the lexer
/// goes on as it does from behind the first line end that follows.
pub proof fn lemma_comment_yields_nothing(input: Seq<u8>, pos: int, line_end: int)
    requires
        0 <= pos <= line_end < input.len(),
        is_comment_start(input[pos]),
        is_line_end(input[line_end]),
        forall|i: int| pos <= i < line_end ==> !is_line_end(#[trigger] input[i]),
    ensures
        scan(input, pos) == scan(input, line_end + 1),
        lexemes(input, pos) == lexemes(input, line_end + 1),
{
    lemma_comment_ends_behind_line_end(input, pos, line_end);
    assert(spaces_end(input, pos) == pos);
    // the next token starts at the same place from both positions
    assert(token_start(input, pos) == token_start(input, comment_end(input, pos)));
}

/// A comment that no line end closes runs to the end of the input.
pub proof fn lemma_open_comment_yields_eof(input: Seq<u8>, pos: int)
    requires
        0 <= pos < input.len(),
        is_comment_start(input[pos]),
        forall|i: int| pos <= i < input.len() ==> !is_line_end(#[trigger] input[i]),
    ensures
        scan(input, pos) == (Scan { lexeme: Lexeme::Eof, next: input.len() as int }),
{
    lemma_comment_runs_to_end(input, pos);
    let end = input.len() as int;
    assert(spaces_end(input, pos) == pos);
    assert(spaces_end(input, end) == end);
    assert(token_start(input, end) == end);
    assert(token_start(input, pos) == token_start(input, comment_end(input, pos)));
}

proof fn lemma_comment_runs_to_end(input: Seq<u8>, pos: int)
    requires
        0 <= pos <= input.len(),
        forall|i: int| pos <= i < input.len() ==> !is_line_end(#[trigger] input[i]),
    ensures
        comment_end(input, pos) == input.len(),
    decreases input.len() - pos,
{
    if pos < input.len() {
        assert(!is_line_end(input[pos]));
        lemma_comment_runs_to_end(input, pos + 1);
    }
}

proof fn lemma_word_to_the_end(input: Seq<u8>, pos: int)
    requires
        0 <= pos <= input.len(),
        forall|i: int| pos <= i < input.len() ==> is_word(#[trigger] input[i]),
    ensures
        word_end(input, pos) == input.len(),
    decreases input.len() - pos,
{
    if pos < input.len() {
        assert(is_word(input[pos]));
        lemma_word_to_the_end(input, pos + 1);
    }
}

/// A mantissa is not empty, starts with a digit or a dot, and holds digits
/// and dots only.
proof fn lemma_mantissa_chars(s: Seq<u8>)
    requires
        is_mantissa(s),
    ensures
        s.len() >= 1,
        is_decimal_digit(s[0]) || s[0] == 0x2e,
        forall|i: int| 0 <= i < s.len() ==> is_decimal_digit(#[trigger] s[i]) || s[i] == 0x2e,
{
    let d = choose|d: int| is_mantissa_split(s, d);
    assert forall|i: int| 0 <= i < s.len() implies is_decimal_digit(#[trigger] s[i]) || s[i]
        == 0x2e by {
        if i < d {
            assert(s.take(d)[i] == s[i]);
        } else if i > d {
            assert(s.skip(d + 1)[i - (d + 1)] == s[i]);
        }
    }
}

/// A numeral is not empty, starts with a digit or a dot, and holds only
/// characters of numerals.
pub proof fn lemma_numeral_chars(s: Seq<u8>)
    requires
        is_numeral(s),
    ensures
        s.len() >= 1,
        is_decimal_digit(s[0]) || s[0] == 0x2e,
        all_numeral_chars(s),
{
    if is_mantissa(s) {
        lemma_mantissa_chars(s);
    } else {
        let e = choose|e: int| is_numeral_split(s, e);
        lemma_mantissa_chars(s.take(e));
        assert(s.take(e)[0] == s[0]);
        assert forall|i: int| 0 <= i < s.len() implies is_numeral_char(#[trigger] s[i]) by {
            if i < e {
                assert(s.take(e)[i] == s[i]);
            } else if i > e {
                assert(s.skip(e + 1)[i - (e + 1)] == s[i]);
            }
        }
    }
}

/// A source that is one numeral yields one token, the number with the text
/// of the numeral, and then the end of the input.
pub proof fn lemma_numeral_yields_number(input: Seq<u8>)
    requires
        is_numeral(input),
    ensures
        scan(input, 0) == (Scan {
            lexeme: Lexeme::Number(text_of(input)),
            next: input.len() as int,
        }),
        lexemes(input, 0) == seq![Lexeme::Number(text_of(input)), Lexeme::Eof],
{
    lemma_numeral_chars(input);
    assert forall|i: int| 0 <= i < input.len() implies is_word(#[trigger] input[i]) by {
        assert(is_numeral_char(input[i]));
    }
    lemma_word_to_the_end(input, 0);
    assert(spaces_end(input, 0) == 0);
    assert(token_start(input, 0) == 0);
    assert(input.subrange(0, input.len() as int) =~= input);
    let end = input.len() as int;
    assert(spaces_end(input, end) == end);
    assert(scan(input, end).lexeme is Eof);
    assert(lexemes(input, end) =~= seq![Lexeme::Eof]);
    assert(lexemes(input, 0) =~= seq![Lexeme::Number(text_of(input))] + lexemes(input, end));
    assert(lexemes(input, 0) =~= seq![Lexeme::Number(text_of(input)), Lexeme::Eof]);
}

/// The lexemes that the lexer yields end with the end of the input, and
/// hold it nowhere else.
pub proof fn lemma_lexemes_end(input: Seq<u8>, pos: int)
    ensures
        lexemes(input, pos).len() >= 1,
        lexemes(input, pos).last() is Eof,
        forall|i: int| 0 <= i < lexemes(input, pos).len() - 1 ==> !(#[trigger] lexemes(
            input,
            pos,
        )[i] is Eof),
    decreases input.len() - pos,
{
    let step = scan(input, pos);
    if !(step.lexeme is Eof) {
        lemma_scan_bounds(input, pos);
        lemma_lexemes_end(input, step.next);
        let tail = lexemes(input, step.next);
        assert(lexemes(input, pos) =~= seq![step.lexeme] + tail);
        assert forall|i: int| 0 <= i < lexemes(input, pos).len() - 1 implies !(
        #[trigger] lexemes(input, pos)[i] is Eof) by {
            if i > 0 {
                assert(lexemes(input, pos)[i] == tail[i - 1]);
            }
        }
    }
}

} // verus!
