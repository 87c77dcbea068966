use kaleidoscope::chars::{
    decimal_digit, letter, line_end, numeral_char, numeric, space, to_char, word,
};
use kaleidoscope::numeral::numeral;

#[test]
fn bytes_stand_for_the_characters_of_their_code_point() {
    for b in 0..=255u8 {
        assert_eq!(to_char(b), char::from(b));
        assert_eq!(to_char(b) as u32, b as u32);
    }
}

#[test]
fn whitespace_is_the_unicode_property() {
    for b in 0..=255u8 {
        assert_eq!(space(b), char::from(b).is_whitespace(), "byte {}", b);
    }
}

#[test]
fn letters_are_the_unicode_property() {
    for b in 0..=255u8 {
        assert_eq!(letter(b), char::from(b).is_alphabetic(), "byte {}", b);
    }
}

#[test]
fn numeric_characters_are_the_unicode_property() {
    for b in 0..=255u8 {
        assert_eq!(numeric(b), char::from(b).is_numeric(), "byte {}", b);
    }
}

#[test]
fn decimal_digits_are_the_ascii_digits() {
    for b in 0..=255u8 {
        assert_eq!(decimal_digit(b), char::from(b).is_ascii_digit(), "byte {}", b);
    }
}

#[test]
fn line_ends_are_line_feed_and_carriage_return() {
    for b in 0..=255u8 {
        assert_eq!(line_end(b), b == b'\n' || b == b'\r', "byte {}", b);
    }
}

#[test]
fn word_characters_are_letters_numeric_characters_and_the_dot() {
    for b in 0..=255u8 {
        let c = char::from(b);
        assert_eq!(word(b), c.is_alphabetic() || c.is_numeric() || c == '.', "byte {}", b);
    }
    for b in b"()+-*/<>=,;#_ \t\n".iter() {
        assert!(!word(*b), "byte {}", b);
    }
}

#[test]
fn numeral_characters_are_digits_dot_and_exponent_letter() {
    for b in 0..=255u8 {
        let c = char::from(b);
        assert_eq!(numeral_char(b), c.is_ascii_digit() || c == '.' || c == 'e' || c == 'E');
    }
}

#[test]
fn numerals_are_accepted() {
    for text in [
        "0", "1", "42", "3.25", ".5", "5.", "1e5", "1E5", "1.e5", ".5e10", "12.5E03", "007",
    ] {
        assert!(numeral(&text.as_bytes().to_vec()), "{}", text);
        assert!(text.parse::<f64>().is_ok(), "{}", text);
    }
}

#[test]
fn what_is_no_numeral_is_refused() {
    for text in [
        "", ".", "1.2.3", "1e", "e5", "1ee5", "1e5.", "1e5e5", "..", "1x", ".e5", "1.e", "abc",
        "1 ", " 1", "+1", "-1", "1e+5",
    ] {
        assert!(!numeral(&text.as_bytes().to_vec()), "{:?}", text);
    }
}

#[test]
fn numerals_are_what_parses_as_a_float() {
    // every string of up to six characters over a small alphabet of numeral characters
    let alphabet = [b'0', b'7', b'.', b'e', b'E'];
    let mut count = 0;
    for len in 0..=6usize {
        let mut index = vec![0usize; len];
        loop {
            let bytes: Vec<u8> = index.iter().map(|i| alphabet[*i]).collect();
            let text = String::from_utf8(bytes.clone()).unwrap();
            assert_eq!(numeral(&bytes), text.parse::<f64>().is_ok(), "{:?}", text);
            count += 1;
            let mut k = 0;
            while k < len {
                index[k] += 1;
                if index[k] < alphabet.len() {
                    break;
                }
                index[k] = 0;
                k += 1;
            }
            if k == len {
                break;
            }
        }
    }
    assert_eq!(count, 1 + 5 + 25 + 125 + 625 + 3125 + 15625);
}
