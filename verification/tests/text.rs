use rust_raytracer::text::{
    char_is_digit, char_is_space, chars_of, index_at, number_at, run_end, split_fields,
    split_words, CharClass,
};

fn chars(s: &str) -> Vec<char> {
    s.chars().collect()
}

fn pieces(s: &str, ranges: &[(usize, usize)]) -> Vec<String> {
    let c = chars(s);
    ranges.iter().map(|&(a, b)| c[a..b].iter().collect()).collect()
}

#[test]
fn blank_characters_are_those_of_the_standard_library() {
    for n in 0..=0x10FFFFu32 {
        if let Some(c) = char::from_u32(n) {
            assert_eq!(char_is_space(c), c.is_whitespace(), "U+{:04X}", n);
        }
    }
}

#[test]
fn digits_are_the_ascii_digits() {
    for n in 0..=0x10FFFFu32 {
        if let Some(c) = char::from_u32(n) {
            assert_eq!(char_is_digit(c), c.is_ascii_digit(), "U+{:04X}", n);
        }
    }
}

#[test]
fn chars_of_keeps_every_character() {
    assert_eq!(chars_of(""), Vec::<char>::new());
    assert_eq!(chars_of("v 1"), vec!['v', ' ', '1']);
    assert_eq!(chars_of("é→x"), vec!['é', '→', 'x']);
}

#[test]
fn classes_of_characters() {
    assert!(CharClass::NonBlank.contains('x') && !CharClass::NonBlank.contains(' '));
    assert!(CharClass::Digit.contains('7') && !CharClass::Digit.contains('.'));
    assert!(CharClass::DigitOrDot.contains('7') && CharClass::DigitOrDot.contains('.'));
    assert!(!CharClass::DigitOrDot.contains('e'));
    assert!(CharClass::Except('/').contains('7') && !CharClass::Except('/').contains('/'));
}

#[test]
fn run_end_stops_at_the_first_character_outside_the_class() {
    let c = chars("123abc");
    assert_eq!(run_end(&c, 0, 6, CharClass::Digit), 3);
    assert_eq!(run_end(&c, 1, 6, CharClass::Digit), 3);
    assert_eq!(run_end(&c, 3, 6, CharClass::Digit), 3);
    assert_eq!(run_end(&c, 0, 2, CharClass::Digit), 2);
    assert_eq!(run_end(&c, 0, 6, CharClass::NonBlank), 6);
    assert_eq!(run_end(&c, 6, 6, CharClass::NonBlank), 6);
}

#[test]
fn words_are_the_runs_between_blanks() {
    for s in ["", " ", "a", " a", "a ", "  v 1.0\t-2  3e4 \r", "f 1/2/3 4//5", "a\u{a0}b\u{3000}c"] {
        let got = pieces(s, &split_words(&chars(s)));
        let want: Vec<String> = s.split_whitespace().map(|w| w.to_string()).collect();
        assert_eq!(got, want, "{:?}", s);
    }
}

#[test]
fn words_come_with_their_positions() {
    assert_eq!(split_words(&chars(" ab  c")), vec![(1, 3), (5, 6)]);
}

#[test]
fn fields_are_the_pieces_between_separators() {
    for s in ["", "/", "1", "1/2", "1/2/3", "1//3", "/2", "1/", "//", "a/b/c/d"] {
        let c = chars(s);
        let got = pieces(s, &split_fields(&c, 0, c.len(), '/'));
        let want: Vec<String> = s.split('/').map(|w| w.to_string()).collect();
        assert_eq!(got, want, "{:?}", s);
    }
}

#[test]
fn fields_of_a_part_of_a_line() {
    let c = chars("f 1/2 3/4");
    assert_eq!(split_fields(&c, 2, 5, '/'), vec![(2, 3), (4, 5)]);
    assert_eq!(split_fields(&c, 6, 9, '/'), vec![(6, 7), (8, 9)]);
    assert_eq!(split_fields(&c, 5, 5, '/'), vec![(5, 5)]);
}

#[test]
fn index_is_what_the_standard_library_reads_or_zero() {
    for s in [
        "", "0", "1", "42", "+42", "-42", "+", "4 2", " 42", "42 ", "4x", "x4", "0042", "１２",
        "18446744073709551615", "18446744073709551616", "99999999999999999999999", "++1", "+-1",
        "1e3", "1.0",
    ] {
        let c = chars(s);
        assert_eq!(index_at(&c, 0, c.len()), s.parse::<usize>().unwrap_or(0), "{:?}", s);
    }
}

#[test]
fn index_of_a_part_of_a_line() {
    let c = chars("f 12/345");
    assert_eq!(index_at(&c, 2, 4), 12);
    assert_eq!(index_at(&c, 5, 8), 345);
    assert_eq!(index_at(&c, 4, 5), 0);
    assert_eq!(index_at(&c, 3, 3), 0);
}

#[test]
fn number_is_what_the_standard_library_converts() {
    let parts = ["", "+", "-", "0", "1", "12", ".", "1.", ".5", "1.5", "e", "E", "e5", "1e", "1e5", "1E5", "1e+", "1e-5", "1e+5", "inf", "INF", "Inf", "infinity", "iNfInItY", "infinit", "nan", "NAN", "nana", "x", "1x", "1 ", "1.2.3", "1e5e5", "1e5.5", "١"];
    for p in parts {
        for sign in ["", "+", "-"] {
            let s = format!("{}{}", sign, p);
            let c = chars(&s);
            assert_eq!(number_at(&c, 0, c.len()), s.parse::<f64>().is_ok(), "{:?}", s);
        }
    }
}

#[test]
fn number_of_a_part_of_a_line() {
    let c = chars("v 1.5 x");
    assert!(number_at(&c, 2, 5));
    assert!(!number_at(&c, 2, 6));
    assert!(!number_at(&c, 6, 7));
    assert!(!number_at(&c, 5, 5));
}
