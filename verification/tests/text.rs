use openfang_channels::text::{
    boundary, chars_of, count_within, find_last, is_blank, lines, longer_than, number, parse_number,
    split, string_of, white, width, words,
};

fn v(s: &str) -> Vec<char> {
    chars_of(s)
}

#[test]
fn white_space_and_widths_are_those_of_unicode() {
    for n in 0..=0x10ffffu32 {
        if let Some(c) = char::from_u32(n) {
            assert_eq!(white(c), c.is_whitespace(), "{n:x}");
            assert_eq!(width(c), c.len_utf8(), "{n:x}");
        }
    }
}

#[test]
fn lines_and_words_are_those_of_std() {
    for s in [
        "", "\n", "\r\n", "a", "a\n", "a\nb", "a\r\nb\r\n", "a\rb", "a\n\nb", "\r", "a\r", "a\n\r",
        " a  b\t\u{2003}c ", "\u{85}x\u{a0}",
    ] {
        let got: Vec<String> = lines(&v(s)).iter().map(|l| string_of(l)).collect();
        let want: Vec<String> = s.lines().map(String::from).collect();
        assert_eq!(got, want, "{s:?}");
        let want: Vec<String> = s.split_whitespace().map(String::from).collect();
        assert_eq!(words(&v(s)), want, "{s:?}");
        assert_eq!(is_blank(s), s.trim().is_empty(), "{s:?}");
        let got: Vec<String> = split(&v(s), 'a').iter().map(|l| string_of(l)).collect();
        let want: Vec<String> = s.split('a').map(String::from).collect();
        assert_eq!(got, want, "{s:?}");
        assert_eq!(find_last(&v(s), 'a').is_some(), s.contains('a'));
    }
}

#[test]
fn numbers_are_those_of_std() {
    for s in ["", "+", "-", "0", "007", "+5", "-5", "++5", "5 ", "18446744073709551615", "18446744073709551616", "1_0", "٣"] {
        assert_eq!(parse_number(s), s.parse::<u64>().ok(), "{s:?}");
    }
    for n in [0u128, 7, 10, 99, 100, u64::MAX as u128, u128::MAX] {
        assert_eq!(string_of(&number(n)), n.to_string());
    }
}

#[test]
fn bytes_are_those_of_utf8() {
    let s = "aé€😊z";
    let c = v(s);
    for b in 0..=(s.len() + 2) {
        assert_eq!(boundary(&c, b), s.is_char_boundary(b), "{b}");
        assert_eq!(longer_than(&c, b), s.len() > b);
        let mut e = b.min(s.len());
        while !s.is_char_boundary(e) {
            e -= 1;
        }
        assert_eq!(count_within(&c, b), s[..e].chars().count());
    }
}
