use jo_compiler::text::{decimal_text, parse_unsigned, split_lines, split_words, test_white, trimmed};

fn chars(s: &str) -> Vec<char> {
    s.chars().collect()
}

fn strings(v: Vec<Vec<char>>) -> Vec<String> {
    v.into_iter().map(|l| l.into_iter().collect()).collect()
}

#[test]
fn white_space_is_that_of_the_standard_library() {
    for c in '\0'..=char::MAX {
        assert_eq!(test_white(c), c.is_whitespace(), "{:?}", c);
    }
}

#[test]
fn lines_are_those_of_the_standard_library() {
    for s in ["", "a", "a\n", "a\r\nb", "\n\n", "a\r", "a\r\r\nb\n", "x\ny\nz"] {
        let expected: Vec<&str> = s.lines().collect();
        assert_eq!(strings(split_lines(&chars(s))), expected);
    }
}

#[test]
fn words_and_trimming_are_those_of_the_standard_library() {
    for s in ["", " ", " a  b\tc ", "one", "\u{a0}x\u{3000}y"] {
        let expected: Vec<&str> = s.split_whitespace().collect();
        assert_eq!(strings(split_words(&chars(s))), expected);
        assert_eq!(trimmed(&chars(s)), chars(s.trim()));
    }
}

#[test]
fn numerals() {
    for n in [0, 9, 10, 907, usize::MAX] {
        assert_eq!(decimal_text(n), n.to_string());
    }
    for s in ["0", "007", "+5", "4294967295", "4294967296", "", "+", "-1", "1a", " 1"] {
        let expected: Option<u64> = s.parse::<u32>().ok().map(|n| n as u64);
        assert_eq!(parse_unsigned(&chars(s), u32::MAX as u64), expected);
    }
}
