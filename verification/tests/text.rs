use crypt_core::util::text::{
    chars_of, decimal_text, occurs_in, parse_bool_range, parse_i32_range, parse_usize_range, split_ranges,
    trim_range, word_ranges, TrimSet,
};

fn i32_of(s: &str) -> Option<i32> {
    let chars = chars_of(s);
    parse_i32_range(&chars, 0, chars.len())
}

fn usize_of(s: &str) -> Option<usize> {
    let chars = chars_of(s);
    parse_usize_range(&chars, 0, chars.len())
}

fn slice(chars: &[char], r: (usize, usize)) -> String {
    chars[r.0..r.1].iter().collect()
}

#[test]
fn i32_parsing_matches_from_str() {
    for s in ["0", "-0", "+17", "-2147483648", "2147483647", "2147483648", "-2147483649", "", "-", "+", "1 2", "12a", "٣", "007"] {
        assert_eq!(i32_of(s), s.parse::<i32>().ok(), "{}", s);
    }
}

#[test]
fn usize_parsing_matches_from_str() {
    for s in ["0", "+5", "-5", "18446744073709551615", "18446744073709551616", "", "4x"] {
        assert_eq!(usize_of(s), s.parse::<usize>().ok(), "{}", s);
    }
}

#[test]
fn bool_parsing_is_exact() {
    for s in ["true", "false", "True", " true", ""] {
        let chars = chars_of(s);
        assert_eq!(parse_bool_range(&chars, 0, chars.len()), s.parse::<bool>().ok(), "{}", s);
    }
}

#[test]
fn trimming_matches_std() {
    let text = "\u{3000} \t[\"x y\"]\u{a0}\n";
    let chars = chars_of(text);
    let r = trim_range(&chars, 0, chars.len(), TrimSet::Whitespace);
    assert_eq!(slice(&chars, r), text.trim());
    let r2 = trim_range(&chars, r.0, r.1, TrimSet::ListDelimiters);
    assert_eq!(slice(&chars, r2), "x y");
    let all = chars_of("\"\"\"");
    let r3 = trim_range(&all, 0, 3, TrimSet::DoubleQuote);
    assert_eq!(r3.0, r3.1);
}

#[test]
fn splitting_matches_std() {
    for s in ["a,b,,c", "", ",", "abc", "a,"] {
        let chars = chars_of(s);
        let pieces: Vec<String> = split_ranges(&chars, 0, chars.len(), ',').into_iter().map(|r| slice(&chars, r)).collect();
        let expected: Vec<String> = s.split(',').map(|p| p.to_string()).collect();
        assert_eq!(pieces, expected);
    }
}

#[test]
fn words_match_split_whitespace() {
    for s in ["GET /?code=1 HTTP/1.1\r\n", "  a  b ", "", "one"] {
        let chars = chars_of(s);
        let words: Vec<String> = word_ranges(&chars).into_iter().map(|r| slice(&chars, r)).collect();
        let expected: Vec<String> = s.split_whitespace().map(|w| w.to_string()).collect();
        assert_eq!(words, expected);
    }
}

#[test]
fn occurrences() {
    let line = chars_of("key = value");
    assert!(occurs_in(&line, &chars_of(" = ")));
    assert!(!occurs_in(&line, &chars_of("]")));
    assert!(occurs_in(&line, &chars_of("")));
    assert!(!occurs_in(&chars_of("ab"), &chars_of("abc")));
}

#[test]
fn decimal_text_matches_display() {
    for n in [0u64, 7, 10, 1234567890, u64::MAX] {
        assert_eq!(decimal_text(n), n.to_string());
    }
}
