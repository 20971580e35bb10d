use hive::num::{decimal_chars, hex_padded_chars, parse_unsigned_chars};
use hive::text::{
    chars_of, last_segment_chars, lines_of, replace_pair_chars, split_chars, string_of,
    trim_chars, words_of,
};

fn s(v: &[char]) -> String {
    v.iter().collect()
}

fn all(v: &[Vec<char>]) -> Vec<String> {
    v.iter().map(|x| s(x)).collect()
}

const SAMPLES: &[&str] = &[
    "",
    "a",
    "\n",
    "\r\n",
    "a\nb",
    "a\r\nb\r\n",
    "a\n\nb\n",
    "x\r",
    "\r\r\n",
    "  padded\t",
    "\u{a0}nbsp\u{3000}",
    "one  two\tthree\u{2003}four",
    "ends with cr\r",
];

#[test]
fn lines_match_std() {
    for t in SAMPLES {
        let got = all(&lines_of(&chars_of(t)));
        let want: Vec<String> = t.lines().map(|l| l.to_string()).collect();
        assert_eq!(got, want, "lines of {:?}", t);
    }
}

#[test]
fn words_match_std() {
    for t in SAMPLES {
        let got = all(&words_of(&chars_of(t)));
        let want: Vec<String> = t.split_whitespace().map(|l| l.to_string()).collect();
        assert_eq!(got, want, "words of {:?}", t);
    }
}

#[test]
fn trim_matches_std() {
    for t in SAMPLES {
        assert_eq!(s(&trim_chars(&chars_of(t))), t.trim(), "trim of {:?}", t);
    }
}

#[test]
fn whitespace_set_matches_std() {
    for c in (0u32..0x3100).filter_map(char::from_u32) {
        assert_eq!(hive::text::is_whitespace_char(c), c.is_whitespace(), "{:?}", c);
    }
}

#[test]
fn split_matches_std() {
    for t in ["", "a", "\\", "a\\b\\c", "\\\\x\\"] {
        let got = all(&split_chars(&chars_of(t), '\\'));
        let want: Vec<String> = t.split('\\').map(|l| l.to_string()).collect();
        assert_eq!(got, want);
    }
}

#[test]
fn last_segment_matches_rsplit() {
    for t in ["", "a", "a\\b", "a\\b\\", "\\c"] {
        let got = s(&last_segment_chars(&chars_of(t), '\\'));
        assert_eq!(got, t.rsplit('\\').next().unwrap());
    }
}

#[test]
fn replace_pair_matches_std() {
    for t in ["", "\\\\", "\\\\\\", "a\\\\b\\\\\\\\", "\\\"x\\\""] {
        let got = s(&replace_pair_chars(&chars_of(t), '\\', '\\', '\\'));
        assert_eq!(got, t.replace("\\\\", "\\"));
        let got = s(&replace_pair_chars(&chars_of(t), '\\', '"', '"'));
        assert_eq!(got, t.replace("\\\"", "\""));
    }
}

#[test]
fn decimal_and_hex_digits() {
    for n in [0u64, 7, 10, 99, 1234567890, u64::MAX] {
        assert_eq!(s(&decimal_chars(n)), format!("{}", n));
    }
    assert_eq!(s(&hex_padded_chars(0x2a, 8)), "0000002a");
    assert_eq!(s(&hex_padded_chars(0xdeadbeef, 8)), format!("{:08x}", 0xdeadbeefu32));
    assert_eq!(s(&hex_padded_chars(0x0f, 2)), "0f");
    assert_eq!(s(&hex_padded_chars(0x1234, 2)), "34");
}

#[test]
fn radix_parsing_matches_std() {
    let inputs = [
        "", "+", "-", "0", "+7", "-7", "42", "ff", "FF", "fg", "4294967295", "4294967296",
        "18446744073709551615", "18446744073709551616", "00000000000000000000001", " 1", "1 ",
        "++1", "ffffffff", "100000000", "é",
    ];
    for t in inputs {
        let v = chars_of(t);
        assert_eq!(parse_unsigned_chars(&v, 10, u32::MAX as u64), u32::from_str_radix(t, 10).ok().map(|x| x as u64), "dec u32 {:?}", t);
        assert_eq!(parse_unsigned_chars(&v, 16, u32::MAX as u64), u32::from_str_radix(t, 16).ok().map(|x| x as u64), "hex u32 {:?}", t);
        assert_eq!(parse_unsigned_chars(&v, 10, u64::MAX), u64::from_str_radix(t, 10).ok(), "dec u64 {:?}", t);
        assert_eq!(parse_unsigned_chars(&v, 16, 255), u8::from_str_radix(t, 16).ok().map(|x| x as u64), "hex u8 {:?}", t);
    }
}

#[test]
fn string_round_trip() {
    let t = "héllo \u{1F600}";
    assert_eq!(string_of(&chars_of(t)), t);
}
