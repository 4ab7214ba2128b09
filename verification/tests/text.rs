use sat_cli::text::{
    before_first_seq, find_seq, is_whitespace, same_ignoring_ascii_case, split_lines, split_on_char,
    split_whitespace, to_chars, trim_seq,
};

fn strs(v: Vec<Vec<char>>) -> Vec<String> {
    v.into_iter().map(|c| c.into_iter().collect()).collect()
}

const SAMPLES: [&str; 12] = [
    "",
    "a",
    "a\n",
    "a\r\nb",
    "\n\n",
    "x\r",
    "one two\tthree\u{a0}four",
    "  lead and trail  ",
    "\u{2003}wide\u{3000}spaces\u{85}",
    "a\r\r\nb\n\r",
    "ünï cödé\nzwei",
    "|a||b|",
];

#[test]
fn whitespace_matches_std() {
    for u in 0u32..=0x10FFFF {
        if let Some(c) = char::from_u32(u) {
            assert_eq!(is_whitespace(c), c.is_whitespace(), "{:x}", u);
        }
    }
}

#[test]
fn lines_match_std() {
    for s in SAMPLES {
        let ours = strs(split_lines(&to_chars(s)));
        let std: Vec<String> = s.lines().map(|l| l.to_string()).collect();
        assert_eq!(ours, std, "{:?}", s);
    }
}

#[test]
fn words_match_std() {
    for s in SAMPLES {
        let ours = strs(split_whitespace(&to_chars(s)));
        let std: Vec<String> = s.split_whitespace().map(|l| l.to_string()).collect();
        assert_eq!(ours, std, "{:?}", s);
    }
}

#[test]
fn trim_matches_std() {
    for s in SAMPLES {
        let ours: String = trim_seq(&to_chars(s)).into_iter().collect();
        assert_eq!(ours, s.trim(), "{:?}", s);
    }
}

#[test]
fn split_on_char_matches_std() {
    for s in SAMPLES {
        let ours = strs(split_on_char(&to_chars(s), '|'));
        let std: Vec<String> = s.split('|').map(|l| l.to_string()).collect();
        assert_eq!(ours, std, "{:?}", s);
    }
}

#[test]
fn find_counts_characters() {
    assert_eq!(find_seq(&to_chars("abc (1)"), &to_chars(" (")), Some(3));
    assert_eq!(find_seq(&to_chars("é (1)"), &to_chars(" (")), Some(1));
    assert_eq!(find_seq(&to_chars("abc"), &to_chars("abcd")), None);
    assert_eq!(find_seq(&to_chars("aab"), &to_chars("ab")), Some(1));
    let first: String = before_first_seq(&to_chars("1.0, 2.0, 3.0"), &to_chars(", ")).into_iter().collect();
    assert_eq!(first, "1.0");
}

#[test]
fn ascii_case_is_ignored_like_std() {
    let pairs = [("Foo", "fOO"), ("a", "b"), ("Straße", "STRAßE"), ("É", "é"), ("ab", "abc")];
    for (a, b) in pairs {
        assert_eq!(same_ignoring_ascii_case(&to_chars(a), &to_chars(b)), a.eq_ignore_ascii_case(b), "{} {}", a, b);
    }
}
