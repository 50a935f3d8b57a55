use trivianetdmr::text::chars_of;
use trivianetdmr::text::find_chars;
use trivianetdmr::text::is_whitespace;
use trivianetdmr::text::split_lines_chars;
use trivianetdmr::text::trim_chars;

#[test]
fn whitespace_agrees_with_std() {
    for u in 0u32..=0x10FFFF {
        if let Some(c) = char::from_u32(u) {
            assert_eq!(is_whitespace(c), c.is_whitespace(), "U+{:04X}", u);
        }
    }
}

#[test]
fn trim_agrees_with_std() {
    for s in ["", "  ", " a b ", "\u{3000}x\u{85}", "\t\n x\r\n", "\u{200B}y"] {
        let t: String = trim_chars(&chars_of(s)).into_iter().collect();
        assert_eq!(t, s.trim());
    }
}

#[test]
fn lines_agree_with_std() {
    for s in ["", "a", "a\n", "a\r\nb", "a\n\nb\n", "\n", "x\r", "x\r\ny\r", "\r\n\r\n"] {
        let ours: Vec<String> = split_lines_chars(&chars_of(s))
            .into_iter()
            .map(|l| l.into_iter().collect())
            .collect();
        let theirs: Vec<String> = s.lines().map(|l| l.to_string()).collect();
        assert_eq!(ours, theirs, "{:?}", s);
    }
}

#[test]
fn find_first_occurrence() {
    let v = chars_of("abcabc");
    assert_eq!(find_chars(&v, &chars_of("bc")), Some(1));
    assert_eq!(find_chars(&v, &chars_of("cab")), Some(2));
    assert_eq!(find_chars(&v, &chars_of("x")), None);
    assert_eq!(find_chars(&v, &chars_of("")), Some(0));
}

#[test]
fn trimming_twice_is_trimming_once() {
    for s in ["", " a ", "\u{2028}b\u{2029}", "\t \n"] {
        let once = trim_chars(&chars_of(s));
        let twice = trim_chars(&once);
        assert_eq!(once, twice);
    }
}
