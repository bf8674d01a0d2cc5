use sparrow_tv::epg::escape_xml;
use sparrow_tv::lines::{char_is_whitespace, split_lines, trim};
use sparrow_tv::lookup::find_last;
use sparrow_tv::number::{digit_of, push_int, read_int};
use sparrow_tv::playlist::url_has_extension;
use sparrow_tv::text::{chars_of, contains_chars, is_listed, matches_at, same_chars};

fn chars(s: &str) -> Vec<char> {
    s.chars().collect()
}

fn text(v: &[char]) -> String {
    v.iter().collect()
}

const SAMPLES: &[&str] = &[
    "",
    "a",
    "\n",
    "\r",
    "\r\n",
    "a\n",
    "a\r\n",
    "a\r",
    "\na",
    "a\nb",
    "a\n\nb",
    "a\r\n\r\nb\r",
    "a\rb\nc",
    "\n\n",
    " a ",
    "\t a b \u{a0}\u{3000}",
    "   ",
    "\u{85}x\u{2028}",
    "\u{200b}zero width\u{200b}",
    "#EXTM3U\n#EXTINF:-1 a=\"b\",c\nhttp://u\n",
    "åäö ‧ 日本語\n second line \r\n third",
];

#[test]
fn characters_are_copied_in_order() {
    for s in SAMPLES {
        assert_eq!(chars_of(s), chars(s));
    }
}

#[test]
fn white_space_is_what_std_calls_white_space() {
    for n in 0..=0x10FFFFu32 {
        if let Some(c) = char::from_u32(n) {
            assert_eq!(char_is_whitespace(c), c.is_whitespace());
        }
    }
}

#[test]
fn trimming_is_what_std_trims() {
    for s in SAMPLES {
        assert_eq!(text(&trim(&chars(s))), s.trim());
    }
}

#[test]
fn lines_are_the_lines_of_std() {
    for s in SAMPLES {
        let ours: Vec<String> = split_lines(&chars(s)).iter().map(|l| text(l)).collect();
        let theirs: Vec<String> = s.lines().map(|l| l.to_string()).collect();
        assert_eq!(ours, theirs);
    }
}

#[test]
fn integers_are_read_as_std_reads_them() {
    for s in [
        "0", "-0", "+0", "7", "-1", "+15", "007", "-007", "2147483647", "2147483648",
        "-2147483648", "-2147483649", "4294967296", "99999999999999999999", "", "-", "+", "--1",
        "+-1", "1-", " 1", "1 ", "1.0", "0x10", "1_000", "١٢٣", "12a", "a12",
        "00000000000000000000000000000000000001", "-00000000000000000000002147483648",
    ] {
        assert_eq!(read_int(&chars(s)), s.parse::<i32>().ok());
    }
    assert_eq!(read_int(&chars("-2147483648")), Some(i32::MIN));
    assert_eq!(read_int(&chars("2147483647")), Some(i32::MAX));
}

#[test]
fn integers_are_written_as_std_writes_them() {
    for n in [0, 1, -1, 9, 10, 11, 99, 100, -100, 12345, -98765, i32::MAX, i32::MIN, i32::MIN + 1] {
        let mut out = String::from("x");
        push_int(&mut out, n);
        assert_eq!(out, format!("x{}", n));
        assert_eq!(read_int(&chars(&n.to_string())), Some(n));
    }
}

#[test]
fn digits_have_their_values() {
    assert_eq!(digit_of('0'), Some(0));
    assert_eq!(digit_of('5'), Some(5));
    assert_eq!(digit_of('9'), Some(9));
    assert_eq!(digit_of('/'), None);
    assert_eq!(digit_of(':'), None);
    assert_eq!(digit_of('a'), None);
    assert_eq!(digit_of('٣'), None);
}

#[test]
fn containment_is_what_std_finds() {
    for hay in ["", "a", "ab", "abc", "aab", "abab", "Sport PL", "åäö"] {
        for needle in ["", "a", "b", "ab", "ba", "abc", "abcd", "PL", "pl", "ä", "aab"] {
            assert_eq!(contains_chars(&chars(hay), &chars(needle)), hay.contains(needle));
            assert_eq!(same_chars(&chars(hay), &chars(needle)), hay == needle);
            assert_eq!(matches_at(&chars(hay), &chars(needle), 0), hay.starts_with(needle));
        }
    }
    assert!(matches_at(&chars("abc"), &chars("bc"), 1));
    assert!(matches_at(&chars("abc"), &chars(""), 3));
    assert!(!matches_at(&chars("abc"), &chars(""), 4));
    assert!(!matches_at(&chars("abc"), &chars("c"), usize::MAX));
}

#[test]
fn lists_are_searched_by_equality() {
    let list = vec![chars("a"), chars("b"), chars("a"), chars("")];
    assert!(is_listed(&chars("a"), &list));
    assert!(is_listed(&chars(""), &list));
    assert!(!is_listed(&chars("c"), &list));
    assert_eq!(find_last(&list, &chars("a")), Some(2));
    assert_eq!(find_last(&list, &chars("b")), Some(1));
    assert_eq!(find_last(&list, &chars("")), Some(3));
    assert_eq!(find_last(&list, &chars("c")), None);
    assert_eq!(find_last(&vec![], &chars("a")), None);
}

#[test]
fn escaping_is_replacing_one_after_the_other() {
    for s in ["", "&", "&&", "<a href=\"x\">'q' & r</a>", "&lt;", "plain", "a&b<c>d\"e'f"] {
        let expected = s
            .replace("&", "&amp;")
            .replace("<", "&lt;")
            .replace(">", "&gt;")
            .replace("\"", "&quot;")
            .replace("'", "&apos;");
        assert_eq!(escape_xml(s), expected);
    }
}

#[test]
fn an_extension_is_a_dot_in_the_last_segment() {
    for url in [
        "",
        "a",
        "a.b",
        ".",
        "/",
        "a/",
        "a.b/",
        "a.b/c",
        "a/b.c",
        "http://host.example/x/y",
        "http://host.example/x/y.mp4",
        "http://host.example",
        "a/b/.c",
        "a/b./",
    ] {
        let expected = url.split('/').last().unwrap().contains('.');
        assert_eq!(url_has_extension(&chars(url)), expected);
    }
}
