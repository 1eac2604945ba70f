use bruto_ide::number::{read_hex, read_i32, read_i64, read_usize, show_i64};
use bruto_ide::text::{
    char_is_space, cut_text, has_text, join_text, line_list, lowered, split_on, to_chars, to_text, trimmed,
    word_list,
};

fn chars(s: &str) -> Vec<char> {
    s.chars().collect()
}

fn strings(list: Vec<&[char]>) -> Vec<String> {
    list.into_iter().map(|p| p.iter().collect()).collect()
}

#[test]
fn numbers_read_back() {
    for n in [0i64, 7, -7, 1234567890123, i64::MAX, i64::MIN] {
        let s = show_i64(n);
        assert_eq!(s, n.to_string());
        assert_eq!(read_i64(&chars(&s)), Some(n));
    }
    assert_eq!(read_usize(&chars("18446744073709551616")), None);
    assert_eq!(read_usize(&chars("+5")), Some(5));
    assert_eq!(read_usize(&chars("-5")), None);
    assert_eq!(read_i32(&chars("2147483648")), None);
    assert_eq!(read_i32(&chars("-2147483648")), Some(i32::MIN));
    assert_eq!(read_i64(&chars("")), None);
    assert_eq!(read_i64(&chars("-")), None);
    assert_eq!(read_hex(&chars("fF")), Some(255));
}

#[test]
fn numbers_are_read_as_the_standard_library_does() {
    for s in [
        "", "+", "-", "+1", "-1", "++1", "+-1", "01", "-0", "1 ", " 1", "1a", "0x1", "f", "+F",
        "-f", "\u{661}", "2147483647", "-2147483649", "9223372036854775807",
        "9223372036854775808", "-9223372036854775809", "18446744073709551615",
        "18446744073709551616", "ffffffffffffffff", "10000000000000000",
    ] {
        let c = chars(s);
        assert_eq!(read_usize(&c), s.parse::<usize>().ok());
        assert_eq!(read_i64(&c), s.parse::<i64>().ok());
        assert_eq!(read_i32(&c), s.parse::<i32>().ok());
        assert_eq!(read_hex(&c), u64::from_str_radix(s, 16).ok());
    }
}

#[test]
fn characters_are_classed_as_the_standard_library_does() {
    for c in '\0'..=char::MAX {
        assert_eq!(char_is_space(c), c.is_whitespace());
        assert_eq!(lowered(&[c]), vec![c.to_ascii_lowercase()]);
    }
}

#[test]
fn text_is_cut_as_the_standard_library_does() {
    for s in ["", "a", "a\nb", "a\r\nb\n", "\n\n", " x  y\t\u{a0}z ", "tab\tend "] {
        let c = to_chars(s);
        assert_eq!(to_text(&c), s);
        assert_eq!(strings(line_list(&c)), s.lines().collect::<Vec<_>>());
        assert_eq!(strings(word_list(&c)), s.split_whitespace().collect::<Vec<_>>());
        assert_eq!(strings(split_on(&c, '\n')), s.split('\n').collect::<Vec<_>>());
        assert_eq!(to_text(trimmed(&c)), s.trim());
        assert_eq!(to_text(&lowered(&c)), s.to_ascii_lowercase());
    }
    assert_eq!(to_text(&lowered(&chars("AbZ\u{c9}"))), "abz\u{c9}");
    assert!(has_text(&chars("say line 3"), "line "));
    assert!(!has_text(&chars("say"), "line "));
    let c = chars("a = b = c");
    let (before, after) = cut_text(&c, " = ").unwrap();
    assert_eq!((to_text(before), to_text(after)), ("a".to_string(), "b = c".to_string()));
    assert_eq!(join_text(&vec!["a".to_string(), "b".to_string()], ", "), "a, b");
    assert_eq!(join_text(&vec![], ", "), "");
}
