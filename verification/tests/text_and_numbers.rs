use spoolease::net::Ipv4Address;
use spoolease::numbers::{int_string, parse_i32, parse_unsigned};
use spoolease::text::{
    begins, chars_of, contains, is_blank, is_white_space, joined, lines, replace, same_text, split, strings_of, text_of,
    trim,
};
use spoolease::text_map::{NumberMap, TextMap};

fn chars(s: &str) -> Vec<char> {
    s.chars().collect()
}

fn words(v: Vec<Vec<char>>) -> Vec<String> {
    strings_of(&v)
}

#[test]
fn numbers_are_read_as_the_standard_library_reads_them() {
    for s in ["0", "7", "+42", "-17", "2147483647", "2147483648", "-2147483648", "-2147483649", "", "+", "-", "1a", " 1", "00012"] {
        assert_eq!(parse_i32(&chars(s)), s.parse::<i32>().ok(), "{s}");
        assert_eq!(parse_unsigned(&chars(s), 255).map(|n| n as u8), s.parse::<u8>().ok(), "{s}");
        assert_eq!(parse_unsigned(&chars(s), u32::MAX as u64).map(|n| n as u32), s.parse::<u32>().ok(), "{s}");
    }
    assert_eq!(parse_unsigned(&chars("18446744073709551615"), u64::MAX), Some(u64::MAX));
    assert_eq!(parse_unsigned(&chars("18446744073709551616"), u64::MAX), None);
}

#[test]
fn numbers_are_written_and_read_back() {
    for n in [0i64, 9, 10, 255, -1, -10, 2147483647, -2147483648] {
        let s = int_string(n);
        assert_eq!(s, n.to_string());
        assert_eq!(parse_i32(&chars(&s)), Some(n as i32));
    }
}

#[test]
fn white_space_is_that_of_unicode() {
    for n in 0u32..0x11_0000 {
        if let Some(c) = char::from_u32(n) {
            assert_eq!(is_white_space(c), c.is_whitespace(), "{n:x}");
        }
    }
}

#[test]
fn texts_are_cut_as_the_standard_library_cuts_them() {
    for s in ["", "a", "a,b", ",", "a,,b,", "x\ny", "x\r\ny\r\n", "\n\n", "a\r", "\r\n", " \t a b \n", "\u{a0}é\u{3000}"] {
        let c = chars_of(s);
        assert_eq!(words(split(&c, ',')), s.split(',').collect::<Vec<_>>(), "{s:?}");
        assert_eq!(words(lines(&c)), s.lines().collect::<Vec<_>>(), "{s:?}");
        assert_eq!(text_of(&trim(&c)), s.trim(), "{s:?}");
        assert_eq!(text_of(&replace(&c, &chars("\r\n"), &chars("\n"))), s.replace("\r\n", "\n"), "{s:?}");
        assert_eq!(begins(&c, "a"), s.starts_with('a'));
        assert_eq!(contains(&c, &chars("b")), s.contains('b'));
        assert_eq!(is_blank(s), s.is_empty());
    }
    assert_eq!(joined("ab", "cd"), "abcd");
    assert!(same_text("ab", "ab"));
    assert!(!same_text("ab", "abc"));
}

#[test]
fn addresses_are_read_as_the_standard_library_reads_them() {
    for s in [
        "192.168.1.20", "0.0.0.0", "255.255.255.255", "256.1.1.1", "1.2.3", "1.2.3.4.5", "01.2.3.4", "1.2.3.+4", "", "1..2.3",
        "a.b.c.d", "1.2.3.4 ", "00.1.1.1", "1234.1.1.1",
    ] {
        let expected = s.parse::<core::net::Ipv4Addr>().ok().map(|ip| ip.octets());
        let got = Ipv4Address::parse(s).map(|ip| [ip.a, ip.b, ip.c, ip.d]);
        assert_eq!(got, expected, "{s}");
    }
}

#[test]
fn addresses_are_written_and_read_back() {
    let ip = Ipv4Address { a: 10, b: 0, c: 200, d: 9 };
    assert_eq!(ip.text(), "10.0.200.9");
    assert_eq!(Ipv4Address::parse(&ip.text()), Some(ip));
}

#[test]
fn text_map_keeps_what_was_put_in() {
    let mut m: TextMap<i32> = TextMap::new();
    assert_eq!(m.insert("a".to_string(), 1), None);
    assert_eq!(m.insert("b".to_string(), 2), None);
    assert_eq!(m.insert("c".to_string(), 3), None);
    assert_eq!(m.insert("b".to_string(), 20), Some(2));
    assert_eq!(m.len(), 3);
    assert_eq!(m.get("b"), Some(&20));
    assert_eq!(m.remove("a"), Some(1));
    assert_eq!(m.remove("a"), None);
    assert!(!m.contains_key("a"));
    assert_eq!(m.get("c"), Some(&3));
    assert_eq!(m.len(), 2);
    let mut walk: Vec<(String, i32)> = (0..m.len()).map(|i| (m.key_at(i).clone(), *m.value_at(i))).collect();
    walk.sort();
    assert_eq!(walk, vec![("b".to_string(), 20), ("c".to_string(), 3)]);
}

#[test]
fn number_map_keeps_what_was_put_in() {
    let mut m: NumberMap<&str> = NumberMap::new();
    assert!(m.insert(-3, "x").is_none());
    assert!(m.insert(7, "y").is_none());
    assert_eq!(m.insert(-3, "z"), Some("x"));
    assert_eq!(m.get(-3), Some(&"z"));
    assert_eq!(m.get(0), None);
    assert!(m.contains_key(7));
    assert_eq!(m.len(), 2);
}
