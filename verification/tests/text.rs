use wgprobe::keys::{decode_key, SecretKey, SecretText};
use wgprobe::net::{same_endpoint, IpAddr, Ipv4Addr, Ipv6Addr, SocketAddr};
use wgprobe::order::{push_text_key, stable_order, text_before};
use wgprobe::text::{
    ascii_lower, center, char_bytes, contains_text, decimal, is_control, is_whitespace, lines,
    pad_left, pad_right, parse_unsigned, replace, split_list, split_once, trim, trim_end_char, words,
};
use wgprobe::time::Duration;

#[test]
fn decimal_numbers_read_back() {
    for n in [0, 7, 10, 999, 65_535, u64::MAX] {
        assert_eq!(decimal(n), n.to_string());
        assert_eq!(parse_unsigned(&decimal(n), u64::MAX), Some(n));
    }
    assert_eq!(parse_unsigned("256", 255), None);
    assert_eq!(parse_unsigned("", 255), None);
    assert_eq!(parse_unsigned("1x", 255), None);
}

#[test]
fn text_is_taken_apart() {
    assert_eq!(trim(" \t a b\u{3000}\n"), "a b");
    assert_eq!(trim(" "), "");
    assert_eq!(trim_end_char("a..", '.'), "a");
    assert_eq!(split_once("a=b=c", '='), Some(("a", "b=c")));
    assert_eq!(split_once("abc", '='), None);
    assert_eq!(split_list(" a, ,b "), "a, b".split(", ").collect::<Vec<_>>());
    assert_eq!(lines("a\r\nb\n\nc"), "a\r\nb\n\nc".lines().collect::<Vec<_>>());
    assert_eq!(lines(""), Vec::<&str>::new());
    assert_eq!(words("  a  b "), ["a", "b"]);
    assert!(contains_text("denver", "env"));
    assert!(!contains_text("denver", "evn"));
    assert_eq!(ascii_lower("\u{c9}AbC"), "\u{c9}abc");
}

#[test]
fn replaced_text_is_gone() {
    assert_eq!(replace("bound 1.2.3.4:5 and 1.2.3.4:5", "1.2.3.4:5", "-"), "bound - and -");
    assert_eq!(replace("aaa", "aa", "b"), "aaa".replace("aa", "b"));
    assert_eq!(replace("abc", "x", "y"), "abc");
}

#[test]
fn text_is_padded() {
    assert_eq!(pad_right("ab", 4), format!("{:<4}", "ab"));
    assert_eq!(pad_left("ab", 4), format!("{:>4}", "ab"));
    assert_eq!(center("ab", 5), format!("{:^5}", "ab"));
    assert_eq!(pad_right("abcdef", 4), "abcdef");
}

#[test]
fn characters_have_their_utf8_length() {
    for c in ['a', '\u{7f}', '\u{80}', '\u{7ff}', '\u{800}', '\u{ffff}', '\u{10000}', '🔒'] {
        assert_eq!(char_bytes(c), c.len_utf8());
    }
}

#[test]
fn addresses_read_back() {
    for text in ["0.0.0.0", "255.255.255.255", "10.0.0.1"] {
        assert_eq!(Ipv4Addr::parse(text).unwrap().text(), text);
    }
    for text in ["01.0.0.1", "1.2.3", "1.2.3.4.5", "1.2.3.256", " 1.2.3.4", ""] {
        assert_eq!(Ipv4Addr::parse(text), None, "{text}");
    }
    for (text, segments, shown) in [
        ("::", [0, 0, 0, 0, 0, 0, 0, 0], "::"),
        ("::1", [0, 0, 0, 0, 0, 0, 0, 1], "::1"),
        ("2001:DB8::1", [0x2001, 0xdb8, 0, 0, 0, 0, 0, 1], "2001:db8::1"),
        ("1:2:3:4:5:6:7:8", [1, 2, 3, 4, 5, 6, 7, 8], "1:2:3:4:5:6:7:8"),
        ("1:0:0:4:0:0:0:8", [1, 0, 0, 4, 0, 0, 0, 8], "1:0:0:4::8"),
        ("fe80::", [0xfe80, 0, 0, 0, 0, 0, 0, 0], "fe80::"),
        ("::ffff:1.2.3.4", [0, 0, 0, 0, 0, 0xffff, 0x102, 0x304], "::ffff:1.2.3.4"),
    ] {
        let address = Ipv6Addr::parse(text).unwrap();
        assert_eq!(address.segments, segments);
        assert_eq!(address.text(), shown);
    }
    for text in ["1::2::3", "12345::", ":::", "1:2:3:4:5:6:7", "::g"] {
        assert_eq!(Ipv6Addr::parse(text), None, "{text}");
    }
    assert!(matches!(IpAddr::parse("::1"), Some(IpAddr::V6(_))));
    assert!(matches!(IpAddr::parse("1.1.1.1"), Some(IpAddr::V4(_))));
}

#[test]
fn endpoints_read_back() {
    for text in ["1.2.3.4:0", "1.2.3.4:65535", "[::1]:51820", "[fe80::1%3]:80"] {
        let endpoint = SocketAddr::parse(text).unwrap();
        assert_eq!(endpoint.text(), text);
        assert!(same_endpoint(endpoint, SocketAddr::parse(&endpoint.text()).unwrap()));
    }
    for text in ["1.2.3.4", "1.2.3.4:65536", "::1:80", "[::1]", "host:1", "1.2.3.4:"] {
        assert_eq!(SocketAddr::parse(text), None, "{text}");
    }
}

#[test]
fn sorting_is_stable_and_by_code_points() {
    assert!(text_before(&['a'], &['b']));
    assert!(text_before(&['a'], &['a', 'b']));
    assert!(text_before(&['Z'], &['a']));
    assert!(!text_before(&['a'], &['a']));
    let keys: Vec<Vec<u32>> = ["b", "a", "b", ""]
        .iter()
        .map(|text| {
            let mut key = Vec::new();
            push_text_key(&mut key, text);
            key
        })
        .collect();
    assert_eq!(stable_order(&keys), [3, 1, 0, 2]);
}

#[test]
fn times_are_exact() {
    let half = Duration::new(1, 500_000_000);
    assert_eq!((half.secs(), half.subsec_nanos()), (1, 500_000_000));
    assert_eq!(half.checked_add(half), Some(Duration::from_secs(3)));
    assert_eq!(Duration::max().checked_add(Duration::new(0, 1)), None);
    assert_eq!(Duration::from_secs(1).saturating_sub(half), Duration::zero());
    assert_eq!(half.saturating_sub(Duration::from_secs(1)), Duration::from_millis(500));
    assert!(Duration::from_secs(1).less(half));
    assert!(!half.less(half));
    assert!(Duration::zero().is_zero());
}

#[test]
fn keys_and_secret_texts() {
    let text = "AQEBAQEBAQEBAQEBAQEBAQEBAQEBAQEBAQEBAQEBAQE=";
    let key = SecretKey::from_base64(text).unwrap();
    assert_eq!(key.bytes(), &[1; 32]);
    assert!(SecretKey::from_base64("AQ==").is_none());
    let mut bytes = [7u8; 32];
    assert!(!decode_key("AQ==", &mut bytes));
    assert_eq!(bytes, [0; 32]);
    let mut secret = SecretText::new("ab".to_string());
    secret.push('c');
    assert_eq!(secret.as_str(), "abc");
    secret.pop();
    assert_eq!(secret.as_str(), "ab");
    secret.set("x");
    assert_eq!(secret.as_str(), "x");
    secret.clear();
    assert!(secret.is_empty());
    secret.pop();
    assert!(secret.is_empty());
}

#[test]
fn characters_are_classed_as_unicode_does() {
    for c in '\0'..=char::MAX {
        assert_eq!(is_whitespace(c), c.is_whitespace(), "{c:?}");
        assert_eq!(is_control(c), c.is_control(), "{c:?}");
        assert_eq!(char_bytes(c), c.len_utf8(), "{c:?}");
    }
}
