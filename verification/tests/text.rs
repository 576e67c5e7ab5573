use datastore_core::text::{chars_of, check_safe_id, compare_text, parse_decimal_u64};

fn chars(s: &str) -> Vec<char> {
    s.chars().collect()
}

#[test]
fn chars_of_text() {
    assert_eq!(chars_of("a/b"), vec!['a', '/', 'b']);
    assert_eq!(chars_of(""), Vec::<char>::new());
    assert_eq!(chars_of("\u{e9}x"), vec!['\u{e9}', 'x']);
}

#[test]
fn safe_ids() {
    for id in ["a", "A", "0", "_", "a.b", "a-b", "a_b", "_.-", "host-1.example"] {
        assert!(check_safe_id(&chars(id)), "{}", id);
    }
    for id in ["", ".", "-", ".a", "-a", "a/b", "a b", "a\n", "\u{e9}", "a\u{e9}", "a:b"] {
        assert!(!check_safe_id(&chars(id)), "{}", id);
    }
}

#[test]
fn decimal_numbers() {
    assert_eq!(parse_decimal_u64(&chars("0")), Some(0));
    assert_eq!(parse_decimal_u64(&chars("42")), Some(42));
    assert_eq!(parse_decimal_u64(&chars("+42")), Some(42));
    assert_eq!(parse_decimal_u64(&chars("007")), Some(7));
    assert_eq!(parse_decimal_u64(&chars("18446744073709551615")), Some(u64::MAX));
    assert_eq!(parse_decimal_u64(&chars("000018446744073709551615")), Some(u64::MAX));
    for text in ["", "+", "-1", "1a", "a1", " 1", "1 ", "++1", "18446744073709551616", "1e3"] {
        assert_eq!(parse_decimal_u64(&chars(text)), None, "{}", text);
    }
}

#[test]
fn decimal_numbers_as_std_reads_them() {
    for text in ["0", "42", "+42", "007", "18446744073709551615", "18446744073709551616", "",
        "+", "-1", "-0", "1a", "٣"]
    {
        assert_eq!(parse_decimal_u64(&chars(text)), text.parse::<u64>().ok(), "{}", text);
    }
}

#[test]
fn text_order() {
    assert_eq!(compare_text(&chars("a"), &chars("b")), -1);
    assert_eq!(compare_text(&chars("b"), &chars("a")), 1);
    assert_eq!(compare_text(&chars("a"), &chars("a")), 0);
    assert_eq!(compare_text(&chars(""), &chars("a")), -1);
    assert_eq!(compare_text(&chars("ab"), &chars("a")), 1);
    assert_eq!(compare_text(&chars("10"), &chars("5")), -1);
    assert_eq!(compare_text(&chars(""), &chars("")), 0);
}

#[test]
fn text_order_as_std_orders_strings() {
    let texts = ["", "a", "ab", "b", "Z", "\u{e9}", "\u{10348}", "\u{ffff}", "a\u{e9}", "~"];
    for a in texts {
        for b in texts {
            let expected = match a.cmp(b) {
                std::cmp::Ordering::Less => -1,
                std::cmp::Ordering::Equal => 0,
                std::cmp::Ordering::Greater => 1,
            };
            assert_eq!(compare_text(&chars(a), &chars(b)), expected, "{:?} {:?}", a, b);
        }
    }
}
