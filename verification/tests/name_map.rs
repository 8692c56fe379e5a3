use btf2json::names::name_eq;
use btf2json::names::name_less;
use btf2json::names::NameIndex;
use btf2json::names::NameMap;
use btf2json::names::Named;
use btf2json::text::chars_of;
use btf2json::text::decimal_string;
use btf2json::text::find_space;
use btf2json::text::numbered;
use btf2json::text::minus;
use btf2json::text::parse_hex;
use btf2json::text::text_between;

#[test]
fn names_are_ordered_by_their_bytes() {
    assert!(name_less("", "a"));
    assert!(!name_less("a", ""));
    assert!(!name_less("a", "a"));
    assert!(name_less("a", "ab"));
    assert!(name_less("ab", "b"));
    assert!(name_less("B", "a"));
    assert!(name_less("_x", "a"));
    assert!(name_less("z", "\u{e9}"));
    assert!(name_less("\u{e9}", "\u{4e2d}"));
    assert!(name_less("\u{ffff}", "\u{10000}"));
    assert!(name_eq("abc", "abc"));
    assert!(!name_eq("abc", "abd"));
    assert!(!name_eq("abc", "ab"));
    for (a, b) in [("foo", "bar"), ("x", "xy"), ("", ""), ("\u{e9}", "e")] {
        assert_eq!(name_less(a, b), a < b);
        assert_eq!(name_eq(a, b), a == b);
    }
}

#[test]
fn a_later_entry_replaces_an_earlier_one_of_the_same_name() {
    let mut m: NameMap<u32> = NameMap::new();
    assert_eq!(m.len(), 0);
    for (k, v) in [("m", 1), ("z", 2), ("a", 3), ("m", 4), ("b", 5), ("", 6), ("z", 7)] {
        m.insert(k.to_string(), v);
    }
    let got: Vec<(&str, u32)> = m.entries.iter().map(|e| (e.name.as_str(), e.value)).collect();
    assert_eq!(got, vec![("", 6), ("a", 3), ("b", 5), ("m", 4), ("z", 7)]);
    assert_eq!(m.get("m"), Some(&4));
    assert_eq!(m.get("n"), None);
    assert!(m.contains_key(""));
    assert!(!m.contains_key("zz"));
    assert_eq!(m.find("b"), Some(2));
    assert_eq!(m.find("c"), None);
    assert_eq!(m.swap_value(2, 50), 5);
    assert_eq!(m.get("b"), Some(&50));
    assert_eq!(m.swap_value(0, 60), 6);
    assert_eq!(m.get(""), Some(&60));
    assert_eq!(m.len(), 5);
}

#[test]
fn numbers_in_decimal() {
    assert_eq!(decimal_string(0), "0");
    assert_eq!(decimal_string(7), "7");
    assert_eq!(decimal_string(10), "10");
    assert_eq!(decimal_string(4294967295), "4294967295");
    assert_eq!(decimal_string(u64::MAX), "18446744073709551615");
    assert_eq!(numbered("unnamed_x_", 120), "unnamed_x_120");
}

#[test]
fn numbers_in_hexadecimal() {
    let hex = |s: &str| {
        let chars = chars_of(s);
        parse_hex(&chars, 0, chars.len())
    };
    assert_eq!(hex("0"), Some(0));
    assert_eq!(hex("ffffffff81000000"), Some(0xffffffff81000000));
    assert_eq!(hex("FFFFFFFFFFFFFFFF"), Some(u64::MAX));
    assert_eq!(hex("+aB"), Some(0xab));
    assert_eq!(hex("00000000000000000001"), Some(1));
    assert_eq!(hex("10000000000000000"), None);
    assert_eq!(hex(""), None);
    assert_eq!(hex("+"), None);
    assert_eq!(hex("-1"), None);
    assert_eq!(hex("1_0"), None);
    assert_eq!(hex(" 1"), None);
    assert_eq!(hex("1g"), None);
    assert_eq!(hex("++1"), None);
    for s in ["", "+", "+7f", "7F", "g", "123456789abcdef0", "1234567890abcdef01", "\u{663}"] {
        assert_eq!(hex(s), u64::from_str_radix(s, 16).ok(), "{}", s);
    }
    let chars = chars_of("xx1fyy");
    assert_eq!(parse_hex(&chars, 2, 4), Some(0x1f));
}

#[test]
fn characters_and_spaces() {
    assert_eq!(chars_of("a\u{e9} b"), vec!['a', '\u{e9}', ' ', 'b']);
    let chars = chars_of("ab cd  e");
    assert_eq!(find_space(&chars, 0), 2);
    assert_eq!(find_space(&chars, 2), 2);
    assert_eq!(find_space(&chars, 3), 5);
    assert_eq!(find_space(&chars, 6), 6);
    assert_eq!(find_space(&chars, 7), 8);
    assert_eq!(find_space(&chars, 8), 8);
    assert_eq!(text_between("a\u{e9}bc", 1, 3), "\u{e9}b");
    assert_eq!(text_between("abc", 3, 3), "");
}

#[test]
fn subtraction_wraps_round() {
    assert_eq!(minus(5, 3), 2);
    assert_eq!(minus(3, 5), u64::MAX - 1);
    assert_eq!(minus(0, u64::MAX), 1);
    assert_eq!(minus(0, 0), 0);
    for (a, b) in [(1u64, 2u64), (u64::MAX, 1), (0, 1), (77, 77)] {
        assert_eq!(minus(a, b), a.wrapping_sub(b));
    }
}

#[test]
fn an_index_is_filled_in_any_order_and_sorted_at_the_end() {
    let mut m: NameIndex<u32> = NameIndex::new();
    assert_eq!(m.find("a"), None);
    for (k, v) in [("m", 1), ("z", 2), ("a", 3), ("m", 4), ("b", 5), ("", 6), ("z", 7)] {
        m.put(k.to_string(), v);
    }
    assert_eq!(m.entries.len(), 5);
    assert_eq!(m.find("m"), Some(0));
    assert_eq!(m.find("b"), Some(3));
    assert_eq!(m.find("c"), None);
    assert_eq!(m.get("z"), Some(&7));
    assert_eq!(m.get("zz"), None);
    let sorted = m.into_sorted();
    let got: Vec<(&str, u32)> = sorted.entries.iter().map(|e| (e.name.as_str(), e.value)).collect();
    assert_eq!(got, vec![("", 6), ("a", 3), ("b", 5), ("m", 4), ("z", 7)]);
}

#[test]
fn many_names_are_sorted() {
    let mut m: NameIndex<usize> = NameIndex::new();
    let mut expected = Vec::new();
    for i in 0..2000usize {
        let name = format!("n{}", (i * 7919) % 2003);
        m.put(name.clone(), i);
        expected.push((name, i));
    }
    m.put("n5".to_string(), 9999);
    for e in expected.iter_mut() {
        if e.0 == "n5" {
            e.1 = 9999;
        }
    }
    expected.sort();
    let sorted = m.into_sorted();
    let got: Vec<(String, usize)> = sorted.entries.iter().map(|e| (e.name.clone(), e.value)).collect();
    assert_eq!(got, expected);
    assert_eq!(sorted.get("n2002").copied(), expected.iter().find(|e| e.0 == "n2002").map(|e| e.1));
}

#[test]
fn entries_with_distinct_names_are_put_in_order() {
    let list = |names: &[&str]| -> Vec<Named<usize>> {
        names.iter().enumerate().map(|(i, n)| Named { name: n.to_string(), value: i }).collect()
    };
    let m = NameMap::from_distinct(list(&["d", "b", "e", "a", "c"]));
    let got: Vec<(&str, usize)> = m.entries.iter().map(|e| (e.name.as_str(), e.value)).collect();
    assert_eq!(got, vec![("a", 3), ("b", 1), ("c", 4), ("d", 0), ("e", 2)]);
    assert_eq!(NameMap::from_distinct(list(&[])).len(), 0);
    assert_eq!(NameMap::from_distinct(list(&["x"])).get("x"), Some(&0));
    assert_eq!(NameMap::from_distinct(list(&["y", "x"])).find("y"), Some(1));
}
