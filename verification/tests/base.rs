//! Texts, ordered collections and JSON.
use artifact_depot::json::{parse_json, Json};
use artifact_depot::ordered::{
    group, insert_texts, set_of, sort_groups, sort_list, tally, KeySet, OrderedMap,
};
use artifact_depot::text::{
    chars_of, compare_text, contains, copy_option, copy_texts, count_text, decode_text, find_last,
    first_bytes, join, list_has, number_text, pad_left, pad_right, parse_u64, same_text, split_all,
    split_once, starts_with, strip_prefix, text_after_last, trim, white, wide_text, width_of,
    Order,
};

fn s(t: &str) -> String {
    t.to_string()
}

fn texts(ts: &[&str]) -> Vec<String> {
    ts.iter().map(|t| t.to_string()).collect()
}

#[test]
fn texts_are_compared_like_strings() {
    let words = ["", "a", "ab", "b", "B", "\u{e4}", "\u{1f600}", "\u{ffff}", "a\u{0}"];
    for a in words {
        for b in words {
            let want = match a.cmp(b) {
                std::cmp::Ordering::Less => Order::Less,
                std::cmp::Ordering::Equal => Order::Equal,
                std::cmp::Ordering::Greater => Order::Greater,
            };
            assert_eq!(compare_text(a, b), want, "{a:?} {b:?}");
            assert_eq!(same_text(a, b), a == b);
            assert_eq!(starts_with(a, b), a.starts_with(b));
            assert_eq!(contains(a, b), a.contains(b));
            assert_eq!(strip_prefix(a, b).as_deref(), a.strip_prefix(b));
        }
    }
}

#[test]
fn texts_are_split_like_strings() {
    for t in ["", ":", "a:b", "a:b:c", "::", "\u{e4}:\u{f6}", "none"] {
        assert_eq!(
            split_once(t, ':'),
            t.split_once(':').map(|(a, b)| (s(a), s(b))),
            "{t:?}"
        );
        assert_eq!(split_all(t, ':'), t.split(':').map(s).collect::<Vec<_>>(), "{t:?}");
    }
    for (t, p) in [("a/x/b/x/c", "/x/"), ("/x/", "/x/"), ("abc", "/x/"), ("aaa", "aa"), ("a", "")] {
        assert_eq!(
            text_after_last(t, p).as_deref(),
            t.rsplit_once(p).map(|(_, after)| after),
            "{t:?} {p:?}"
        );
        assert_eq!(find_last(t, p), t.rfind(p), "{t:?} {p:?}");
    }
}

#[test]
fn texts_are_trimmed_like_strings() {
    for t in ["", " ", " a b ", "\t\n\u{a0}x\u{2003}", "\u{3000}", "x", "\u{200b}x\u{200b}"] {
        assert_eq!(trim(t), t.trim(), "{t:?}");
    }
    for code in 0..0x3100u32 {
        if let Some(c) = char::from_u32(code) {
            assert_eq!(white(c), c.is_whitespace(), "{code:x}");
        }
    }
    for c in ['a', '\u{7f}', '\u{80}', '\u{7ff}', '\u{800}', '\u{ffff}', '\u{10000}', '\u{10ffff}'] {
        assert_eq!(width_of(c), c.len_utf8());
    }
}

#[test]
fn prefixes_are_cut_by_bytes() {
    for t in ["", "abc", "\u{e4}bc", "a\u{1f600}", "0123456789"] {
        for n in 0..12 {
            assert_eq!(first_bytes(t, n).as_deref(), t.get(0..n), "{t:?} {n}");
        }
    }
}

#[test]
fn numbers_are_written_and_read() {
    for n in [0u64, 7, 10, 99, 100, 1_234_567, u64::MAX] {
        assert_eq!(number_text(n), n.to_string());
        assert_eq!(parse_u64(&n.to_string()), Some(n));
    }
    assert_eq!(wide_text(u128::MAX), u128::MAX.to_string());
    assert_eq!(count_text(42), "42");
    for t in ["", "+", "+7", "-7", "07", "7 ", "18446744073709551616", "1e3", "\u{661}"] {
        assert_eq!(parse_u64(t), t.parse::<u64>().ok(), "{t:?}");
    }
}

#[test]
fn texts_are_padded_and_joined() {
    for t in ["", "ab", "\u{e4}\u{f6}", "longer than the width"] {
        assert_eq!(pad_left(t, 6), format!("{t:>6}"));
        assert_eq!(pad_right(t, 6), format!("{t:<6}"));
    }
    assert_eq!(join(&texts(&["a", "", "b"]), ", "), "a, , b");
    assert_eq!(join(&[], ", "), "");
    assert!(list_has(&texts(&["a", "b"]), "b") && !list_has(&texts(&["a"]), "b"));
    assert_eq!(copy_texts(&texts(&["a"])), texts(&["a"]));
    assert_eq!(copy_option(&Some(s("a"))), Some(s("a")));
    assert_eq!(chars_of("a\u{1f600}"), vec!['a', '\u{1f600}']);
}

#[test]
fn bytes_are_read_as_text() {
    for bytes in [
        b"".to_vec(),
        b"plain".to_vec(),
        "\u{e4}\u{1f600}".as_bytes().to_vec(),
        vec![0xff],
        vec![0xc3],
        vec![0xed, 0xa0, 0x80],
        vec![0xc0, 0x80],
    ] {
        assert_eq!(decode_text(bytes.clone()), String::from_utf8(bytes).ok());
    }
}

#[test]
fn maps_keep_their_keys_in_order() {
    let mut m: OrderedMap<String, usize> = OrderedMap::new();
    assert!(m.is_empty());
    for (i, k) in ["b", "a", "c", "a"].iter().enumerate() {
        m.insert(s(k), i);
    }
    assert_eq!(m.len(), 3);
    assert_eq!((0..3).map(|i| m.key_at(i).clone()).collect::<Vec<_>>(), texts(&["a", "b", "c"]));
    assert_eq!((0..3).map(|i| *m.value_at(i)).collect::<Vec<_>>(), vec![3, 0, 2]);
    assert_eq!(m.get(&s("b")), Some(&0));
    assert_eq!(m.get(&s("x")), None);
    assert!(m.contains_key(&s("c")) && !m.contains_key(&s("")));
}

#[test]
fn items_are_grouped_and_counted() {
    let g = group(vec![(s("b"), s("2")), (s("a"), s("1")), (s("b"), s("1"))]);
    assert_eq!(g.get(&s("b")), Some(&texts(&["2", "1"])));
    let sorted = sort_groups(g);
    assert_eq!(sorted.get(&s("b")), Some(&texts(&["1", "2"])));
    let mut m: OrderedMap<String, Vec<String>> = OrderedMap::new();
    m.push_under(s("k"), s("x"));
    m.push_under(s("k"), s("y"));
    assert_eq!(m.get(&s("k")), Some(&texts(&["x", "y"])));
    let t = tally(vec![(s("b"), s("1")), (s("a"), s("9")), (s("b"), s("1"))]);
    assert_eq!(t.len(), 2);
    assert_eq!(t.get(&(s("b"), s("1"))), Some(&2));
    assert_eq!(sort_list(texts(&["b", "a", "b"])), texts(&["a", "b", "b"]));
}

#[test]
fn sets_hold_each_key_once() {
    let mut set: KeySet<(String, String, String)> = KeySet::new();
    set.insert((s("a"), s("b"), s("c")));
    set.insert((s("a"), s("b"), s("c")));
    set.insert((s("a"), s("a"), s("z")));
    assert_eq!(set.len(), 2);
    assert_eq!(set.at(0), &(s("a"), s("a"), s("z")));
    assert!(set.contains(&(s("a"), s("b"), s("c"))) && !set.is_empty());
    let mut names = set_of(&texts(&["b", "a", "b"]));
    assert_eq!(names.len(), 2);
    insert_texts(&mut names, &texts(&["c"]));
    assert!(names.contains(&s("c")));
}

#[test]
fn documents_are_parsed() {
    let j = parse_json(r#"{"a": [1, -2.5, true, null, "x"], "b": {"c": "ä"}}"#.as_bytes()).unwrap();
    let items = j.get_array("a").unwrap();
    assert!(matches!(&items[0], Json::Number(n) if n == "1"));
    assert!(matches!(&items[1], Json::Number(n) if n == "-2.5"));
    assert!(matches!(items[2], Json::Bool(true)));
    assert!(matches!(items[3], Json::Null));
    assert_eq!(items[4].as_str(), Some("x"));
    assert_eq!(j.get("b").unwrap().get_str("c").as_deref(), Some("\u{e4}"));
    assert!(j.get("c").is_none() && j.as_str().is_none() && j.as_array().is_none());
    assert!(j.get_str("a").is_none() && items[0].get("a").is_none());
    // The last member of a name counts.
    assert_eq!(parse_json(br#"{"a": 1, "a": "y"}"#).unwrap().get_str("a").as_deref(), Some("y"));
    for bad in ["", "{", "[1,]", "{} x", "'a'"] {
        assert!(parse_json(bad.as_bytes()).is_none(), "{bad}");
    }
}
