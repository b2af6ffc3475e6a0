use zmq_arena::number::{
    decimal, parse_i32, parse_u64, parse_unsigned, reads_as_number, signed_decimal,
};
use zmq_arena::sort::sort;
use zmq_arena::sorted_map::SortedMap;
use zmq_arena::text::{
    ascii_lowercase, contains, ends_with, join, less, lines, same, split_once, starts_with,
    strip_prefix, trim, words,
};

#[test]
fn numbers_are_written_and_read_back() {
    for n in [0, 7, 10, 99, 1_000_000, u64::MAX] {
        assert_eq!(decimal(n), format!("{n}"));
        assert_eq!(parse_u64(&decimal(n)), Some(n));
    }
    for n in [i64::MIN, -1, 0, 42, i64::MAX] {
        assert_eq!(signed_decimal(n), format!("{n}"));
    }
}

#[test]
fn numbers_are_read_as_std_reads_them() {
    let inputs = [
        "", "+", "-", "+5", "-5", "++5", "05", " 5", "5 ", "4294967295", "4294967296",
        "18446744073709551615", "18446744073709551616", "-2147483648", "-2147483649", "2147483648",
        "-0", "٣", "1_000",
    ];
    for t in inputs {
        assert_eq!(parse_u64(t), t.parse::<u64>().ok(), "{t}");
        assert_eq!(parse_unsigned(t, 0xffff_ffff), t.parse::<u32>().ok().map(u64::from), "{t}");
        assert_eq!(parse_i32(t), t.parse::<i32>().ok(), "{t}");
    }
}

#[test]
fn text_is_cut_as_std_cuts_it() {
    let inputs = [
        "", "a", " a  b\tc ", "a\nb\r\nc\r", "\n\n", "x\r\n", "\u{3000}k\u{a0}", "a=b=c", "=", "é=ü",
        "\r", "a\rb",
    ];
    for t in inputs {
        assert_eq!(trim(t), t.trim());
        assert_eq!(lines(t), t.lines().map(str::to_string).collect::<Vec<_>>());
        assert_eq!(words(t), t.split_whitespace().map(str::to_string).collect::<Vec<_>>());
        assert_eq!(
            split_once(t, '='),
            t.split_once('=').map(|(a, b)| (a.to_string(), b.to_string()))
        );
        for p in ["", "a", "b", "c\r", "é", "=b"] {
            assert_eq!(starts_with(t, p), t.starts_with(p));
            assert_eq!(ends_with(t, p), t.ends_with(p));
            assert_eq!(contains(t, p), t.contains(p));
            assert_eq!(strip_prefix(t, p), t.strip_prefix(p).map(str::to_string));
            assert_eq!(same(t, p), t == p);
            assert_eq!(less(t, p), t < p);
        }
    }
}

#[test]
fn text_is_joined() {
    let v: Vec<String> = ["a", "", "c"].iter().map(|s| s.to_string()).collect();
    assert_eq!(join(&v, "; "), "a; ; c");
    assert_eq!(join(&vec![], "; "), "");
    assert_eq!(ascii_lowercase("A-Zé\u{c9}9"), "a-zé\u{c9}9");
}

#[test]
fn integers_are_sorted() {
    let v: Vec<i128> = vec![5, -3, 5, 0, i128::MIN, i128::MAX];
    let mut w = v.clone();
    w.sort();
    assert_eq!(sort(&v), w);
    assert!(sort(&vec![]).is_empty());
}

#[test]
fn a_sorted_map_keeps_its_keys_in_order() {
    let mut m: SortedMap<String, u32> = SortedMap::new();
    for (k, v) in [("b", 1), ("a", 2), ("c", 3), ("a", 4)] {
        m.insert(k.to_string(), v);
    }
    m.insert_if_absent("b".to_string(), 9);
    m.insert_if_absent("aa".to_string(), 5);
    let keys: Vec<&str> = m.entries.iter().map(|e| e.0.as_str()).collect();
    assert_eq!(keys, vec!["a", "aa", "b", "c"]);
    assert_eq!(m.get(&"a".to_string()), Some(&4));
    assert_eq!(m.get(&"b".to_string()), Some(&1));
    assert_eq!(m.get(&"x".to_string()), None);
    assert_eq!(m.take(&"b".to_string()), Some(1));
    assert_eq!(m.take(&"b".to_string()), None);
    assert_eq!(m.entries.len(), 3);
}

#[test]
fn what_reads_as_a_number() {
    let texts = [
        "1", "1.5", "1.", ".5", ".", "", "+", "-", "-1", "+.5e-3", "1e5", "1E+5", "1e", "e5", "1e5.0",
        "1.2.3", "1 ", " 1", "inf", "-INF", "Infinity", "+NaN", "nan", "infin", "abc", "1_0", "0x1",
        "1e999", "1f", "\u{661}", "++1", "+-1", "--1", "1e+-1", "1.e1", ".e1", "nan1", "\u{130}nf",
    ];
    for t in texts {
        assert_eq!(reads_as_number(t), t.parse::<f64>().is_ok(), "{t:?}");
    }
}
