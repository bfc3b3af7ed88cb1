use buschain::ordset::{contains_str, contains_u32, insert_sorted_pair, insert_sorted_str, insert_sorted_u32};
use buschain::table::Table;
use buschain::text::{
    eq_ignore_case, ends_with, lines, parse_u32, split_char, split_once_char, split_once_str,
    starts_with, str_lt, strip_prefix, strip_suffix, to_ascii_lowercase, tokens, trim,
    u32_to_string, u64_to_string, unquote,
};

fn s(v: &str) -> String {
    v.to_string()
}

#[test]
fn text_helpers_follow_std() {
    assert_eq!(trim("  a b \t"), "a b");
    assert_eq!(split_char("a\tb\t\tc", '\t'), vec![s("a"), s("b"), s(""), s("c")]);
    assert_eq!(lines("x\r\ny\n\nz"), vec![s("x"), s("y"), s(""), s("z")]);
    assert_eq!(lines("x\n"), vec![s("x")]);
    assert!(lines("").is_empty());
    assert_eq!(tokens("  s32le 2ch\t48000Hz "), vec![s("s32le"), s("2ch"), s("48000Hz")]);
    assert_eq!(parse_u32("48000"), Some(48_000));
    assert_eq!(parse_u32("+7"), Some(7));
    assert_eq!(parse_u32("4294967296"), None);
    assert_eq!(parse_u32("12a"), None);
    assert_eq!(parse_u32(""), None);
    assert_eq!(u32_to_string(0), "0");
    assert_eq!(u32_to_string(4_294_967_295), "4294967295");
    assert_eq!(u64_to_string(18_446_744_073_709_551_615), "18446744073709551615");
    assert_eq!(strip_prefix("buschain_x", "buschain_").as_deref(), Some("x"));
    assert_eq!(strip_suffix("a.monitor", ".monitor").as_deref(), Some("a"));
    assert!(strip_prefix("x", "buschain_").is_none());
    assert!(starts_with("abc", "ab") && !starts_with("ab", "abc"));
    assert!(ends_with("abc", "bc"));
    assert_eq!(buschain::text::concat("ab", "cd"), "abcd");
    assert_eq!(to_ascii_lowercase("AbC-É"), "abc-É");
    assert!(eq_ignore_case("FireFox", "firefox"));
    assert!(str_lt("abc", "abd") && str_lt("ab", "abc") && !str_lt("b", "a"));
    assert_eq!(unquote("\"\"quoted\""), "quoted");
    assert_eq!(split_once_str("k = v = w", " = "), Some((s("k"), s("v = w"))));
    assert_eq!(split_once_char("a:b:c", ':'), Some((s("a"), s("b:c"))));
    assert_eq!(split_once_char("abc", ':'), None);
}

#[test]
fn sorted_sets() {
    let mut v: Vec<u32> = vec![];
    for x in [48_000, 44_100, 96_000, 48_000] {
        insert_sorted_u32(&mut v, x);
    }
    assert_eq!(v, vec![44_100, 48_000, 96_000]);
    assert!(contains_u32(&v, 96_000) && !contains_u32(&v, 1));
    let mut w: Vec<String> = vec![];
    for x in ["b", "a", "c", "a"] {
        insert_sorted_str(&mut w, s(x));
    }
    assert_eq!(w, vec![s("a"), s("b"), s("c")]);
    assert!(contains_str(&w, "b") && !contains_str(&w, "z"));
    let mut p: Vec<(String, String)> = vec![];
    insert_sorted_pair(&mut p, s("k2"), s("two"));
    insert_sorted_pair(&mut p, s("k1"), s("one"));
    insert_sorted_pair(&mut p, s("k2"), s("again"));
    assert_eq!(p, vec![(s("k1"), s("one")), (s("k2"), s("two"))]);
}

#[test]
fn table_is_a_map() {
    let mut t: Table<String, u32> = Table::new();
    t.insert(s("a"), 1);
    t.insert(s("b"), 2);
    t.insert(s("a"), 3);
    assert_eq!(t.count(), 2);
    assert_eq!(t.get(&s("a")), Some(&3));
    assert!(t.contains_key(&s("b")));
    assert_eq!(t.remove(&s("b")), Some(2));
    assert_eq!(t.remove(&s("b")), None);
    assert!(t.get(&s("b")).is_none());
    let mut u: Table<(u32, u32), u32> = Table::new();
    u.insert((1, 2), 9);
    assert_eq!(u.get(&(1, 2)), Some(&9));
    assert!(u.get(&(2, 1)).is_none());
}

#[test]
fn succeeded_runs_are_counted() {
    assert_eq!(buschain::ordset::count_succeeded(&vec![true, false, true, true]), 3);
    assert_eq!(buschain::ordset::count_succeeded(&vec![]), 0);
}
