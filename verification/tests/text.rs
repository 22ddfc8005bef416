use codegraph::ordered::{
    contains_string, find_sorted, insert_unique, lower_bound, sort_strings, sorted_distinct,
};
use codegraph::str_map::StrMap;
use codegraph::text::{
    chars_of, contains_chars, join_strings, rfind_char, rfind_chars, split_chars, str_contains,
    string_of, trim, trim_chars, trim_end, trim_end_set, trim_start_set, trim_start_str,
};

fn s(text: &str) -> Vec<char> {
    text.chars().collect()
}

fn strings(items: &[&str]) -> Vec<String> {
    items.iter().map(|x| x.to_string()).collect()
}

#[test]
fn characters_of_strings() {
    assert_eq!(chars_of("a\u{e9}\u{4e2d}"), vec!['a', '\u{e9}', '\u{4e2d}']);
    assert_eq!(chars_of(""), Vec::<char>::new());
    assert_eq!(string_of(&vec!['a', '\u{e9}', '\u{4e2d}']), "a\u{e9}\u{4e2d}");
    assert_eq!(string_of(&vec![]), "");
}

#[test]
fn searching() {
    assert_eq!(rfind_char(&s("a/b/c"), '/'), Some(3));
    assert_eq!(rfind_char(&s("abc"), '/'), None);
    assert_eq!(rfind_chars(&s("a::b::c"), &s("::")), Some(4));
    assert_eq!(rfind_chars(&s("abc"), &s("::")), None);
    assert_eq!(rfind_chars(&s("abc"), &s("")), Some(3));
    assert!(contains_chars(&s("hello"), &s("ell")));
    assert!(!contains_chars(&s("hello"), &s("elx")));
    assert!(contains_chars(&s("hello"), &s("")));
    assert!(str_contains("src/core/mod.rs", "core/mod"));
    assert!(!str_contains("ab", "abc"));
}

#[test]
fn splitting_and_joining() {
    let pieces = split_chars(&s("a,,b,"), ',');
    assert_eq!(pieces, vec![s("a"), s(""), s("b"), s("")]);
    assert_eq!(split_chars(&s(""), ','), vec![s("")]);
    assert_eq!(join_strings(&strings(&["a", "b", "c"]), ", "), "a, b, c");
    assert_eq!(join_strings(&strings(&["a"]), ", "), "a");
    assert_eq!(join_strings(&strings(&[]), ", "), "");
}

#[test]
fn trimming() {
    assert_eq!(trim(&s("  a b \t\n")), s("a b"));
    assert_eq!(trim(&s(" \u{a0}\u{3000}x\u{2003}")), s("x"));
    assert_eq!(trim(&s("   ")), s(""));
    assert_eq!(trim_end(&s(" a \n")), s(" a"));
    assert_eq!(trim_chars(&s("<<a>b>>"), &s("<>")), s("a>b"));
    assert_eq!(trim_start_set(&s("**p*"), &s("*")), s("p*"));
    assert_eq!(trim_end_set(&s("x;;"), &s(";")), s("x"));
    assert_eq!(trim_start_str(&s("importimport x"), &s("import")), s(" x"));
    assert_eq!(trim_start_str(&s("x"), &s("")), s("x"));
}

#[test]
fn sorting_follows_code_points() {
    let sorted = sort_strings(&strings(&["b", "a", "B", "ab", "", "a", "\u{e9}", "z"]));
    assert_eq!(sorted, strings(&["", "B", "a", "a", "ab", "b", "z", "\u{e9}"]));
    let distinct = sorted_distinct(&strings(&["b", "a", "b", "c", "a"]));
    assert_eq!(distinct, strings(&["a", "b", "c"]));
    assert!(contains_string(&strings(&["x", "y"]), "y"));
    assert!(!contains_string(&strings(&["x", "y"]), "z"));
}

#[test]
fn sorted_vectors() {
    let mut v: Vec<String> = Vec::new();
    assert!(insert_unique(&mut v, "m".to_string()));
    assert!(insert_unique(&mut v, "a".to_string()));
    assert!(insert_unique(&mut v, "z".to_string()));
    assert!(!insert_unique(&mut v, "m".to_string()));
    assert_eq!(v, strings(&["a", "m", "z"]));
    assert_eq!(lower_bound(&v, "m"), 1);
    assert_eq!(lower_bound(&v, "b"), 1);
    assert_eq!(lower_bound(&v, "zz"), 3);
    assert_eq!(find_sorted(&v, "z"), Some(2));
    assert_eq!(find_sorted(&v, "q"), None);
}

#[test]
fn string_maps() {
    let mut m: StrMap<u32> = StrMap::new();
    assert!(m.is_empty());
    assert_eq!(m.insert("b".to_string(), 2), None);
    assert_eq!(m.insert("a".to_string(), 1), None);
    assert_eq!(m.insert("c".to_string(), 3), None);
    assert_eq!(m.insert("b".to_string(), 20), Some(2));
    assert_eq!(m.len(), 3);
    assert_eq!(m.key_list(), strings(&["a", "b", "c"]));
    assert_eq!(m.get("b"), Some(&20));
    assert_eq!(m.get("x"), None);
    assert!(m.contains_key("c"));
    assert_eq!(m.index_of("c"), Some(2));
    assert_eq!(m.key_at(0), "a");
    assert_eq!(*m.value_at(2), 3);
    assert_eq!(m.replace_at(0, 10), 1);
    assert_eq!(m.remove("b"), Some(20));
    assert_eq!(m.remove("b"), None);
    assert_eq!(m.key_list(), strings(&["a", "c"]));
    let copy = m.duplicate();
    assert_eq!(copy.get("a"), Some(&10));
    let built = StrMap::from_sorted(strings(&["k", "l"]), vec![1u8, 2u8]);
    assert_eq!(built.get("l"), Some(&2));
}

#[test]
fn white_space_is_trimmed() {
    let trimmed = |text: &str| -> String {
        codegraph::text::trim(&text.chars().collect()).into_iter().collect()
    };
    let trimmed_end = |text: &str| -> String {
        codegraph::text::trim_end(&text.chars().collect()).into_iter().collect()
    };
    assert_eq!(trimmed("\t\u{a0}\u{3000} a b \u{2028}\u{85}\r\n"), "a b");
    assert_eq!(trimmed("\u{200b}x\u{200b}"), "\u{200b}x\u{200b}");
    assert_eq!(trimmed("\u{1c}x"), "\u{1c}x");
    assert_eq!(trimmed_end("x\u{2000}\u{200a}\u{202f}\u{205f}\u{1680}"), "x");
    for code in 0..0x11_0000u32 {
        if let Some(c) = char::from_u32(code) {
            assert_eq!(codegraph::text::char_is_whitespace(c), c.is_whitespace(), "{:?}", c);
        }
    }
}
