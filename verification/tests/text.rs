use project_dots::keyed::KeyedList;
use project_dots::paths::join_path;
use project_dots::sorting::{sort_dedup_strings, sort_strings};
use project_dots::text::{
    chars_of, decimal_string, lines_of, parse_unsigned_chars, trim_str, utf8_len_of, words_of,
};

fn strings(items: &[&str]) -> Vec<String> {
    items.iter().map(|s| s.to_string()).collect()
}

fn texts(v: Vec<Vec<char>>) -> Vec<String> {
    v.into_iter().map(|c| c.into_iter().collect()).collect()
}

#[test]
fn lines_follow_str_lines() {
    let got = texts(lines_of(&chars_of("a\r\nb\n\nc\r")));
    assert_eq!(got, strings(&["a", "b", "", "c\r"]));
    assert!(lines_of(&chars_of("")).is_empty());
    assert_eq!(texts(lines_of(&chars_of("x\n"))), strings(&["x"]));
}

#[test]
fn words_follow_split_whitespace() {
    assert_eq!(texts(words_of(&chars_of("  curl -fsSL\thttps://x  | sh "))), strings(&["curl", "-fsSL", "https://x", "|", "sh"]));
    assert!(words_of(&chars_of(" \n ")).is_empty());
}

#[test]
fn numbers_and_trimming() {
    assert_eq!(parse_unsigned_chars(&chars_of("+42"), 100), Some(42));
    assert_eq!(parse_unsigned_chars(&chars_of("101"), 100), None);
    assert_eq!(parse_unsigned_chars(&chars_of(""), 100), None);
    assert_eq!(parse_unsigned_chars(&chars_of("4 2"), 100), None);
    assert_eq!(decimal_string(0), "0");
    assert_eq!(decimal_string(1234567890), "1234567890");
    assert_eq!(trim_str("\t a b \n"), "a b");
    assert_eq!(utf8_len_of("aé€😀"), 1 + 2 + 3 + 4);
}

#[test]
fn paths_join_like_pathbuf() {
    assert_eq!(join_path("/home/u", ".config/dotss"), "/home/u/.config/dotss");
    assert_eq!(join_path("/home/u/", "x"), "/home/u/x");
    assert_eq!(join_path("/home/u", "/etc/x"), "/etc/x");
    assert_eq!(join_path("", "x"), "x");
}

#[test]
fn sorting_orders_and_dedups() {
    assert_eq!(sort_strings(strings(&["b", "a", "b", "A"])), strings(&["A", "a", "b", "b"]));
    assert_eq!(sort_dedup_strings(strings(&["b", "a", "b", "A"])), strings(&["A", "a", "b"]));
}

#[test]
fn keyed_list_reads_what_was_written() {
    let mut list: KeyedList<u32> = KeyedList::new();
    list.insert("zsh".to_string(), 1);
    list.insert("bat".to_string(), 2);
    list.insert("zsh".to_string(), 3);
    assert_eq!(list.len(), 2);
    assert_eq!(list.get("zsh"), Some(&3));
    assert_eq!(list.key_at(0), "bat");
    list.remove("zsh");
    assert_eq!(list.get("zsh"), None);
    assert!(list.contains_key("bat"));
}
