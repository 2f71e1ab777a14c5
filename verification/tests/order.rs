//! Tests of sorting, tables and path order.
use nanoss::order::{add_text, find_row, put_row, remove_text, sort_texts, text_less};
use nanoss::pathorder::{path_less, sort_paths};
use std::path::{Path, PathBuf};

fn owned(v: &[&str]) -> Vec<String> {
    v.iter().map(|s| s.to_string()).collect()
}

#[test]
fn texts_are_ordered_as_the_standard_library_orders_them() {
    let words = ["", "a", "B", "b", "ba", "ab", "é", "z", "日本", "日"];
    for a in words {
        for b in words {
            assert_eq!(text_less(a, b), a < b);
        }
    }
    let mut expected = owned(&words);
    expected.sort();
    assert_eq!(sort_texts(owned(&words)), expected);
    let mut reversed = owned(&words);
    reversed.reverse();
    assert_eq!(sort_texts(reversed), expected);
}

#[test]
fn tables_keep_the_last_value_of_a_key() {
    let mut rows: Vec<(String, String)> = Vec::new();
    for (k, v) in [("b", "1"), ("a", "2"), ("c", "3"), ("b", "4")] {
        put_row(&mut rows, k, v.to_string());
    }
    let seen: Vec<(&str, &str)> = rows.iter().map(|(k, v)| (k.as_str(), v.as_str())).collect();
    assert_eq!(seen, vec![("a", "2"), ("b", "4"), ("c", "3")]);
    assert_eq!(find_row(&rows, "b"), Some(1));
    assert_eq!(find_row(&rows, "x"), None);
}

#[test]
fn sets_hold_each_text_once() {
    let mut set: Vec<String> = Vec::new();
    for k in ["m", "a", "m", "z"] {
        add_text(&mut set, k);
    }
    assert_eq!(set, owned(&["a", "m", "z"]));
    assert_eq!(remove_text(&set, "m"), owned(&["a", "z"]));
    assert_eq!(remove_text(&set, "q"), set);
}

#[test]
fn paths_are_ordered_as_the_standard_library_orders_them() {
    let paths = ["", "a", "a/b", "a-b", "b", "/a", "../a", "./a", "a/./b", "a//b", "/"];
    for a in paths {
        for b in paths {
            assert_eq!(path_less(a, b), Path::new(a) < Path::new(b), "{a:?} {b:?}");
        }
    }
    let given = owned(&["plugins/b.wasm", "a.wasm", "plugins/b.wasm", "plugins/a.wasm"]);
    let mut expected: Vec<PathBuf> = given.iter().map(PathBuf::from).collect();
    expected.sort();
    expected.dedup();
    let sorted: Vec<PathBuf> = sort_paths(&given).iter().map(PathBuf::from).collect();
    assert_eq!(sorted, expected);
}
