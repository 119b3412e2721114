use barzel::order::{key_before, sort_texts, stable_order, text_before, Key};

fn key(major: i64, minor: i64, texts: &[&str]) -> Key {
    Key { major, minor, texts: texts.iter().map(|t| t.to_string()).collect() }
}

#[test]
fn texts_are_ordered_as_usual() {
    let texts = ["", "a", "ab", "b", "é", "z", "\u{10000}", "\u{ffff}"];
    for a in texts {
        for b in texts {
            assert_eq!(text_before(a, b), a < b);
        }
    }
}

#[test]
fn sorted_texts_keep_their_number() {
    let v: Vec<String> = ["b", "a", "c", "a"].iter().map(|s| s.to_string()).collect();
    assert_eq!(sort_texts(&v), ["a", "a", "b", "c"]);
}

#[test]
fn equal_keys_keep_their_order() {
    let keys = vec![key(2, 0, &[]), key(1, 0, &["x"]), key(1, 0, &["x"]), key(1, -1, &[])];
    assert_eq!(stable_order(&keys), [3, 1, 2, 0]);
}

#[test]
fn keys_go_by_numbers_first() {
    assert!(key_before(&key(0, 9, &["z"]), &key(1, 0, &["a"])));
    assert!(key_before(&key(1, 0, &["a"]), &key(1, 0, &["a", "b"])));
    assert!(!key_before(&key(1, 0, &["a"]), &key(1, 0, &["a"])));
}
