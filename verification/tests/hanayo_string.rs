use haru::hanayo::string;

#[test]
fn string_length() {
    assert_eq!(string::length("日本"), 2);
    // a letter and a combining accent are one character
    assert_eq!(string::length("e\u{301}x"), 2);
}

#[test]
fn string_bytesize() {
    assert_eq!(string::bytesize("日本"), 6);
}

#[test]
fn string_startswith() {
    assert!(string::startswith("abc", "a"));
    assert!(!string::startswith("abc", "b"));
    assert!(!string::startswith("a", "ab"));
}

#[test]
fn string_endswith() {
    assert!(string::endswith("abc", "bc"));
    assert!(!string::endswith("abc", "b"));
}

#[test]
fn string_delete() {
    assert_eq!(string::delete("λκj", 1, 1), "λj");
    assert_eq!(string::delete("abc", 1, 2), "a");
    assert_eq!(string::delete("abc", 1, -1), "a");
}

#[test]
fn string_delete_in_place() {
    let mut s = "λκj".to_string();
    string::delete_in_place(&mut s, 1, 1);
    assert_eq!(s, "λj");
    let mut s = "abc".to_string();
    string::delete_in_place(&mut s, 1, 2);
    assert_eq!(s, "a");
}

#[test]
fn string_copy() {
    assert_eq!(string::copy("λκj", 1, 2), "κj");
    assert_eq!(string::copy("abc", 1, -1), "bc");
}

#[test]
fn string_index() {
    assert_eq!(string::index("λκj", "κ"), 1);
    assert_eq!(string::index("abc", "bc"), 1);
    assert_eq!(string::index("abc", "x"), -1);
    // the accent starts inside the first character
    assert_eq!(string::index("e\u{301}", "\u{301}"), -1);
}

#[test]
fn string_insert() {
    let mut s = "λκj".to_string();
    string::insert_in_place(&mut s, 1, "a");
    assert_eq!(s, "λaκj");
    let mut s = "abc".to_string();
    string::insert_in_place(&mut s, 1, "bc");
    assert_eq!(s, "abcbc");
    // past the last character nothing changes
    let mut s = "abc".to_string();
    string::insert_in_place(&mut s, 3, "d");
    assert_eq!(s, "abc");
}

#[test]
fn string_split() {
    let arr = string::split("a b c", " ");
    assert_eq!(arr.len(), 3);
    assert_eq!(arr[0], "a");
    assert_eq!(arr[1], "b");
    assert_eq!(arr[2], "c");
    assert_eq!(string::split("a--b-", "--"), vec!["a", "b-"]);
    assert_eq!(string::split("abc", ""), vec!["", "a", "b", "c", ""]);
    assert_eq!(string::split("", ","), vec![""]);
}

#[test]
fn string_chars() {
    let arr = string::chars("λκj");
    assert_eq!(arr.len(), 3);
    assert_eq!(arr[0], "λ");
    assert_eq!(arr[1], "κ");
    assert_eq!(arr[2], "j");
}

#[test]
fn string_ord() {
    assert_eq!(string::ord("a"), 97);
    assert_eq!(string::ord(""), 0);
}

#[test]
fn string_split_then_join() {
    for (s, d) in [("a b c", " "), ("a--b-", "--"), ("abc", ""), ("", ","), (",,", ",")] {
        assert_eq!(string::split(s, d).join(d), s);
    }
}

#[test]
fn string_delete_then_copy_rest() {
    for from in 0..5 {
        let s = "λκj̃x";
        let mut joined = string::delete(s, from, -1);
        joined.push_str(&string::copy(s, from, -1));
        assert_eq!(joined, s);
        let mut joined = string::copy(s, 0, from);
        joined.push_str(&string::delete(s, 0, from));
        assert_eq!(joined, s);
    }
}
