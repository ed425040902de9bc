use mail_mcp::names::{comes_before, NameMap};

#[test]
fn names_are_ordered_as_strings_are() {
    let words = ["", "a", "B", "ab", "b", "\u{e4}", "z", "\u{ffff}", "\u{10000}", "aa"];
    for a in words {
        for b in words {
            assert_eq!(comes_before(a, b), a < b, "{a:?} {b:?}");
        }
    }
}

#[test]
fn a_map_keeps_one_value_for_a_name() {
    let mut m: NameMap<u32> = NameMap::new();
    assert!(m.is_empty());
    for (i, name) in ["work", "home", "alpha", "work"].iter().enumerate() {
        m.insert(name.to_string(), i as u32);
    }
    assert!(!m.is_empty());
    assert_eq!(m.len(), 3);
    assert_eq!(m.get("work"), Some(&3));
    assert_eq!(m.get("home"), Some(&1));
    assert_eq!(m.get("none"), None);
    let names: Vec<&str> = (0..m.len()).map(|i| m.at(i).0.as_str()).collect();
    assert_eq!(names, vec!["alpha", "home", "work"]);
}

#[test]
fn a_name_can_be_taken_out() {
    let mut m: NameMap<u32> = NameMap::new();
    m.insert("a".to_string(), 1);
    m.insert("b".to_string(), 2);
    assert!(m.remove("a"));
    assert!(!m.remove("a"));
    assert!(!m.contains_key("a"));
    assert!(m.contains_key("b"));
    assert_eq!(m.len(), 1);
}
