use watchbind::keybindings::parse_str;
use watchbind::keybindings::ParseError;
use watchbind::keybindings::RawKeybindings;

fn ops(names: &[&str]) -> Vec<String> {
    names.iter().map(|n| n.to_string()).collect()
}

#[test]
fn test_parse_str_single_operation() {
    let (key, operations) = parse_str("q:quit").unwrap();
    assert_eq!(key, "q");
    assert_eq!(operations, ops(&["quit"]));
}

#[test]
fn test_parse_str_multiple_operations_are_trimmed() {
    let (key, operations) = parse_str("k: up + select ").unwrap();
    assert_eq!(key, "k");
    assert_eq!(operations, ops(&["up", "select"]));
}

#[test]
fn test_parse_str_splits_at_first_colon() {
    let (key, operations) = parse_str("c:exec -- echo a:b").unwrap();
    assert_eq!(key, "c");
    assert_eq!(operations, ops(&["exec -- echo a:b"]));
}

#[test]
fn test_parse_str_empty_operations() {
    let (key, operations) = parse_str("x:").unwrap();
    assert_eq!(key, "x");
    assert_eq!(operations, ops(&[""]));
}

#[test]
fn test_parse_str_without_colon_is_rejected() {
    match parse_str("no separator here") {
        Err(ParseError::InvalidFormat) => {}
        _ => panic!("text without a colon must be rejected"),
    }
    assert!(parse_str("").is_err());
}

#[test]
fn test_insert_and_get() {
    let mut kb = RawKeybindings::empty();
    kb.insert("q".to_string(), ops(&["quit"]));
    kb.insert("j".to_string(), ops(&["down"]));
    assert_eq!(kb.get(&"q".to_string()), Some(&ops(&["quit"])));
    assert_eq!(kb.get(&"j".to_string()), Some(&ops(&["down"])));
    assert_eq!(kb.get(&"x".to_string()), None);
    kb.insert("q".to_string(), ops(&["exit"]));
    assert_eq!(kb.get(&"q".to_string()), Some(&ops(&["exit"])));
}

#[test]
fn test_from_pairs_later_binding_wins() {
    let kb = RawKeybindings::from_pairs(vec![
        ("j".to_string(), ops(&["down"])),
        ("k".to_string(), ops(&["up"])),
        ("j".to_string(), ops(&["down", "select"])),
    ]);
    assert_eq!(kb.get(&"j".to_string()), Some(&ops(&["down", "select"])));
    assert_eq!(kb.get(&"k".to_string()), Some(&ops(&["up"])));
}

#[test]
fn test_merge_new_binding_wins_on_shared_key() {
    let mut older = RawKeybindings::empty();
    older.insert("q".to_string(), ops(&["quit"]));
    older.insert("j".to_string(), ops(&["down"]));
    let mut newer = RawKeybindings::empty();
    newer.insert("q".to_string(), ops(&["exit"]));
    newer.insert("g".to_string(), ops(&["first"]));
    let merged = RawKeybindings::merge(Some(newer), Some(older)).unwrap();
    assert_eq!(merged.get(&"q".to_string()), Some(&ops(&["exit"])));
    assert_eq!(merged.get(&"j".to_string()), Some(&ops(&["down"])));
    assert_eq!(merged.get(&"g".to_string()), Some(&ops(&["first"])));
}

#[test]
fn test_merge_with_missing_sides() {
    let mut only = RawKeybindings::empty();
    only.insert("q".to_string(), ops(&["quit"]));
    let merged = RawKeybindings::merge(None, Some(only)).unwrap();
    assert_eq!(merged.get(&"q".to_string()), Some(&ops(&["quit"])));

    let mut only = RawKeybindings::empty();
    only.insert("k".to_string(), ops(&["up"]));
    let merged = RawKeybindings::merge(Some(only), None).unwrap();
    assert_eq!(merged.get(&"k".to_string()), Some(&ops(&["up"])));

    assert!(RawKeybindings::merge(None, None).is_none());
}
