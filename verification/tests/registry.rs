use fmtstrformatter::Registry;

#[test]
fn new_registry_is_empty() {
    let reg = Registry::new();
    assert_eq!(reg.lookup('a'), None);
    assert!(!reg.is_truthy('a'));
}

#[test]
fn register_then_lookup() {
    let mut reg = Registry::new();
    reg.register('a', "one".to_string());
    reg.register('b', "two".to_string());
    assert_eq!(reg.lookup('a'), Some(&"one".to_string()));
    assert_eq!(reg.lookup('b'), Some(&"two".to_string()));
    assert_eq!(reg.lookup('c'), None);
}

#[test]
fn last_value_wins() {
    let mut reg = Registry::new();
    reg.register('a', "one".to_string());
    reg.register('a', "two".to_string());
    assert_eq!(reg.lookup('a'), Some(&"two".to_string()));
}

#[test]
fn truthy_means_registered_and_not_empty() {
    let mut reg = Registry::new();
    reg.register('a', "x".to_string());
    reg.register('e', String::new());
    reg.register('s', " ".to_string());
    assert!(reg.is_truthy('a'));
    assert!(!reg.is_truthy('e'));
    assert!(reg.is_truthy('s'));
    assert!(!reg.is_truthy('z'));
}

#[test]
fn keys_differ_by_case_and_code() {
    let mut reg = Registry::new();
    reg.register('a', "lower".to_string());
    reg.register('A', "upper".to_string());
    reg.register('\u{10ffff}', "last".to_string());
    reg.register('\u{0}', "first".to_string());
    assert_eq!(reg.lookup('a'), Some(&"lower".to_string()));
    assert_eq!(reg.lookup('A'), Some(&"upper".to_string()));
    assert_eq!(reg.lookup('\u{10ffff}'), Some(&"last".to_string()));
    assert_eq!(reg.lookup('\u{0}'), Some(&"first".to_string()));
}
