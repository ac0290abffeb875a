use secure_session::session::Session;

#[test]
fn insert_then_get() {
    let mut session = Session::new();
    assert_eq!(session.insert_bytes("foo", b"bar".to_vec()), None);
    assert_eq!(session.get_bytes("foo"), Some(&b"bar".to_vec()));
}

#[test]
fn insert_returns_previous_value() {
    let mut session = Session::new();
    assert_eq!(session.insert_bytes("foo", b"bar".to_vec()), None);
    assert_eq!(session.insert_bytes("foo", b"baz".to_vec()), Some(b"bar".to_vec()));
    assert_eq!(session.get_bytes("foo"), Some(&b"baz".to_vec()));
}

#[test]
fn remove_bytes_returns_value_once() {
    let mut session = Session::new();
    assert_eq!(session.remove_bytes("foo"), None);
    let _ = session.insert_bytes("foo", b"bar".to_vec());
    assert_eq!(session.remove_bytes("foo"), Some(b"bar".to_vec()));
    assert_eq!(session.remove_bytes("foo"), None);
    assert!(!session.contains_key("foo"));
}

#[test]
fn remove_keeps_other_keys() {
    let mut session = Session::new();
    let _ = session.insert_bytes("a", vec![1]);
    let _ = session.insert_bytes("b", vec![2]);
    let _ = session.insert_bytes("c", vec![3]);
    assert_eq!(session.remove_bytes("b"), Some(vec![2]));
    assert_eq!(session.get_bytes("a"), Some(&vec![1]));
    assert_eq!(session.get_bytes("c"), Some(&vec![3]));
    assert_eq!(session.get_bytes("b"), None);
}

#[test]
fn contains_key_after_insert() {
    let mut session = Session::new();
    assert!(!session.contains_key("foo"));
    let _ = session.insert_bytes("foo", b"bar".to_vec());
    assert!(session.contains_key("foo"));
}

#[test]
fn clear_removes_everything() {
    let mut session = Session::new();
    let _ = session.insert_bytes("foo", b"bar".to_vec());
    let _ = session.insert_bytes("wat", b"lol".to_vec());
    session.clear();
    assert!(!session.contains_key("foo"));
    assert!(!session.contains_key("wat"));
    assert_eq!(session.get_bytes("foo"), None);
}

#[test]
fn empty_key_and_empty_value() {
    let mut session = Session::new();
    assert_eq!(session.insert_bytes("", Vec::new()), None);
    assert_eq!(session.get_bytes(""), Some(&Vec::new()));
}

#[test]
fn equality_ignores_insertion_order() {
    let mut a = Session::new();
    let _ = a.insert_bytes("x", vec![1]);
    let _ = a.insert_bytes("y", vec![2]);
    let mut b = Session::new();
    let _ = b.insert_bytes("y", vec![2]);
    let _ = b.insert_bytes("x", vec![1]);
    assert_eq!(a, b);
    let _ = b.insert_bytes("x", vec![9]);
    assert_ne!(a, b);
    let c = a.clone();
    assert_eq!(a, c);
}
