use xpc_connection::{Dictionary, Message};

#[test]
fn a_new_dictionary_is_empty() {
    let dictionary = Dictionary::new();
    assert_eq!(dictionary.len(), 0);
    assert!(dictionary.get(b"K").is_none());
}

#[test]
fn insert_keeps_the_order_of_the_keys() {
    let mut dictionary = Dictionary::new();
    assert!(dictionary.insert(b"b".to_vec(), Message::Int64(1)).is_none());
    assert!(dictionary.insert(b"a".to_vec(), Message::Int64(2)).is_none());
    assert_eq!(dictionary.len(), 2);
    assert_eq!(dictionary.key_at(0), b"b");
    assert_eq!(dictionary.key_at(1), b"a");
    assert!(matches!(dictionary.value_at(0), Message::Int64(1)));
    assert!(matches!(dictionary.value_at(1), Message::Int64(2)));
}

#[test]
fn insert_replaces_the_value_of_a_key_and_returns_the_old_one() {
    let mut dictionary = Dictionary::new();
    dictionary.insert(b"a".to_vec(), Message::Int64(1));
    dictionary.insert(b"b".to_vec(), Message::Int64(2));
    let previous = dictionary.insert(b"a".to_vec(), Message::Int64(3));
    assert!(matches!(previous, Some(Message::Int64(1))));
    assert_eq!(dictionary.len(), 2);
    assert_eq!(dictionary.key_at(0), b"a");
    assert!(matches!(dictionary.get(b"a"), Some(Message::Int64(3))));
    assert!(matches!(dictionary.get(b"b"), Some(Message::Int64(2))));
}

#[test]
fn a_terminator_at_the_end_of_a_key_is_not_part_of_the_key() {
    let mut dictionary = Dictionary::new();
    dictionary.insert(b"K\0".to_vec(), Message::Int64(1));
    assert_eq!(dictionary.key_at(0), b"K");
    assert!(matches!(dictionary.get(b"K"), Some(Message::Int64(1))));
    assert!(matches!(dictionary.get(b"K\0"), Some(Message::Int64(1))));
    let previous = dictionary.insert(b"K".to_vec(), Message::Int64(2));
    assert!(matches!(previous, Some(Message::Int64(1))));
    assert_eq!(dictionary.len(), 1);
}
