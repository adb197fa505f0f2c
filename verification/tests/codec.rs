use xpc_connection::{
    message_to_xpc_object, xpc_object_to_message, xpc_object_to_xpctype, ArrayEntry, Dictionary,
    DictionaryEntry, EventHandler, Message, MessageError, NativeOp, XpcClient, XpcErrorObject,
    XpcListener, XpcObject, XpcType,
};

fn decode(object: &XpcObject) -> Message {
    assert!(object.is_decodable());
    let mut ops = Vec::new();
    let message = xpc_object_to_message(object, &mut ops);
    assert!(ops.is_empty());
    message
}

fn encode(message: Message) -> XpcObject {
    assert!(message.is_encodable());
    message_to_xpc_object(message)
}

#[test]
fn every_object_reports_its_type() {
    let objects = vec![
        (XpcObject::Activity, XpcType::Activity),
        (XpcObject::Array(vec![]), XpcType::Array),
        (XpcObject::Bool(false), XpcType::Bool),
        (XpcObject::Connection(1), XpcType::Connection),
        (XpcObject::Data(vec![]), XpcType::Data),
        (XpcObject::Date(0), XpcType::Date),
        (XpcObject::Dictionary(vec![]), XpcType::Dictionary),
        (XpcObject::Double(0), XpcType::Double),
        (XpcObject::Endpoint, XpcType::Endpoint),
        (XpcObject::Error(XpcErrorObject::ConnectionInvalid), XpcType::Error),
        (XpcObject::Fd(0), XpcType::Fd),
        (XpcObject::Int64(0), XpcType::Int64),
        (XpcObject::Null, XpcType::Null),
        (XpcObject::Shmem, XpcType::Shmem),
        (XpcObject::String(vec![]), XpcType::String),
        (XpcObject::Uint64(0), XpcType::Uint64),
        (XpcObject::Uuid(vec![0; 16]), XpcType::Uuid),
    ];
    for (object, expected) in &objects {
        let (tag, same) = xpc_object_to_xpctype(object);
        assert_eq!(tag, *expected);
        assert_eq!(same, object);
    }
}

#[test]
fn scalars_decode_to_the_variant_of_their_type() {
    assert!(matches!(decode(&XpcObject::Null), Message::Null));
    assert!(matches!(decode(&XpcObject::Bool(true)), Message::Bool(true)));
    assert!(matches!(decode(&XpcObject::Int64(i64::MIN)), Message::Int64(i64::MIN)));
    assert!(matches!(decode(&XpcObject::Uint64(7)), Message::Uint64(7)));
    assert!(matches!(decode(&XpcObject::Fd(5)), Message::Fd(5)));
    match decode(&XpcObject::Double(2.25f64.to_bits())) {
        Message::Double(bits) => assert_eq!(f64::from_bits(bits), 2.25),
        other => panic!("Unexpected message: {:?}", other),
    }
    match decode(&XpcObject::Data(vec![0, 1, 0])) {
        Message::Data(bytes) => assert_eq!(bytes, vec![0, 1, 0]),
        other => panic!("Unexpected message: {:?}", other),
    }
    match decode(&XpcObject::String(b"hello".to_vec())) {
        Message::String(bytes) => assert_eq!(bytes, b"hello".to_vec()),
        other => panic!("Unexpected message: {:?}", other),
    }
    match decode(&XpcObject::Uuid((1..=16).collect())) {
        Message::Uuid(bytes) => assert_eq!(bytes, (1..=16).collect::<Vec<u8>>()),
        other => panic!("Unexpected message: {:?}", other),
    }
}

#[test]
fn a_date_before_the_epoch_survives() {
    assert!(matches!(decode(&XpcObject::Date(-1)), Message::Date(-1)));
    assert!(matches!(decode(&XpcObject::Date(i64::MIN)), Message::Date(i64::MIN)));
    assert_eq!(encode(Message::Date(-86_400_000_000_000)), XpcObject::Date(-86_400_000_000_000));
    assert_eq!(encode(Message::Date(i64::MAX)), XpcObject::Date(i64::MAX));
}

#[test]
fn error_objects_decode_to_the_two_signals() {
    assert!(matches!(
        decode(&XpcObject::Error(XpcErrorObject::ConnectionInterrupted)),
        Message::Error(MessageError::ConnectionInterrupted)
    ));
    assert!(matches!(
        decode(&XpcObject::Error(XpcErrorObject::ConnectionInvalid)),
        Message::Error(MessageError::ConnectionInvalid)
    ));
    assert!(matches!(
        decode(&XpcObject::Error(XpcErrorObject::Unrecognized)),
        Message::Error(MessageError::ConnectionInvalid)
    ));
}

#[test]
fn array_elements_are_placed_at_the_reported_index() {
    let object = XpcObject::Array(vec![
        ArrayEntry { index: 2, value: XpcObject::Int64(30) },
        ArrayEntry { index: 0, value: XpcObject::Int64(10) },
        ArrayEntry { index: 1, value: XpcObject::Int64(20) },
    ]);
    match decode(&object) {
        Message::Array(items) => {
            assert_eq!(items.len(), 3);
            assert!(matches!(items[0], Message::Int64(10)));
            assert!(matches!(items[1], Message::Int64(20)));
            assert!(matches!(items[2], Message::Int64(30)));
        }
        other => panic!("Unexpected message: {:?}", other),
    }
}

#[test]
fn an_empty_array_and_an_empty_dictionary_decode() {
    match decode(&XpcObject::Array(vec![])) {
        Message::Array(items) => assert!(items.is_empty()),
        other => panic!("Unexpected message: {:?}", other),
    }
    match decode(&XpcObject::Dictionary(vec![])) {
        Message::Dictionary(d) => assert_eq!(d.len(), 0),
        other => panic!("Unexpected message: {:?}", other),
    }
}

#[test]
fn dictionary_entries_are_found_by_key() {
    let object = XpcObject::Dictionary(vec![
        DictionaryEntry { key: b"b".to_vec(), value: XpcObject::Int64(2) },
        DictionaryEntry { key: b"a".to_vec(), value: XpcObject::Bool(true) },
    ]);
    match decode(&object) {
        Message::Dictionary(d) => {
            assert_eq!(d.len(), 2);
            assert!(matches!(d.get(b"a"), Some(Message::Bool(true))));
            assert!(matches!(d.get(b"b"), Some(Message::Int64(2))));
            assert!(d.get(b"c").is_none());
        }
        other => panic!("Unexpected message: {:?}", other),
    }
}

#[test]
fn a_connection_object_decodes_to_an_activated_client() {
    let object = XpcObject::Array(vec![
        ArrayEntry { index: 1, value: XpcObject::Connection(8) },
        ArrayEntry { index: 0, value: XpcObject::Connection(9) },
    ]);
    assert!(object.is_decodable());
    let mut ops = vec![NativeOp::Resume(1)];
    let message = xpc_object_to_message(&object, &mut ops);
    assert_eq!(
        ops,
        vec![
            NativeOp::Resume(1),
            NativeOp::Retain(8),
            NativeOp::SetEventHandler(8, EventHandler::Deliver),
            NativeOp::Resume(8),
            NativeOp::Retain(9),
            NativeOp::SetEventHandler(9, EventHandler::Deliver),
            NativeOp::Resume(9),
        ]
    );
    match message {
        Message::Array(items) => {
            match &items[0] {
                Message::Client(client) => {
                    assert_eq!(client.handle(), 9);
                    assert!(client.is_active());
                    assert!(client.event_handler_is_running());
                }
                other => panic!("Unexpected message: {:?}", other),
            }
            match &items[1] {
                Message::Client(client) => assert_eq!(client.handle(), 8),
                other => panic!("Unexpected message: {:?}", other),
            }
        }
        other => panic!("Unexpected message: {:?}", other),
    }
}

#[test]
fn objects_that_cannot_be_decoded_are_told() {
    assert!(!XpcObject::Activity.is_decodable());
    assert!(!XpcObject::Endpoint.is_decodable());
    assert!(!XpcObject::Shmem.is_decodable());
    assert!(!XpcObject::String(b"a\0".to_vec()).is_decodable());
    assert!(!XpcObject::Uuid(vec![0; 15]).is_decodable());
    // An index out of range, an index twice, a position left out.
    assert!(!XpcObject::Array(vec![ArrayEntry { index: 1, value: XpcObject::Null }])
        .is_decodable());
    assert!(!XpcObject::Array(vec![
        ArrayEntry { index: 0, value: XpcObject::Null },
        ArrayEntry { index: 0, value: XpcObject::Null },
    ])
    .is_decodable());
    assert!(!XpcObject::Array(vec![ArrayEntry { index: 0, value: XpcObject::Shmem }])
        .is_decodable());
    assert!(!XpcObject::Dictionary(vec![
        DictionaryEntry { key: b"k".to_vec(), value: XpcObject::Null },
        DictionaryEntry { key: b"k".to_vec(), value: XpcObject::Null },
    ])
    .is_decodable());
    assert!(!XpcObject::Dictionary(vec![DictionaryEntry {
        key: b"k\0".to_vec(),
        value: XpcObject::Null
    }])
    .is_decodable());
    assert!(!XpcObject::Dictionary(vec![DictionaryEntry {
        key: b"k".to_vec(),
        value: XpcObject::Endpoint
    }])
    .is_decodable());
    assert!(XpcObject::Array(vec![
        ArrayEntry { index: 1, value: XpcObject::Null },
        ArrayEntry { index: 0, value: XpcObject::Null },
    ])
    .is_decodable());
}

#[test]
fn every_variant_encodes_to_the_object_of_its_type() {
    assert_eq!(encode(Message::Null), XpcObject::Null);
    assert_eq!(encode(Message::Bool(true)), XpcObject::Bool(true));
    assert_eq!(encode(Message::Int64(-1)), XpcObject::Int64(-1));
    assert_eq!(encode(Message::Uint64(1)), XpcObject::Uint64(1));
    assert_eq!(
        encode(Message::Double((-0.5f64).to_bits())),
        XpcObject::Double((-0.5f64).to_bits())
    );
    assert_eq!(encode(Message::Fd(4)), XpcObject::Fd(4));
    assert_eq!(encode(Message::Data(vec![9, 0, 9])), XpcObject::Data(vec![9, 0, 9]));
    assert_eq!(encode(Message::Uuid(vec![7; 16])), XpcObject::Uuid(vec![7; 16]));
    assert_eq!(encode(Message::String(b"V".to_vec())), XpcObject::String(b"V".to_vec()));
    assert_eq!(
        encode(Message::Array(vec![Message::Int64(1), Message::Null])),
        XpcObject::Array(vec![
            ArrayEntry { index: 0, value: XpcObject::Int64(1) },
            ArrayEntry { index: 1, value: XpcObject::Null },
        ])
    );
    let mut dictionary = Dictionary::new();
    dictionary.insert(b"K".to_vec(), Message::Int64(1));
    dictionary.insert(b"L".to_vec(), Message::String(b"V".to_vec()));
    assert_eq!(
        encode(Message::Dictionary(dictionary)),
        XpcObject::Dictionary(vec![
            DictionaryEntry { key: b"K".to_vec(), value: XpcObject::Int64(1) },
            DictionaryEntry { key: b"L".to_vec(), value: XpcObject::String(b"V".to_vec()) },
        ])
    );
}

#[test]
fn text_is_encoded_without_its_terminator() {
    assert_eq!(encode(Message::String(b"rust\0".to_vec())), XpcObject::String(b"rust".to_vec()));
    assert_eq!(encode(Message::String(b"\0".to_vec())), XpcObject::String(vec![]));
    assert_eq!(encode(Message::String(vec![])), XpcObject::String(vec![]));
}

#[test]
fn connections_encode_to_their_handle() {
    let mut ops = Vec::new();
    let client = XpcClient::from_raw(11, &mut ops);
    assert_eq!(encode(Message::Client(client)), XpcObject::Connection(11));
    let listener = XpcListener::from_raw(12, None, false, &mut ops);
    assert_eq!(encode(Message::Listener(listener)), XpcObject::Connection(12));
}

#[test]
fn a_listener_comes_back_as_a_client() {
    let mut ops = Vec::new();
    let listener = XpcListener::from_raw(12, None, false, &mut ops);
    let object = encode(Message::Listener(listener));
    let mut ops = Vec::new();
    match xpc_object_to_message(&object, &mut ops) {
        Message::Client(client) => assert_eq!(client.handle(), 12),
        other => panic!("Unexpected message: {:?}", other),
    }
}

#[test]
fn messages_that_cannot_be_sent_are_told() {
    assert!(!Message::Error(MessageError::ConnectionInterrupted).is_encodable());
    assert!(!Message::Error(MessageError::ConnectionInvalid).is_encodable());
    assert!(!Message::Array(vec![Message::Null, Message::Error(MessageError::ConnectionInvalid)])
        .is_encodable());
    assert!(!Message::String(b"a\0b".to_vec()).is_encodable());
    assert!(!Message::String(b"a\0\0".to_vec()).is_encodable());
    assert!(!Message::Uuid(vec![0; 17]).is_encodable());
    let mut dictionary = Dictionary::new();
    dictionary.insert(b"a\0b".to_vec(), Message::Null);
    assert!(!Message::Dictionary(dictionary).is_encodable());
    let mut dictionary = Dictionary::new();
    dictionary.insert(b"a".to_vec(), Message::Error(MessageError::ConnectionInvalid));
    assert!(!Message::Dictionary(dictionary).is_encodable());
    assert!(Message::String(b"a\0".to_vec()).is_encodable());
    assert!(Message::Data(vec![0, 0]).is_encodable());
}

#[test]
fn a_nested_message_survives_the_codec() {
    let mut inner = Dictionary::new();
    inner.insert(b"list".to_vec(), Message::Array(vec![Message::Uint64(1), Message::Null]));
    let mut outer = Dictionary::new();
    outer.insert(b"inner".to_vec(), Message::Dictionary(inner));
    outer.insert(b"id".to_vec(), Message::Uuid((1..=16).collect()));
    let object = encode(Message::Dictionary(outer));
    match decode(&object) {
        Message::Dictionary(outer) => {
            assert_eq!(outer.len(), 2);
            match outer.get(b"inner") {
                Some(Message::Dictionary(inner)) => match inner.get(b"list") {
                    Some(Message::Array(items)) => {
                        assert!(matches!(items[0], Message::Uint64(1)));
                        assert!(matches!(items[1], Message::Null));
                    }
                    other => panic!("Unexpected message: {:?}", other),
                },
                other => panic!("Unexpected message: {:?}", other),
            }
            match outer.get(b"id") {
                Some(Message::Uuid(bytes)) => assert_eq!(*bytes, (1..=16).collect::<Vec<u8>>()),
                other => panic!("Unexpected message: {:?}", other),
            }
        }
        other => panic!("Unexpected message: {:?}", other),
    }
}

#[test]
fn encoding_copies_the_bytes() {
    let bytes = vec![1, 2, 3];
    let object = encode(Message::Data(bytes.clone()));
    drop(bytes);
    assert_eq!(object, XpcObject::Data(vec![1, 2, 3]));
}
