use xpc_connection::{
    xpc_object_to_message, Dictionary, Message, NativeOp, Poll, XpcClient, XpcObject,
};

/// Connects a client to a peer that sends back every object it is sent.
fn connect_to_echo() -> XpcClient {
    let mut ops = Vec::new();
    let client = XpcClient::connect(b"com.example.echo", 1, &mut ops);
    assert_eq!(ops.len(), 3);
    client
}

/// Sends `message`, lets the peer echo it, and returns what the client's
/// stream yields next.
fn send_and_receive(con: &mut XpcClient, message: Message) -> Option<Message> {
    assert!(message.is_encodable());
    let mut ops = Vec::new();
    con.send_message(message, &mut ops);
    let object: XpcObject = match ops.pop() {
        Some(NativeOp::SendMessage(handle, object)) => {
            assert_eq!(handle, con.handle());
            object
        }
        other => panic!("Expected a message to be sent: {:?}", other),
    };
    assert!(ops.is_empty());
    assert!(object.is_decodable());
    let mut activation = Vec::new();
    let reply = xpc_object_to_message(&object, &mut activation);
    con.deliver(reply);
    match con.poll_next() {
        Poll::Ready(item) => item,
        Poll::Pending => panic!("Didn't receive a response"),
    }
}

#[test]
fn send_and_receive_int64() {
    let mut con = connect_to_echo();

    let mut output = Dictionary::new();
    let key = b"K".to_vec();
    output.insert(key.clone(), Message::Int64(1));

    let message = send_and_receive(&mut con, Message::Dictionary(output));
    if let Some(Message::Dictionary(d)) = message {
        let input = d.get(&key);
        if let Some(Message::Int64(1)) = input {
            return;
        }

        panic!("Received unexpected value: {:?}", input);
    }

    panic!("Didn't receive the container dictionary: {:?}", message);
}

#[test]
fn send_and_receive_string() {
    for _ in 0..3 {
        let mut con = connect_to_echo();

        let mut output = Dictionary::new();
        let key = b"K".to_vec();
        let value = b"V".to_vec();
        output.insert(key.clone(), Message::String(value.clone()));

        match send_and_receive(&mut con, Message::Dictionary(output)) {
            Some(Message::Dictionary(d)) => {
                let input = d.get(&key);
                if let Some(Message::String(s)) = input {
                    assert_eq!(s, &value);
                    continue;
                }
                panic!("Received unexpected value: {:?}", input);
            }
            Some(message) => panic!("Didn't receive the container dictionary: {:?}", message),
            None => panic!("Didn't receive a response"),
        }
    }
}

#[test]
fn send_and_receive_dictionary() {
    let mut con = connect_to_echo();

    let mut output = Dictionary::new();
    let outer_key = b"O".to_vec();
    let inner_key = b"I".to_vec();
    output.insert(
        outer_key.clone(),
        Message::Dictionary({
            let mut inner = Dictionary::new();
            inner.insert(inner_key.clone(), Message::Int64(1));
            inner
        }),
    );

    let message = send_and_receive(&mut con, Message::Dictionary(output));
    if let Some(Message::Dictionary(outer_hashmap)) = message {
        let inner_dictionary = outer_hashmap.get(&outer_key);
        if let Some(Message::Dictionary(inner_hashmap)) = inner_dictionary {
            if let Some(Message::Int64(1)) = inner_hashmap.get(&inner_key) {
                return;
            }

            panic!("Received unexpected value: {:?}", inner_hashmap);
        }

        panic!("Received unexpected value: {:?}", inner_dictionary);
    }

    panic!("Didn't receive the container dictionary: {:?}", message);
}

#[test]
fn send_and_receive_array() {
    let mut con = connect_to_echo();

    let mut output = Dictionary::new();
    let key = b"K".to_vec();
    output.insert(key.clone(), Message::Array(vec![Message::Int64(1)]));

    let message = send_and_receive(&mut con, Message::Dictionary(output));
    if let Some(Message::Dictionary(d)) = message {
        let input = d.get(&key);
        if let Some(Message::Array(a)) = input {
            if let Message::Int64(1) = a[0] {
                return;
            }

            panic!("Received unexpected value: {:?}", a);
        }

        panic!("Received unexpected value: {:?}", input);
    }

    panic!("Didn't receive the container dictionary: {:?}", message);
}

#[test]
fn send_and_receive_data() {
    let mut con = connect_to_echo();

    let key = b"K".to_vec();
    let value = vec![0, 1];
    let mut output = Dictionary::new();
    output.insert(key.clone(), Message::Data(value.clone()));

    let message = send_and_receive(&mut con, Message::Dictionary(output));
    if let Some(Message::Dictionary(d)) = message {
        let input = d.get(&key);
        if let Some(Message::Data(v)) = input {
            assert_eq!(*v, value);
            return;
        }

        panic!("Received unexpected value: {:?}", input);
    }

    panic!("Didn't receive the container dictionary: {:?}", message);
}

#[test]
fn send_and_receive_uuid() {
    let mut con = connect_to_echo();

    let key = b"K".to_vec();
    let value = vec![1, 2, 3, 4, 5, 6, 7, 8, 9, 10, 11, 12, 13, 14, 15, 16];

    let mut output = Dictionary::new();
    output.insert(key.clone(), Message::Uuid(value.clone()));

    let message = send_and_receive(&mut con, Message::Dictionary(output));
    if let Some(Message::Dictionary(d)) = message {
        let input = d.get(&key);
        if let Some(Message::Uuid(v)) = input {
            assert_eq!(*v, value);
            return;
        }

        panic!("Received unexpected value: {:?}", input);
    }

    panic!("Didn't receive the container dictionary: {:?}", message);
}

#[test]
fn send_and_receive_every_scalar() {
    let mut con = connect_to_echo();
    let sent = vec![
        Message::Null,
        Message::Bool(true),
        Message::Int64(-5),
        Message::Uint64(u64::MAX),
        Message::Double(1.5f64.to_bits()),
        Message::Date(-1_000_000_000),
        Message::Fd(3),
    ];
    let message = send_and_receive(&mut con, Message::Array(sent));
    match message {
        Some(Message::Array(items)) => {
            assert_eq!(items.len(), 7);
            assert!(matches!(items[0], Message::Null));
            assert!(matches!(items[1], Message::Bool(true)));
            assert!(matches!(items[2], Message::Int64(-5)));
            assert!(matches!(items[3], Message::Uint64(u64::MAX)));
            match items[4] {
                Message::Double(bits) => assert_eq!(f64::from_bits(bits), 1.5),
                ref other => panic!("Received unexpected value: {:?}", other),
            }
            assert!(matches!(items[5], Message::Date(-1_000_000_000)));
            assert!(matches!(items[6], Message::Fd(3)));
        }
        other => panic!("Didn't receive the array: {:?}", other),
    }
}

#[test]
fn text_arrives_without_its_terminator() {
    let mut con = connect_to_echo();
    let mut output = Dictionary::new();
    output.insert(b"kCBMsgArgName\0".to_vec(), Message::String(b"rust\0".to_vec()));
    match send_and_receive(&mut con, Message::Dictionary(output)) {
        Some(Message::Dictionary(d)) => {
            assert_eq!(d.len(), 1);
            assert_eq!(d.key_at(0), b"kCBMsgArgName");
            match d.get(b"kCBMsgArgName") {
                Some(Message::String(s)) => assert_eq!(s.as_slice(), b"rust"),
                other => panic!("Received unexpected value: {:?}", other),
            }
        }
        other => panic!("Didn't receive the container dictionary: {:?}", other),
    }
}
