use xpc_connection::{
    xpc_object_to_message, ConnectionState, Dictionary, MachService, Message, NativeOp, Poll,
    TargetQueue, XpcConnection, XpcObject,
};

fn alert() -> Message {
    Message::Dictionary({
        let mut dictionary = Dictionary::new();
        dictionary.insert("kCBMsgId\0".as_bytes().to_vec(), Message::Int64(1));
        dictionary.insert(
            "kCBMsgArgs\0".as_bytes().to_vec(),
            Message::Dictionary({
                let mut temp = Dictionary::new();
                temp.insert("kCBMsgArgAlert\0".as_bytes().to_vec(), Message::Int64(1));
                temp.insert(
                    "kCBMsgArgName\0".as_bytes().to_vec(),
                    Message::String("rust\0".as_bytes().to_vec()),
                );
                temp
            }),
        );
        dictionary
    })
}

#[test]
fn integration_test_it_connects_to_bleud() {
    let mut xpc_connection = XpcConnection::new("com.apple.blued\0");
    assert!(xpc_connection.has_valid_name());

    let mut ops = Vec::new();
    xpc_connection.connect(1, &mut ops);
    assert_eq!(
        ops[0],
        NativeOp::CreateMachService(
            1,
            MachService {
                name: b"com.apple.blued".to_vec(),
                queue: TargetQueue::Labelled(b"com.apple.blued".to_vec()),
                flags: 2,
            }
        )
    );
    assert!(xpc_connection.is_connected());

    // Can get data while the channel is open
    let message = alert();
    assert!(message.is_encodable());
    let mut sent = Vec::new();
    xpc_connection.send_message(message, &mut sent);
    let object: XpcObject = match sent.pop() {
        Some(NativeOp::SendMessage(1, object)) => object,
        other => panic!("Expected a message to be sent: {:?}", other),
    };
    // The daemon answers the alert.
    let mut activation = Vec::new();
    xpc_connection.deliver(xpc_object_to_message(&object, &mut activation));
    match xpc_connection.poll_next() {
        Poll::Ready(Some(data)) => println!("Got data! {:?}", data),
        other => panic!("Expected data: {:?}", other),
    }

    // Can't get data when the channel is closed by dropping `xpc_connection`
    let mut sent = Vec::new();
    xpc_connection.send_message(alert(), &mut sent);
    let mut disposal = Vec::new();
    xpc_connection.teardown(&mut disposal);
    xpc_connection.handler_exited(&mut disposal);
    assert!(!xpc_connection.is_connected());
    assert!(matches!(xpc_connection.poll_next(), Poll::Ready(None)));
    assert_eq!(disposal.last(), Some(&NativeOp::Release(1)));
    let _ = ConnectionState::Terminated;
}
