use xpc_connection::{
    xpc_object_to_message, ConnectionState, Dictionary, EventHandler, MachService, Message,
    MessageError, NativeOp, Poll, TargetQueue, XpcClient, XpcErrorObject, XpcObject,
};

fn connect() -> XpcClient {
    let mut ops = Vec::new();
    XpcClient::connect(b"com.apple.blued", 7, &mut ops)
}

/// What the event handler does with an event of the transport.
fn handle_event(client: &mut XpcClient, event: &XpcObject) {
    assert!(event.is_decodable());
    let mut ops = Vec::new();
    let message = xpc_object_to_message(event, &mut ops);
    client.deliver(message);
}

#[test]
fn connect_asks_for_a_privileged_connection_and_activates_it() {
    let mut ops = Vec::new();
    let client = XpcClient::connect(b"com.apple.blued", 7, &mut ops);
    assert_eq!(
        ops,
        vec![
            NativeOp::CreateMachService(
                7,
                MachService {
                    name: b"com.apple.blued".to_vec(),
                    queue: TargetQueue::Default,
                    flags: 2,
                }
            ),
            NativeOp::SetEventHandler(7, EventHandler::Deliver),
            NativeOp::Resume(7),
        ]
    );
    assert_eq!(client.handle(), 7);
    assert_eq!(client.state(), ConnectionState::Active);
    assert!(client.event_handler_is_running());
}

#[test]
fn connect_takes_a_name_with_its_terminator() {
    let mut ops = Vec::new();
    XpcClient::connect(b"com.apple.blued\0", 7, &mut ops);
    match &ops[0] {
        NativeOp::CreateMachService(7, service) => {
            assert_eq!(service.name, b"com.apple.blued".to_vec())
        }
        other => panic!("Expected the creation of the handle: {:?}", other),
    }
}

#[test]
fn from_raw_attaches_the_handler_once_and_resumes_once() {
    let mut ops = vec![NativeOp::Retain(9)];
    let client = XpcClient::from_raw(9, &mut ops);
    assert_eq!(
        ops,
        vec![
            NativeOp::Retain(9),
            NativeOp::SetEventHandler(9, EventHandler::Deliver),
            NativeOp::Resume(9),
        ]
    );
    assert_eq!(client.state(), ConnectionState::Active);
}

// Cancelling the connection causes the event handler to be called with an
// error message. This happens under normal circumstances, for example if the
// service invalidates the connection.
#[test]
fn event_handler_receives_error_on_close() {
    let mut client = connect();

    handle_event(&mut client, &XpcObject::Error(XpcErrorObject::ConnectionInvalid));

    match client.poll_next() {
        Poll::Ready(None) => {}
        Poll::Ready(Some(message)) => panic!("Expected `None`, but received {:?}", message),
        Poll::Pending => panic!("Expected `None`, but nothing arrived"),
    }
    assert!(!client.event_handler_is_running());
}

#[test]
fn stream_closed_on_drop() {
    let mut client = connect();

    let message = Message::Dictionary({
        let mut dictionary = Dictionary::new();
        dictionary.insert(b"kCBMsgId".to_vec(), Message::Int64(1));
        dictionary.insert(
            b"kCBMsgArgs".to_vec(),
            Message::Dictionary({
                let mut temp = Dictionary::new();
                temp.insert(b"kCBMsgArgAlert".to_vec(), Message::Int64(1));
                temp.insert(b"kCBMsgArgName".to_vec(), Message::String(b"rust".to_vec()));
                temp
            }),
        );
        dictionary
    });

    // Can get data while the channel is open
    assert!(message.is_encodable());
    let mut sent = Vec::new();
    client.send_message(message, &mut sent);
    assert_eq!(sent.len(), 1);

    // The service answers three times before it learns of the cancellation.
    for id in 0..3 {
        handle_event(&mut client, &XpcObject::Int64(id));
    }

    let mut count = 0;
    let mut cancelled = false;

    loop {
        match client.poll_next() {
            Poll::Ready(Some(Message::Error(error))) => {
                panic!("Error: {:?}", error);
            }
            Poll::Ready(Some(message)) => {
                println!("Received message: {:?}", message);
                count += 1;

                if !cancelled {
                    cancelled = true;
                    handle_event(
                        &mut client,
                        &XpcObject::Error(XpcErrorObject::ConnectionInvalid),
                    );
                }
            }
            Poll::Ready(None) => {
                assert!(count < 5);
                assert_eq!(count, 3);
                return;
            }
            Poll::Pending => panic!("The stream did not close"),
        }
    }
}

#[test]
fn events_are_yielded_in_the_order_of_their_delivery() {
    let mut client = connect();
    for n in 0..1000 {
        client.deliver(Message::Int64(n));
    }
    for n in 0..1000 {
        match client.poll_next() {
            Poll::Ready(Some(Message::Int64(value))) => assert_eq!(value, n),
            other => panic!("Expected event {}: {:?}", n, other),
        }
    }
    assert!(matches!(client.poll_next(), Poll::Pending));
}

#[test]
fn delivery_and_polling_may_alternate() {
    let mut client = connect();
    assert!(matches!(client.poll_next(), Poll::Pending));
    client.deliver(Message::Int64(1));
    client.deliver(Message::Int64(2));
    assert!(matches!(client.poll_next(), Poll::Ready(Some(Message::Int64(1)))));
    client.deliver(Message::Int64(3));
    assert!(matches!(client.poll_next(), Poll::Ready(Some(Message::Int64(2)))));
    assert!(matches!(client.poll_next(), Poll::Ready(Some(Message::Int64(3)))));
    assert!(matches!(client.poll_next(), Poll::Pending));
}

#[test]
fn an_interrupted_connection_is_reported_and_stays_open() {
    let mut client = connect();
    handle_event(&mut client, &XpcObject::Error(XpcErrorObject::ConnectionInterrupted));
    handle_event(&mut client, &XpcObject::Int64(4));
    assert!(matches!(
        client.poll_next(),
        Poll::Ready(Some(Message::Error(MessageError::ConnectionInterrupted)))
    ));
    assert!(client.event_handler_is_running());
    assert!(matches!(client.poll_next(), Poll::Ready(Some(Message::Int64(4)))));
}

#[test]
fn an_unrecognized_error_ends_the_stream() {
    let mut client = connect();
    handle_event(&mut client, &XpcObject::Error(XpcErrorObject::Unrecognized));
    assert!(matches!(client.poll_next(), Poll::Ready(None)));
}

#[test]
fn the_end_of_the_stream_is_final() {
    let mut client = connect();
    client.deliver(Message::Int64(1));
    client.deliver(Message::Error(MessageError::ConnectionInvalid));
    client.deliver(Message::Int64(2));
    assert!(matches!(client.poll_next(), Poll::Ready(Some(Message::Int64(1)))));
    assert!(matches!(client.poll_next(), Poll::Ready(None)));
    assert!(matches!(client.poll_next(), Poll::Ready(None)));
    client.deliver(Message::Int64(3));
    assert!(matches!(client.poll_next(), Poll::Ready(None)));
}

#[test]
fn disposal_waits_for_the_final_call_before_it_releases() {
    let mut client = connect();
    let mut ops = Vec::new();
    client.teardown(&mut ops);
    assert_eq!(
        ops,
        vec![
            NativeOp::SetEventHandler(7, EventHandler::Rendezvous),
            NativeOp::Cancel(7),
            NativeOp::AwaitRendezvous(7),
        ]
    );
    assert_eq!(client.state(), ConnectionState::Cancelling);

    // What arrives while the disposal waits is dropped.
    client.deliver(Message::Int64(1));
    assert!(matches!(client.poll_next(), Poll::Ready(None)));

    let mut ops = Vec::new();
    client.handler_exited(&mut ops);
    assert_eq!(ops, vec![NativeOp::Release(7)]);
    assert_eq!(client.state(), ConnectionState::Terminated);
    assert!(!client.event_handler_is_running());

    client.deliver(Message::Int64(2));
    assert!(matches!(client.poll_next(), Poll::Ready(None)));
}

#[test]
fn disposal_after_the_end_of_the_stream_does_not_wait() {
    let mut client = connect();
    client.deliver(Message::Error(MessageError::ConnectionInvalid));
    assert!(matches!(client.poll_next(), Poll::Ready(None)));

    let mut ops = Vec::new();
    client.teardown(&mut ops);
    assert_eq!(ops, vec![NativeOp::Release(7)]);
    assert_eq!(client.state(), ConnectionState::Terminated);
}

#[test]
fn a_second_disposal_asks_nothing() {
    let mut client = connect();
    let mut ops = Vec::new();
    client.teardown(&mut ops);
    client.teardown(&mut ops);
    assert_eq!(ops.len(), 3);
    client.handler_exited(&mut ops);
    assert_eq!(ops.len(), 4);
    client.teardown(&mut ops);
    client.handler_exited(&mut ops);
    assert_eq!(ops.len(), 4);

    let mut ended = connect();
    ended.deliver(Message::Error(MessageError::ConnectionInvalid));
    assert!(matches!(ended.poll_next(), Poll::Ready(None)));
    let mut ops = Vec::new();
    ended.teardown(&mut ops);
    ended.teardown(&mut ops);
    ended.handler_exited(&mut ops);
    assert_eq!(ops, vec![NativeOp::Release(7)]);
}

#[test]
fn the_signal_without_a_disposal_changes_nothing() {
    let mut client = connect();
    let mut ops = Vec::new();
    client.handler_exited(&mut ops);
    assert!(ops.is_empty());
    assert_eq!(client.state(), ConnectionState::Active);
}

#[test]
fn send_message_asks_to_send_the_encoded_message() {
    let client = connect();
    let mut ops = Vec::new();
    client.send_message(Message::String(b"rust\0".to_vec()), &mut ops);
    assert_eq!(ops, vec![NativeOp::SendMessage(7, XpcObject::String(b"rust".to_vec()))]);
}

#[test]
fn clients_are_equal_when_their_handles_are() {
    let mut ops = Vec::new();
    let first = XpcClient::from_raw(1, &mut ops);
    let mut same = XpcClient::from_raw(1, &mut ops);
    let other = XpcClient::from_raw(2, &mut ops);
    same.deliver(Message::Null);
    assert!(first == same);
    assert!(first != other);
}
