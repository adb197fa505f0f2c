//! A client connection: one native handle and the queue of its events.

use crate::codec::{encode_spec, message_to_xpc_object};
use crate::message::{Message, MessageError};
use crate::text::{copy_text_content, is_text, text_content};
use crate::transport::{
    cancel_and_wait, cancel_and_wait_for_event_handler, ops_view, push_op, ConnectionState,
    EventHandler, MachService, NativeOp, OpView, Poll, QueueView, ServiceView, TargetQueue,
    XPC_CONNECTION_MACH_SERVICE_PRIVILEGED,
};
use std::collections::VecDeque;
use vstd::prelude::*;
use vstd::std_specs::cmp::PartialEqSpecImpl;
use vstd::std_specs::vecdeque::VecDequeAdditionalSpecFns;

verus! {

/// The state of a client connection.
pub struct ClientView {
    /// The identity of the native handle.
    pub handle: u64,
    pub state: ConnectionState,
    /// Whether a call of the event handler may still be under way or to come.
    pub event_handler_is_running: bool,
    /// The events that were delivered and not yet taken, oldest first.
    pub queue: Seq<Message>,
}

/// The events that a consumer is handed from a queue: those in front of the
/// first signal that the connection is invalid.
pub open spec fn events_before_end(queue: Seq<Message>) -> Seq<Message>
    decreases queue.len(),
{
    if queue.len() == 0 || queue[0] == Message::Error(MessageError::ConnectionInvalid) {
        Seq::empty()
    } else {
        seq![queue[0]] + events_before_end(queue.drop_first())
    }
}

/// Whether the signal that the connection is invalid is among the events.
pub open spec fn holds_end(queue: Seq<Message>) -> bool {
    exists|i: int|
        0 <= i < queue.len() && #[trigger] queue[i] == Message::Error(
            MessageError::ConnectionInvalid,
        )
}

impl ClientView {
    /// A connection on `handle` right after its activation: the handler is
    /// attached, and no event has arrived.
    pub open spec fn activated(handle: u64) -> ClientView {
        ClientView {
            handle,
            state: ConnectionState::Active,
            event_handler_is_running: true,
            queue: Seq::empty(),
        }
    }

    /// Whether the state is one that a connection can be in: it was
    /// activated, and once it is terminated no handler runs and no event
    /// waits.
    pub open spec fn wf(self) -> bool {
        &&& self.state != ConnectionState::Created
        &&& self.state == ConnectionState::Terminated ==> !self.event_handler_is_running
            && self.queue.len() == 0
    }

    /// Whether events are taken in and handed on: the connection is active
    /// and has not observed its end.
    pub open spec fn is_open(self) -> bool {
        self.state == ConnectionState::Active && self.event_handler_is_running
    }

    /// The connection after its event handler has decoded `message`. The
    /// message is queued behind those that wait; on a connection that is not
    /// open it is dropped.
    pub open spec fn deliver(self, message: Message) -> ClientView {
        if self.is_open() {
            ClientView { queue: self.queue.push(message), ..self }
        } else {
            self
        }
    }

    /// The connection after each of `messages` was delivered in turn.
    pub open spec fn deliver_all(self, messages: Seq<Message>) -> ClientView
        decreases messages.len(),
    {
        if messages.len() == 0 {
            self
        } else {
            self.deliver_all(messages.drop_last()).deliver(messages.last())
        }
    }

    /// The connection after its consumer asked for the next event, and what
    /// the consumer was given. The oldest event is handed over; the signal
    /// that the connection is invalid is not handed over but ends the stream,
    /// for good.
    pub open spec fn poll(self) -> (ClientView, Poll<Option<Message>>) {
        if !self.is_open() {
            (self, Poll::Ready(None))
        } else if self.queue.len() == 0 {
            (self, Poll::Pending)
        } else if self.queue[0] == Message::Error(MessageError::ConnectionInvalid) {
            (
                ClientView {
                    queue: self.queue.drop_first(),
                    event_handler_is_running: false,
                    ..self
                },
                Poll::Ready(None),
            )
        } else {
            (
                ClientView { queue: self.queue.drop_first(), ..self },
                Poll::Ready(Some(self.queue[0])),
            )
        }
    }

    /// The connection after `count` requests of its consumer in a row.
    pub open spec fn after_polls(self, count: nat) -> ClientView
        decreases count,
    {
        if count == 0 {
            self
        } else {
            self.poll().0.after_polls((count - 1) as nat)
        }
    }

    /// What the consumer is given by `count` requests in a row.
    pub open spec fn poll_results(self, count: nat) -> Seq<Poll<Option<Message>>>
        decreases count,
    {
        if count == 0 {
            Seq::empty()
        } else {
            seq![self.poll().1] + self.poll().0.poll_results((count - 1) as nat)
        }
    }

    /// The connection after its disposal was asked for, and what that asks
    /// of the transport. While the handler may run, a handler that only
    /// signals is put in its place, the handle cancelled and the signal
    /// awaited. Once the handler has observed the end of the connection no
    /// further call will come, so nothing is awaited and the handle is
    /// released at once. A second request asks nothing.
    pub open spec fn teardown(self) -> (ClientView, Seq<OpView>) {
        if self.state == ConnectionState::Active {
            if self.event_handler_is_running {
                (
                    ClientView { state: ConnectionState::Cancelling, ..self },
                    cancel_and_wait(self.handle),
                )
            } else {
                (
                    ClientView { state: ConnectionState::Terminated, queue: Seq::empty(), ..self },
                    seq![OpView::Release(self.handle)],
                )
            }
        } else {
            (self, Seq::empty())
        }
    }

    /// The connection after the awaited signal came, and what that asks of
    /// the transport: the reference to the handle is released.
    pub open spec fn handler_exited(self) -> (ClientView, Seq<OpView>) {
        if self.state == ConnectionState::Cancelling {
            (
                ClientView {
                    state: ConnectionState::Terminated,
                    event_handler_is_running: false,
                    queue: Seq::empty(),
                    ..self
                },
                seq![OpView::Release(self.handle)],
            )
        } else {
            (self, Seq::empty())
        }
    }

    /// The connection after the listener that accepted it turned it away,
    /// and what that asks of the transport: the handle is cancelled and, as
    /// nobody will ever dispose of the connection, released without waiting.
    /// Only an active connection can be turned away.
    pub open spec fn reject(self) -> (ClientView, Seq<OpView>) {
        if self.state == ConnectionState::Active {
            (
                ClientView {
                    state: ConnectionState::Terminated,
                    event_handler_is_running: false,
                    queue: Seq::empty(),
                    ..self
                },
                seq![OpView::Cancel(self.handle), OpView::Release(self.handle)],
            )
        } else {
            (self, Seq::empty())
        }
    }
}

/// What connecting to the mach service `name` asks of the transport: create
/// the handle of a connection in the privileged domain, on the default queue,
/// and activate the connection.
pub open spec fn connection_of_client(name: Seq<u8>, handle: u64) -> Seq<OpView> {
    seq![
        OpView::CreateMachService(
            handle,
            ServiceView {
                name: text_content(name),
                queue: QueueView::Default,
                flags: XPC_CONNECTION_MACH_SERVICE_PRIVILEGED,
            },
        ),
    ] + activation_of_client(handle)
}

/// What activating a connection asks of the transport: attach the handler
/// that delivers events, then resume the handle.
pub open spec fn activation_of_client(handle: u64) -> Seq<OpView> {
    seq![OpView::SetEventHandler(handle, EventHandler::Deliver), OpView::Resume(handle)]
}

/// A client connection.
#[derive(Debug)]
pub struct XpcClient {
    connection: u64,
    state: ConnectionState,
    event_handler_is_running: bool,
    receiver: VecDeque<Message>,
}

impl View for XpcClient {
    type V = ClientView;

    closed spec fn view(&self) -> ClientView {
        ClientView {
            handle: self.connection,
            state: self.state,
            event_handler_is_running: self.event_handler_is_running,
            queue: self.receiver@,
        }
    }
}

impl XpcClient {
    /// Wraps a native handle in a connection and activates it: the handler
    /// that delivers the handle's events is attached and the handle resumed.
    pub fn from_raw(connection: u64, ops: &mut Vec<NativeOp>) -> (client: XpcClient)
        ensures
            client@ == ClientView::activated(connection),
            client.wf(),
            ops_view(final(ops)@) == ops_view(old(ops)@) + activation_of_client(connection),
    {
        push_op(ops, NativeOp::SetEventHandler(connection, EventHandler::Deliver));
        push_op(ops, NativeOp::Resume(connection));
        let client = XpcClient {
            connection,
            state: ConnectionState::Active,
            event_handler_is_running: true,
            receiver: VecDeque::new(),
        };
        assert(ops_view(ops@) =~= ops_view(old(ops)@) + activation_of_client(connection));
        client
    }

    /// The identity of the native handle.
    pub fn handle(&self) -> (handle: u64)
        ensures
            handle == self@.handle,
    {
        self.connection
    }

    /// Where the connection stands in its life.
    pub fn state(&self) -> (state: ConnectionState)
        ensures
            state == self@.state,
    {
        self.state
    }

    /// Whether a call of the event handler may still be under way or to
    /// come.
    pub fn event_handler_is_running(&self) -> (running: bool)
        ensures
            running == self@.event_handler_is_running,
    {
        self.event_handler_is_running
    }

    /// Whether the connection is active: neither cancelled nor released.
    pub fn is_active(&self) -> (active: bool)
        ensures
            active == (self@.state == ConnectionState::Active),
    {
        match self.state {
            ConnectionState::Active => true,
            _ => false,
        }
    }

    /// Whether each event that waits is well formed.
    pub closed spec fn events_wf(&self) -> bool
        decreases self, 0int,
    {
        forall|i: int| 0 <= i < self.receiver.len() ==> (#[trigger] self.receiver[i]).wf()
    }

    /// Whether each event that waits is well formed and the state is one
    /// that a connection can be in.
    pub open spec fn wf(&self) -> bool
        decreases self, 1int,
    {
        self@.wf() && self.events_wf()
    }

    /// Connects to the mach service `name` in the privileged domain. The
    /// transport is asked to create the handle, to be known as `connection`,
    /// and the connection is activated. One terminator byte at the end of
    /// `name` is not part of the name.
    pub fn connect(name: &[u8], connection: u64, ops: &mut Vec<NativeOp>) -> (client: XpcClient)
        requires
            is_text(name@),
        ensures
            client@ == ClientView::activated(connection),
            client.wf(),
            ops_view(final(ops)@) == ops_view(old(ops)@) + connection_of_client(name@, connection),
    {
        let service = MachService {
            name: copy_text_content(name),
            queue: TargetQueue::Default,
            flags: XPC_CONNECTION_MACH_SERVICE_PRIVILEGED,
        };
        push_op(ops, NativeOp::CreateMachService(connection, service));
        let client = XpcClient::from_raw(connection, ops);
        assert(ops_view(ops@) =~= ops_view(old(ops)@) + connection_of_client(name@, connection));
        client
    }

    /// Sends a message over the connection: the transport is asked to send
    /// the object that the message encodes to, and to release it. Whether
    /// the message arrives is not reported here; a connection that cannot
    /// be established shows later as an event.
    pub fn send_message(&self, message: Message, ops: &mut Vec<NativeOp>)
        requires
            self@.state == ConnectionState::Active,
            message.wf(),
            message@.encodable(),
        ensures
            ops_view(final(ops)@) == ops_view(old(ops)@).push(
                OpView::SendMessage(self@.handle, encode_spec(message@)),
            ),
            final(ops)@.last() matches NativeOp::SendMessage(_, object) && object.decodable()
                && object.in_order(),
    {
        let object = message_to_xpc_object(message);
        push_op(ops, NativeOp::SendMessage(self.connection, object));
    }

    /// Takes in an event that the handler of the connection has decoded.
    pub fn deliver(&mut self, message: Message)
        requires
            old(self).wf(),
            message.wf(),
        ensures
            final(self).wf(),
            final(self)@ == old(self)@.deliver(message),
    {
        if self.event_handler_is_running {
            match self.state {
                ConnectionState::Active => {
                    self.receiver.push_back(message);
                },
                _ => {},
            }
        }
    }

    /// Hands the next event to the consumer of the connection.
    pub fn poll_next(&mut self) -> (polled: Poll<Option<Message>>)
        requires
            old(self).wf(),
        ensures
            final(self).wf(),
            (final(self)@, polled) == old(self)@.poll(),
            polled matches Poll::Ready(Some(message)) ==> message.wf(),
    {
        if !self.event_handler_is_running {
            return Poll::Ready(None);
        }
        match self.state {
            ConnectionState::Active => {},
            _ => {
                return Poll::Ready(None);
            },
        }
        match self.receiver.pop_front() {
            None => Poll::Pending,
            Some(Message::Error(MessageError::ConnectionInvalid)) => {
                self.event_handler_is_running = false;
                Poll::Ready(None)
            },
            Some(message) => {
                assert(message == old(self).receiver[0]);
                Poll::Ready(Some(message))
            },
        }
    }

    /// Asks for the disposal of the connection.
    pub fn teardown(&mut self, ops: &mut Vec<NativeOp>)
        requires
            old(self).wf(),
        ensures
            final(self).wf(),
            final(self)@ == old(self)@.teardown().0,
            ops_view(final(ops)@) == ops_view(old(ops)@) + old(self)@.teardown().1,
    {
        match self.state {
            ConnectionState::Active => {
                if self.event_handler_is_running {
                    cancel_and_wait_for_event_handler(self.connection, ops);
                    self.state = ConnectionState::Cancelling;
                } else {
                    push_op(ops, NativeOp::Release(self.connection));
                    self.state = ConnectionState::Terminated;
                    self.receiver.clear();
                }
            },
            _ => {},
        }
        assert(ops_view(ops@) =~= ops_view(old(ops)@) + old(self)@.teardown().1);
    }

    /// Reports that the signal awaited in the disposal came: the final call
    /// of the event handler is over.
    pub fn handler_exited(&mut self, ops: &mut Vec<NativeOp>)
        requires
            old(self).wf(),
        ensures
            final(self).wf(),
            final(self)@ == old(self)@.handler_exited().0,
            ops_view(final(ops)@) == ops_view(old(ops)@) + old(self)@.handler_exited().1,
    {
        match self.state {
            ConnectionState::Cancelling => {
                push_op(ops, NativeOp::Release(self.connection));
                self.state = ConnectionState::Terminated;
                self.event_handler_is_running = false;
                self.receiver.clear();
            },
            _ => {},
        }
        assert(ops_view(ops@) =~= ops_view(old(ops)@) + old(self)@.handler_exited().1);
    }

    /// Turns away a connection that a listener accepted and found wanting.
    pub(crate) fn reject(&mut self, ops: &mut Vec<NativeOp>)
        requires
            old(self).wf(),
        ensures
            final(self).wf(),
            final(self)@ == old(self)@.reject().0,
            ops_view(final(ops)@) == ops_view(old(ops)@) + old(self)@.reject().1,
    {
        match self.state {
            ConnectionState::Active => {
                push_op(ops, NativeOp::Cancel(self.connection));
                self.event_handler_is_running = false;
                push_op(ops, NativeOp::Release(self.connection));
                self.state = ConnectionState::Terminated;
                self.receiver.clear();
            },
            _ => {},
        }
        assert(ops_view(ops@) =~= ops_view(old(ops)@) + old(self)@.reject().1);
    }
}

/// Two clients are equal if they wrap the same native handle.
impl PartialEq for XpcClient {
    fn eq(&self, other: &Self) -> (same: bool) {
        self.connection == other.connection
    }
}

impl PartialEqSpecImpl for XpcClient {
    open spec fn obeys_eq_spec() -> bool {
        true
    }

    open spec fn eq_spec(&self, other: &Self) -> bool {
        self@.handle == other@.handle
    }
}

/// Delivery keeps the order of the events and drops none: on an open
/// connection the events join the queue behind those that wait, in the order
/// in which they were delivered.
pub proof fn lemma_delivery_appends(client: ClientView, events: Seq<Message>)
    requires
        client.is_open(),
    ensures
        client.deliver_all(events) == (ClientView { queue: client.queue + events, ..client }),
    decreases events.len(),
{
    if events.len() == 0 {
        assert(client.queue + events =~= client.queue);
    } else {
        lemma_delivery_appends(client, events.drop_last());
        assert((client.queue + events.drop_last()).push(events.last()) =~= client.queue + events);
    }
}

/// A connection that is not open has no more to give: what is delivered to
/// it is dropped, and each request of its consumer is answered with the end
/// of the stream.
pub proof fn lemma_closed_stream(client: ClientView, events: Seq<Message>, count: nat)
    requires
        !client.is_open(),
    ensures
        client.deliver_all(events) == client,
        client.after_polls(count) == client,
        client.poll_results(count).len() == count,
        forall|i: int|
            0 <= i < count ==> #[trigger] client.poll_results(count)[i] == Poll::<
                Option<Message>,
            >::Ready(None),
    decreases events.len(), count,
{
    if events.len() > 0 {
        lemma_closed_stream(client, events.drop_last(), 0);
    }
    if count > 0 {
        lemma_closed_stream(client, Seq::empty(), (count - 1) as nat);
    }
}

/// What the consumer of an open connection is given, request after request:
/// first the waiting events in their order, up to the signal that the
/// connection is invalid; then, if that signal was among them, the end of
/// the stream for good, and else the answer that nothing has arrived.
pub proof fn lemma_stream(client: ClientView, count: nat)
    requires
        client.is_open(),
    ensures
        client.poll_results(count).len() == count,
        forall|i: int|
            0 <= i < count && i < events_before_end(client.queue).len()
                ==> #[trigger] client.poll_results(count)[i] == Poll::Ready(
                Some(events_before_end(client.queue)[i]),
            ),
        forall|i: int|
            events_before_end(client.queue).len() <= i < count
                ==> #[trigger] client.poll_results(count)[i] == (if events_before_end(
                client.queue,
            ).len() < client.queue.len() {
                Poll::<Option<Message>>::Ready(None)
            } else {
                Poll::<Option<Message>>::Pending
            }),
    decreases count,
{
    if count > 0 {
        let next = client.poll().0;
        let rest = (count - 1) as nat;
        let results = client.poll_results(count);
        if client.queue.len() == 0 {
            lemma_stream(next, rest);
            assert forall|i: int| 0 <= i < count implies #[trigger] results[i] == Poll::<
                Option<Message>,
            >::Pending by {
                if i > 0 {
                    assert(results[i] == next.poll_results(rest)[i - 1]);
                }
            }
        } else if client.queue[0] == Message::Error(MessageError::ConnectionInvalid) {
            lemma_closed_stream(next, Seq::empty(), rest);
            assert forall|i: int| 0 <= i < count implies #[trigger] results[i] == Poll::<
                Option<Message>,
            >::Ready(None) by {
                if i > 0 {
                    assert(results[i] == next.poll_results(rest)[i - 1]);
                }
            }
        } else {
            lemma_stream(next, rest);
            let yielded = events_before_end(client.queue);
            let later = events_before_end(next.queue);
            assert(yielded == seq![client.queue[0]] + later);
            assert forall|i: int|
                0 <= i < count && i < yielded.len() implies #[trigger] results[i] == Poll::Ready(
                Some(yielded[i]),
            ) by {
                if i > 0 {
                    assert(results[i] == next.poll_results(rest)[i - 1]);
                    assert(yielded[i] == later[i - 1]);
                }
            }
            assert forall|i: int| yielded.len() <= i < count implies #[trigger] results[i] == (
            if yielded.len() < client.queue.len() {
                Poll::<Option<Message>>::Ready(None)
            } else {
                Poll::<Option<Message>>::Pending
            }) by {
                assert(results[i] == next.poll_results(rest)[i - 1]);
            }
        }
    }
}

/// Events without the signal that the connection is invalid are all handed
/// on.
pub proof fn lemma_events_without_end(queue: Seq<Message>)
    requires
        !holds_end(queue),
    ensures
        events_before_end(queue) == queue,
    decreases queue.len(),
{
    if queue.len() > 0 {
        assert(queue[0] != Message::Error(MessageError::ConnectionInvalid));
        assert forall|i: int| 0 <= i < queue.drop_first().len() implies queue.drop_first()[i]
            != Message::Error(MessageError::ConnectionInvalid) by {
            assert(queue.drop_first()[i] == queue[i + 1]);
        }
        lemma_events_without_end(queue.drop_first());
        assert(seq![queue[0]] + queue.drop_first() =~= queue);
    }
}

/// The events that the handler of a connection delivers, one after the
/// other, reach the consumer in the same order, none dropped and none out of
/// place. This holds of events of which none is the signal that the
/// connection is invalid, which ends the stream.
pub proof fn lemma_events_arrive_in_order(handle: u64, events: Seq<Message>)
    requires
        !holds_end(events),
    ensures
        ClientView::activated(handle).deliver_all(events).poll_results(events.len()).len()
            == events.len(),
        forall|i: int|
            0 <= i < events.len() ==> #[trigger] ClientView::activated(handle).deliver_all(
                events,
            ).poll_results(events.len())[i] == Poll::Ready(Some(events[i])),
{
    let client = ClientView::activated(handle);
    lemma_delivery_appends(client, events);
    assert(client.queue + events =~= events);
    lemma_events_without_end(events);
    lemma_stream(client.deliver_all(events), events.len());
}

/// Once the consumer has observed the signal that the connection is
/// invalid, the stream gives no further event, whatever is delivered and
/// however often the consumer asks. The disposal of such a connection awaits
/// nothing, and a second disposal asks nothing of the transport.
pub proof fn lemma_end_is_final(client: ClientView, events: Seq<Message>, count: nat)
    requires
        client.is_open(),
        client.queue.len() > 0,
        client.queue[0] == Message::Error(MessageError::ConnectionInvalid),
    ensures
        client.poll().1 == Poll::<Option<Message>>::Ready(None),
        client.poll().0.deliver_all(events) == client.poll().0,
        forall|i: int|
            0 <= i < count ==> #[trigger] client.poll().0.deliver_all(events).poll_results(
                count,
            )[i] == Poll::<Option<Message>>::Ready(None),
        client.poll().0.teardown().1 == seq![OpView::Release(client.handle)],
        client.poll().0.teardown().0.teardown().1 == Seq::<OpView>::empty(),
        client.poll().0.teardown().0.handler_exited().1 == Seq::<OpView>::empty(),
{
    lemma_closed_stream(client.poll().0, events, count);
}

/// The disposal of a connection whose handler may run: a handler that only
/// signals is put in place of the handler, then the handle is cancelled,
/// then the signal is awaited, and the reference to the handle is released
/// only when the signal has come. From then on nothing that is delivered is
/// taken in and the stream is at its end. Asking for the disposal again, at
/// any point, asks nothing of the transport.
pub proof fn lemma_disposal(client: ClientView, events: Seq<Message>)
    requires
        client.is_open(),
    ensures
        client.teardown().0.state == ConnectionState::Cancelling,
        client.teardown().1 == cancel_and_wait(client.handle),
        client.teardown().0.teardown() == (client.teardown().0, Seq::<OpView>::empty()),
        client.teardown().0.deliver_all(events) == client.teardown().0,
        client.teardown().0.handler_exited().0.state == ConnectionState::Terminated,
        client.teardown().0.handler_exited().1 == seq![OpView::Release(client.handle)],
        client.teardown().0.handler_exited().0.deliver_all(events)
            == client.teardown().0.handler_exited().0,
        client.teardown().0.handler_exited().0.poll().1 == Poll::<Option<Message>>::Ready(None),
        client.teardown().0.handler_exited().0.teardown().1 == Seq::<OpView>::empty(),
        client.teardown().0.handler_exited().0.handler_exited().1 == Seq::<OpView>::empty(),
{
    lemma_closed_stream(client.teardown().0, events, 0);
    lemma_closed_stream(client.teardown().0.handler_exited().0, events, 0);
}

/// One thing that happens to a connection: its handler delivers an event,
/// its consumer asks for the next event, its disposal is asked for, or the
/// signal awaited in the disposal comes.
pub enum Call {
    Deliver(Message),
    Poll,
    Teardown,
    HandlerExited,
}

impl ClientView {
    /// The connection after `call`, the event that the consumer was handed,
    /// if any, and what is asked of the transport.
    pub open spec fn call(self, call: Call) -> (ClientView, Option<Message>, Seq<OpView>) {
        match call {
            Call::Deliver(message) => (self.deliver(message), None, Seq::empty()),
            Call::Poll => (
                self.poll().0,
                match self.poll().1 {
                    Poll::Ready(Some(message)) => Some(message),
                    _ => None,
                },
                Seq::empty(),
            ),
            Call::Teardown => (self.teardown().0, None, self.teardown().1),
            Call::HandlerExited => (self.handler_exited().0, None, self.handler_exited().1),
        }
    }

    /// The connection after each of `calls` in turn.
    pub open spec fn after_calls(self, calls: Seq<Call>) -> ClientView
        decreases calls.len(),
    {
        if calls.len() == 0 {
            self
        } else {
            self.after_calls(calls.drop_last()).call(calls.last()).0
        }
    }

    /// The events that the consumer was handed in the course of `calls`, in
    /// their order.
    pub open spec fn yielded_by(self, calls: Seq<Call>) -> Seq<Message>
        decreases calls.len(),
    {
        if calls.len() == 0 {
            Seq::empty()
        } else {
            match self.after_calls(calls.drop_last()).call(calls.last()).1 {
                Some(message) => self.yielded_by(calls.drop_last()).push(message),
                None => self.yielded_by(calls.drop_last()),
            }
        }
    }

    /// What was asked of the transport in the course of `calls`, in its
    /// order.
    pub open spec fn asked_by(self, calls: Seq<Call>) -> Seq<OpView>
        decreases calls.len(),
    {
        if calls.len() == 0 {
            Seq::empty()
        } else {
            self.asked_by(calls.drop_last()) + self.after_calls(calls.drop_last()).call(
                calls.last(),
            ).2
        }
    }
}

/// The events that the handler delivered in the course of `calls`, in their
/// order.
pub open spec fn delivered_by(calls: Seq<Call>) -> Seq<Message>
    decreases calls.len(),
{
    if calls.len() == 0 {
        Seq::empty()
    } else {
        match calls.last() {
            Call::Deliver(message) => delivered_by(calls.drop_last()).push(message),
            _ => delivered_by(calls.drop_last()),
        }
    }
}

/// Whether `front` is the beginning of `whole`.
pub open spec fn begins(whole: Seq<Message>, front: Seq<Message>) -> bool {
    front.len() <= whole.len() && whole.subrange(0, front.len() as int) == front
}

/// One more event at the back takes nothing from the events that are handed
/// on.
proof fn lemma_events_before_end_grow(queue: Seq<Message>, message: Message)
    ensures
        begins(events_before_end(queue.push(message)), events_before_end(queue)),
    decreases queue.len(),
{
    let longer = queue.push(message);
    if queue.len() == 0 {
        assert(events_before_end(queue) =~= Seq::empty());
        assert(events_before_end(longer).subrange(0, 0) =~= Seq::<Message>::empty());
    } else if queue[0] == Message::Error(MessageError::ConnectionInvalid) {
        assert(longer[0] == queue[0]);
        assert(events_before_end(longer).subrange(0, 0) =~= Seq::<Message>::empty());
    } else {
        assert(longer[0] == queue[0]);
        assert(longer.drop_first() =~= queue.drop_first().push(message));
        lemma_events_before_end_grow(queue.drop_first(), message);
        let short = events_before_end(queue.drop_first());
        let long = events_before_end(queue.drop_first().push(message));
        assert(long.subrange(0, short.len() as int) == short);
        assert((seq![queue[0]] + long).subrange(0, short.len() as int + 1) =~= seq![queue[0]]
            + short);
    }
}

/// Events in front of which no signal of the end stands are all handed on.
proof fn lemma_events_before_end_behind(front: Seq<Message>, back: Seq<Message>)
    requires
        !holds_end(front),
    ensures
        events_before_end(front + back) == front + events_before_end(back),
    decreases front.len(),
{
    if front.len() == 0 {
        assert(front + back =~= back);
        assert(front + events_before_end(back) =~= events_before_end(back));
    } else {
        let whole = front + back;
        assert(whole[0] == front[0]);
        assert(front[0] != Message::Error(MessageError::ConnectionInvalid));
        assert forall|i: int| 0 <= i < front.drop_first().len() implies front.drop_first()[i]
            != Message::Error(MessageError::ConnectionInvalid) by {
            assert(front.drop_first()[i] == front[i + 1]);
        }
        assert(whole.drop_first() =~= front.drop_first() + back);
        lemma_events_before_end_behind(front.drop_first(), back);
        assert(seq![front[0]] + (front.drop_first() + events_before_end(back)) =~= front
            + events_before_end(back));
    }
}

/// Whatever happens to a connection, in whatever order, its consumer is
/// handed the delivered events in the order of their delivery, none out of
/// place and none twice: what was handed over is the beginning of what the
/// handler delivered, up to the signal that the connection is invalid. While
/// the connection is open none is dropped either: what was delivered is what
/// was handed over, followed by what waits.
pub proof fn lemma_stream_follows_delivery(handle: u64, calls: Seq<Call>)
    ensures
        begins(
            events_before_end(delivered_by(calls)),
            ClientView::activated(handle).yielded_by(calls),
        ),
        !holds_end(ClientView::activated(handle).yielded_by(calls)),
        ClientView::activated(handle).after_calls(calls).is_open() ==> delivered_by(calls)
            == ClientView::activated(handle).yielded_by(calls) + ClientView::activated(
            handle,
        ).after_calls(calls).queue,
    decreases calls.len(),
{
    let start = ClientView::activated(handle);
    if calls.len() == 0 {
        assert(delivered_by(calls) =~= start.yielded_by(calls) + start.queue);
        assert(events_before_end(delivered_by(calls)).subrange(0, 0) =~= start.yielded_by(calls));
    } else {
        let earlier = calls.drop_last();
        lemma_stream_follows_delivery(handle, earlier);
        let before = start.after_calls(earlier);
        let after = start.after_calls(calls);
        let sent = delivered_by(earlier);
        let given = start.yielded_by(earlier);
        match calls.last() {
            Call::Deliver(message) => {
                lemma_events_before_end_grow(sent, message);
                let short = events_before_end(sent);
                let long = events_before_end(sent.push(message));
                assert(long.subrange(0, given.len() as int) =~= short.subrange(
                    0,
                    given.len() as int,
                )) by {
                    assert(long.subrange(0, short.len() as int) == short);
                }
                if before.is_open() {
                    assert(sent.push(message) =~= given + before.queue.push(message));
                }
            },
            Call::Poll => {
                if before.is_open() && before.queue.len() > 0 {
                    let head = before.queue[0];
                    if head != Message::Error(MessageError::ConnectionInvalid) {
                        lemma_events_before_end_behind(given, before.queue);
                        let all = events_before_end(sent);
                        assert(all == given + events_before_end(before.queue));
                        assert(events_before_end(before.queue)[0] == head);
                        assert(all.subrange(0, given.len() as int + 1) =~= given.push(head));
                        assert(sent =~= given.push(head) + before.queue.drop_first());
                        assert forall|i: int| 0 <= i < given.push(head).len() implies given.push(
                            head,
                        )[i] != Message::Error(MessageError::ConnectionInvalid) by {
                            if i < given.len() {
                                assert(given[i] != Message::Error(MessageError::ConnectionInvalid));
                            }
                        }
                    }
                }
            },
            Call::Teardown => {},
            Call::HandlerExited => {},
        }
    }
}

/// Whatever happens to a connection, in whatever order, the transport is
/// asked for the same few things. While the connection is active nothing is
/// asked. Once its disposal was asked for, the handle was cancelled and the
/// final call of its handler is awaited, and nothing more is asked until the
/// signal comes. The reference to the handle is released once and no more,
/// and only after that wait; the wait is left out only where the end of the
/// connection was observed before, so that no call of the handler can come.
pub proof fn lemma_life_of_a_connection(handle: u64, calls: Seq<Call>)
    ensures
        ClientView::activated(handle).after_calls(calls).handle == handle,
        ClientView::activated(handle).after_calls(calls).wf(),
        match ClientView::activated(handle).after_calls(calls).state {
            ConnectionState::Created => false,
            ConnectionState::Active => ClientView::activated(handle).asked_by(calls)
                == Seq::<OpView>::empty(),
            ConnectionState::Cancelling => ClientView::activated(handle).asked_by(calls)
                == cancel_and_wait(handle) && ClientView::activated(handle).after_calls(
                calls,
            ).event_handler_is_running,
            ConnectionState::Terminated => ClientView::activated(handle).asked_by(calls)
                == cancel_and_wait(handle) + seq![OpView::Release(handle)]
                || (ClientView::activated(handle).asked_by(calls) == seq![OpView::Release(handle)]
                && holds_end(delivered_by(calls))),
        },
    decreases calls.len(),
{
    let start = ClientView::activated(handle);
    if calls.len() > 0 {
        let earlier = calls.drop_last();
        lemma_life_of_a_connection(handle, earlier);
        lemma_stream_follows_delivery(handle, earlier);
        lemma_stream_follows_delivery(handle, calls);
        let before = start.after_calls(earlier);
        let asked = start.asked_by(earlier);
        match calls.last() {
            Call::Deliver(message) => {
                assert(asked + Seq::<OpView>::empty() =~= asked);
                if holds_end(delivered_by(earlier)) {
                    let i = choose|i: int|
                        0 <= i < delivered_by(earlier).len() && #[trigger] delivered_by(earlier)[i]
                            == Message::Error(MessageError::ConnectionInvalid);
                    assert(delivered_by(calls)[i] == Message::Error(
                        MessageError::ConnectionInvalid,
                    ));
                }
            },
            Call::Poll => {
                assert(asked + Seq::<OpView>::empty() =~= asked);
            },
            Call::Teardown => {
                assert(asked + Seq::<OpView>::empty() =~= asked);
                if before.state == ConnectionState::Active {
                    assert(Seq::<OpView>::empty() + before.teardown().1 =~= before.teardown().1);
                    if !before.event_handler_is_running {
                        lemma_end_was_delivered(handle, earlier);
                    }
                }
            },
            Call::HandlerExited => {
                assert(asked + Seq::<OpView>::empty() =~= asked);
            },
        }
    }
}

/// An active connection whose handler no longer runs has been delivered the
/// signal that it is invalid.
proof fn lemma_end_was_delivered(handle: u64, calls: Seq<Call>)
    requires
        ClientView::activated(handle).after_calls(calls).state == ConnectionState::Active,
        !ClientView::activated(handle).after_calls(calls).event_handler_is_running,
    ensures
        holds_end(delivered_by(calls)),
    decreases calls.len(),
{
    let start = ClientView::activated(handle);
    if calls.len() > 0 {
        let earlier = calls.drop_last();
        let before = start.after_calls(earlier);
        if before.state == ConnectionState::Active && !before.event_handler_is_running {
            lemma_end_was_delivered(handle, earlier);
            let i = choose|i: int|
                0 <= i < delivered_by(earlier).len() && #[trigger] delivered_by(earlier)[i]
                    == Message::Error(MessageError::ConnectionInvalid);
            match calls.last() {
                Call::Deliver(message) => {
                    assert(delivered_by(calls)[i] == Message::Error(
                        MessageError::ConnectionInvalid,
                    ));
                },
                _ => {
                    assert(delivered_by(calls)[i] == Message::Error(
                        MessageError::ConnectionInvalid,
                    ));
                },
            }
        } else {
            match calls.last() {
                Call::Poll => {
                    // The consumer has just observed the signal at the head
                    // of the queue.
                    lemma_stream_follows_delivery(handle, earlier);
                    let given = start.yielded_by(earlier);
                    assert(delivered_by(earlier) == given + before.queue);
                    assert(delivered_by(calls)[given.len() as int] == before.queue[0]);
                },
                _ => {},
            }
        }
    }
}

} // verus!
