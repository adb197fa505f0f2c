//! A listener: one native handle and the queue of the clients it accepted.

use crate::client::XpcClient;
use crate::message::Message;
use crate::text::{copy_bytes, copy_text_content, is_text, no_nul, text_content};
use crate::transport::{
    cancel_and_wait, cancel_and_wait_for_event_handler, ops_view, push_op, ConnectionState,
    EventHandler, MachService, NativeOp, OpView, Poll, QueueView, ServiceView, TargetQueue,
    XPC_CONNECTION_MACH_SERVICE_LISTENER,
};
use std::collections::VecDeque;
use vstd::prelude::*;
use vstd::std_specs::cmp::PartialEqSpecImpl;
use vstd::std_specs::vecdeque::VecDequeAdditionalSpecFns;

verus! {

/// The state of a listener.
pub struct ListenerView {
    /// The identity of the native handle.
    pub handle: u64,
    pub state: ConnectionState,
    /// What is required of a peer's code signature, if anything.
    pub requirement: Option<Seq<u8>>,
    /// Whether the transport itself holds every peer to the requirement.
    pub already_validated: bool,
    /// The clients that were accepted and not yet taken, oldest first.
    pub queue: Seq<XpcClient>,
}

/// The requirement as bytes, if there is one.
pub open spec fn required_of_peer(requirement: Option<Vec<u8>>) -> Option<Seq<u8>> {
    match requirement {
        Some(text) => Some(text@),
        None => None,
    }
}

/// Whether a peer counts as valid, given what is required of it and what the
/// check of its identity reported. Without a requirement every peer is
/// valid. With one, a peer is valid only if the check was made and found the
/// requirement satisfied.
pub open spec fn peer_is_valid(requirement: Option<Seq<u8>>, peer_check: Option<bool>) -> bool {
    requirement is None || peer_check == Some(true)
}

/// What activating a listener asks of the transport. Where the transport can
/// hold peers to a requirement itself, it is given the requirement. Then the
/// handler that accepts connections is attached and the handle resumed.
pub open spec fn activation_of_listener(
    handle: u64,
    requirement: Option<Seq<u8>>,
    transport_validates: bool,
) -> Seq<OpView> {
    (if requirement is Some && transport_validates {
        seq![OpView::SetPeerCodeSigningRequirement(handle, requirement->0)]
    } else {
        Seq::empty()
    }) + seq![OpView::SetEventHandler(handle, EventHandler::Accept), OpView::Resume(handle)]
}

/// What listening on the mach service `name` asks of the transport: create
/// the handle of a listening connection on the given queue, or on the default
/// queue, and activate the listener.
pub open spec fn connection_of_listener(
    name: Seq<u8>,
    requirement: Option<Seq<u8>>,
    queue: Option<u64>,
    handle: u64,
    transport_validates: bool,
) -> Seq<OpView> {
    seq![
        OpView::CreateMachService(
            handle,
            ServiceView {
                name: text_content(name),
                queue: match queue {
                    Some(queue) => QueueView::Provided(queue),
                    None => QueueView::Default,
                },
                flags: XPC_CONNECTION_MACH_SERVICE_LISTENER,
            },
        ),
    ] + activation_of_listener(handle, requirement, transport_validates)
}

impl ListenerView {
    /// A listener on `handle` right after its activation.
    pub open spec fn listening(
        handle: u64,
        requirement: Option<Seq<u8>>,
        transport_validates: bool,
    ) -> ListenerView {
        ListenerView {
            handle,
            state: ConnectionState::Active,
            requirement,
            already_validated: requirement is Some && transport_validates,
            queue: Seq::empty(),
        }
    }

    /// Whether the state is one that a listener can be in.
    pub open spec fn wf(self) -> bool {
        self.state != ConnectionState::Created
    }

    /// Whether an accepted client is handed on without a check of its peer:
    /// nothing is required, or the transport has held the peer to it.
    pub open spec fn forwards_unchecked(self) -> bool {
        self.state == ConnectionState::Active && (self.requirement is None
            || self.already_validated)
    }

    /// The listener after its handler has decoded `event`, and the client
    /// that is held back, if any. Only a client counts; any other event is
    /// dropped. A client whose peer needs no check joins the queue. Any other
    /// client is held back until its peer was checked.
    pub open spec fn accept(self, event: Message) -> (ListenerView, Option<XpcClient>) {
        match event {
            Message::Client(client) => {
                if self.forwards_unchecked() {
                    (ListenerView { queue: self.queue.push(client), ..self }, None)
                } else {
                    (self, Some(client))
                }
            },
            _ => (self, None),
        }
    }

    /// Whether a client that was held back is handed on, given what the check
    /// of its peer reported.
    pub open spec fn forwards(self, peer_check: Option<bool>) -> bool {
        self.state == ConnectionState::Active && (self.already_validated || peer_is_valid(
            self.requirement,
            peer_check,
        ))
    }

    /// The listener after it was settled what becomes of a client that was
    /// held back, and what that asks of the transport. A client that is
    /// handed on joins the queue. Any other is turned away.
    pub open spec fn settle(
        self,
        client: XpcClient,
        peer_check: Option<bool>,
    ) -> (ListenerView, Seq<OpView>) {
        if self.forwards(peer_check) {
            (ListenerView { queue: self.queue.push(client), ..self }, Seq::empty())
        } else {
            (self, client@.reject().1)
        }
    }

    /// The listener after its consumer asked for the next client, and what
    /// the consumer was given. A listener that is no longer active still
    /// hands out the clients that wait.
    pub open spec fn poll(self) -> (ListenerView, Poll<Option<XpcClient>>) {
        if self.queue.len() > 0 {
            (
                ListenerView { queue: self.queue.drop_first(), ..self },
                Poll::Ready(Some(self.queue[0])),
            )
        } else if self.state == ConnectionState::Active {
            (self, Poll::Pending)
        } else {
            (self, Poll::Ready(None))
        }
    }

    /// The listener after its disposal was asked for, and what that asks of
    /// the transport: a handler that only signals is put in place of the
    /// handler, the handle cancelled and the signal awaited. A second request
    /// asks nothing.
    pub open spec fn teardown(self) -> (ListenerView, Seq<OpView>) {
        if self.state == ConnectionState::Active {
            (
                ListenerView { state: ConnectionState::Cancelling, ..self },
                cancel_and_wait(self.handle),
            )
        } else {
            (self, Seq::empty())
        }
    }

    /// The listener after the awaited signal came, and what that asks of the
    /// transport: the reference to the handle is released. The clients that
    /// wait are left as they are.
    pub open spec fn handler_exited(self) -> (ListenerView, Seq<OpView>) {
        if self.state == ConnectionState::Cancelling {
            (
                ListenerView { state: ConnectionState::Terminated, ..self },
                seq![OpView::Release(self.handle)],
            )
        } else {
            (self, Seq::empty())
        }
    }
}

/// Decides whether a peer is valid from what is required of it and from what
/// the check of its identity reported: `Some` with the outcome where the
/// check was made, `None` where it could not be made.
pub fn validate_client_using_audit_token(
    requirement: &Option<Vec<u8>>,
    peer_check: Option<bool>,
) -> (valid: bool)
    ensures
        valid == peer_is_valid(required_of_peer(*requirement), peer_check),
{
    match requirement {
        None => true,
        Some(_) => match peer_check {
            Some(satisfied) => satisfied,
            None => false,
        },
    }
}

/// A listener.
#[derive(Debug)]
pub struct XpcListener {
    connection: u64,
    state: ConnectionState,
    requirement: Option<Vec<u8>>,
    already_validated: bool,
    receiver: VecDeque<XpcClient>,
}

impl View for XpcListener {
    type V = ListenerView;

    closed spec fn view(&self) -> ListenerView {
        ListenerView {
            handle: self.connection,
            state: self.state,
            requirement: required_of_peer(self.requirement),
            already_validated: self.already_validated,
            queue: self.receiver@,
        }
    }
}

impl XpcListener {
    /// Whether each client that waits is well formed.
    pub closed spec fn clients_wf(&self) -> bool
        decreases self, 0int,
    {
        forall|i: int| 0 <= i < self.receiver.len() ==> (#[trigger] self.receiver[i]).wf()
    }

    /// Whether each client that waits is well formed and the state is one
    /// that a listener can be in.
    pub open spec fn wf(&self) -> bool
        decreases self, 1int,
    {
        self@.wf() && self.clients_wf()
    }

    /// Wraps a native handle in a listener and activates it. `requirement`
    /// says what is required of the code signature of each peer.
    /// `transport_validates` says whether the transport can hold peers to
    /// such a requirement itself; if it cannot, each peer has to be checked
    /// when its connection is accepted.
    pub fn from_raw(
        connection: u64,
        requirement: Option<Vec<u8>>,
        transport_validates: bool,
        ops: &mut Vec<NativeOp>,
    ) -> (listener: XpcListener)
        requires
            requirement matches Some(text) ==> no_nul(text@),
        ensures
            listener.wf(),
            listener@ == ListenerView::listening(
                connection,
                required_of_peer(requirement),
                transport_validates,
            ),
            ops_view(final(ops)@) == ops_view(old(ops)@) + activation_of_listener(
                connection,
                required_of_peer(requirement),
                transport_validates,
            ),
    {
        let mut already_validated = false;
        match &requirement {
            Some(text) => {
                if transport_validates {
                    push_op(
                        ops,
                        NativeOp::SetPeerCodeSigningRequirement(
                            connection,
                            copy_bytes(text.as_slice()),
                        ),
                    );
                    already_validated = true;
                }
            },
            None => {},
        }
        push_op(ops, NativeOp::SetEventHandler(connection, EventHandler::Accept));
        push_op(ops, NativeOp::Resume(connection));
        assert(ops_view(ops@) =~= ops_view(old(ops)@) + activation_of_listener(
            connection,
            required_of_peer(requirement),
            transport_validates,
        ));
        XpcListener {
            connection,
            state: ConnectionState::Active,
            requirement,
            already_validated,
            receiver: VecDeque::new(),
        }
    }

    /// Listens on the mach service `name`. The transport is asked to create
    /// the handle, to be known as `connection`, with its events delivered on
    /// `queue` or else on the default queue, and the listener is activated as
    /// by [`XpcListener::from_raw`]. One terminator byte at the end of `name`
    /// is not part of the name.
    pub fn listen(
        name: &[u8],
        requirement: Option<Vec<u8>>,
        queue: Option<u64>,
        connection: u64,
        transport_validates: bool,
        ops: &mut Vec<NativeOp>,
    ) -> (listener: XpcListener)
        requires
            is_text(name@),
            requirement matches Some(text) ==> no_nul(text@),
        ensures
            listener.wf(),
            listener@ == ListenerView::listening(
                connection,
                required_of_peer(requirement),
                transport_validates,
            ),
            ops_view(final(ops)@) == ops_view(old(ops)@) + connection_of_listener(
                name@,
                required_of_peer(requirement),
                queue,
                connection,
                transport_validates,
            ),
    {
        let service = MachService {
            name: copy_text_content(name),
            queue: match queue {
                Some(queue) => TargetQueue::Provided(queue),
                None => TargetQueue::Default,
            },
            flags: XPC_CONNECTION_MACH_SERVICE_LISTENER,
        };
        push_op(ops, NativeOp::CreateMachService(connection, service));
        let ghost wanted = required_of_peer(requirement);
        let listener = XpcListener::from_raw(connection, requirement, transport_validates, ops);
        assert(ops_view(ops@) =~= ops_view(old(ops)@) + connection_of_listener(
            name@,
            wanted,
            queue,
            connection,
            transport_validates,
        ));
        listener
    }

    /// The identity of the native handle.
    pub fn handle(&self) -> (handle: u64)
        ensures
            handle == self@.handle,
    {
        self.connection
    }

    /// Where the listener stands in its life.
    pub fn state(&self) -> (state: ConnectionState)
        ensures
            state == self@.state,
    {
        self.state
    }

    /// Whether a client that is accepted has to be held back until its peer
    /// was checked.
    pub fn checks_peers(&self) -> (checks: bool)
        ensures
            checks == !self@.forwards_unchecked(),
    {
        match self.state {
            ConnectionState::Active => self.requirement.is_some() && !self.already_validated,
            _ => true,
        }
    }

    /// Takes in an event that the handler of the listener has decoded, and
    /// returns the client that is held back until its peer was checked, if
    /// there is one.
    pub fn accept(&mut self, event: Message) -> (held: Option<XpcClient>)
        requires
            old(self).wf(),
            event.wf(),
        ensures
            final(self).wf(),
            (final(self)@, held) == old(self)@.accept(event),
            held matches Some(client) ==> client.wf(),
    {
        match event {
            Message::Client(client) => {
                let unchecked = match self.state {
                    ConnectionState::Active => self.requirement.is_none() || self.already_validated,
                    _ => false,
                };
                if unchecked {
                    self.receiver.push_back(client);
                    None
                } else {
                    Some(client)
                }
            },
            _ => None,
        }
    }

    /// Settles what becomes of a client that was held back. `peer_check` is
    /// what the check of the peer's identity against the requirement
    /// reported: `Some` with the outcome, or `None` where the check could
    /// not be made. A client whose peer is valid joins the queue. Any other
    /// is turned away: its handle is cancelled and released, and it is not
    /// handed on.
    pub fn settle(&mut self, client: XpcClient, peer_check: Option<bool>, ops: &mut Vec<NativeOp>)
        requires
            old(self).wf(),
            client.wf(),
        ensures
            final(self).wf(),
            final(self)@ == old(self)@.settle(client, peer_check).0,
            ops_view(final(ops)@) == ops_view(old(ops)@) + old(self)@.settle(client, peer_check).1,
    {
        let live = match self.state {
            ConnectionState::Active => true,
            _ => false,
        };
        if live && (self.already_validated || validate_client_using_audit_token(
            &self.requirement,
            peer_check,
        )) {
            self.receiver.push_back(client);
            assert(ops_view(ops@) =~= ops_view(old(ops)@) + Seq::<OpView>::empty());
        } else {
            let mut client = client;
            client.reject(ops);
        }
    }

    /// Hands the next accepted client to the consumer of the listener.
    pub fn poll_next(&mut self) -> (polled: Poll<Option<XpcClient>>)
        requires
            old(self).wf(),
        ensures
            final(self).wf(),
            (final(self)@, polled) == old(self)@.poll(),
            polled matches Poll::Ready(Some(client)) ==> client.wf(),
    {
        match self.receiver.pop_front() {
            Some(client) => {
                assert(client == old(self).receiver[0]);
                Poll::Ready(Some(client))
            },
            None => match self.state {
                ConnectionState::Active => Poll::Pending,
                _ => Poll::Ready(None),
            },
        }
    }

    /// Asks for the disposal of the listener. The clients that were handed
    /// out are not touched.
    pub fn teardown(&mut self, ops: &mut Vec<NativeOp>)
        requires
            old(self).wf(),
        ensures
            final(self).wf(),
            final(self)@ == old(self)@.teardown().0,
            ops_view(final(ops)@) == ops_view(old(ops)@) + old(self)@.teardown().1,
    {
        match self.state {
            ConnectionState::Active => {
                cancel_and_wait_for_event_handler(self.connection, ops);
                self.state = ConnectionState::Cancelling;
            },
            _ => {},
        }
        assert(ops_view(ops@) =~= ops_view(old(ops)@) + old(self)@.teardown().1);
    }

    /// Reports that the signal awaited in the disposal came: the final call
    /// of the event handler is over.
    pub fn handler_exited(&mut self, ops: &mut Vec<NativeOp>)
        requires
            old(self).wf(),
        ensures
            final(self).wf(),
            final(self)@ == old(self)@.handler_exited().0,
            ops_view(final(ops)@) == ops_view(old(ops)@) + old(self)@.handler_exited().1,
    {
        match self.state {
            ConnectionState::Cancelling => {
                push_op(ops, NativeOp::Release(self.connection));
                self.state = ConnectionState::Terminated;
            },
            _ => {},
        }
        assert(ops_view(ops@) =~= ops_view(old(ops)@) + old(self)@.handler_exited().1);
    }
}

/// A listener that has to check its peers hands on no client whose peer was
/// not found to satisfy the requirement. Such a client is held back when it
/// is accepted, it never joins the queue, and its handle is cancelled and
/// released.
pub proof fn lemma_invalid_peer_is_kept_out(
    listener: ListenerView,
    client: XpcClient,
    peer_check: Option<bool>,
)
    requires
        listener.requirement is Some,
        !listener.already_validated,
        peer_check != Some(true),
        client@.state == ConnectionState::Active,
    ensures
        listener.accept(Message::Client(client)) == (listener, Some(client)),
        listener.settle(client, peer_check).0 == listener,
        listener.settle(client, peer_check).1 == seq![
            OpView::Cancel(client@.handle),
            OpView::Release(client@.handle),
        ],
{
}

/// A listener of which nothing is required, or whose transport holds the
/// peers to the requirement, hands on every client that it accepts while it
/// is active.
pub proof fn lemma_client_is_forwarded(listener: ListenerView, client: XpcClient)
    requires
        listener.state == ConnectionState::Active,
        listener.requirement is None || listener.already_validated,
    ensures
        listener.accept(Message::Client(client)) == (
            ListenerView { queue: listener.queue.push(client), ..listener },
            None::<XpcClient>,
        ),
{
}

/// The disposal of a listener follows the same steps as that of a client: a
/// handler that only signals is put in place of the handler, the handle is
/// cancelled, the signal is awaited, and the reference to the handle is
/// released only when the signal has come. The clients that wait are not
/// touched. Asking for the disposal again, at any point, asks nothing of the
/// transport.
pub proof fn lemma_disposal_of_a_listener(listener: ListenerView)
    requires
        listener.state == ConnectionState::Active,
    ensures
        listener.teardown().0 == (ListenerView { state: ConnectionState::Cancelling, ..listener }),
        listener.teardown().1 == cancel_and_wait(listener.handle),
        listener.teardown().0.teardown() == (listener.teardown().0, Seq::<OpView>::empty()),
        listener.teardown().0.handler_exited().0 == (ListenerView {
            state: ConnectionState::Terminated,
            ..listener
        }),
        listener.teardown().0.handler_exited().1 == seq![OpView::Release(listener.handle)],
        listener.teardown().0.handler_exited().0.teardown().1 == Seq::<OpView>::empty(),
        listener.teardown().0.handler_exited().0.handler_exited().1 == Seq::<OpView>::empty(),
{
}

/// Two listeners are equal if they wrap the same native handle.
impl PartialEq for XpcListener {
    fn eq(&self, other: &Self) -> (same: bool) {
        self.connection == other.connection
    }
}

impl PartialEqSpecImpl for XpcListener {
    open spec fn obeys_eq_spec() -> bool {
        true
    }

    open spec fn eq_spec(&self, other: &Self) -> bool {
        self@.handle == other@.handle
    }
}

} // verus!
