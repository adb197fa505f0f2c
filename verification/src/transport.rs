//! What the library asks of the transport.
//!
//! The library performs no native call itself. Each function that has an
//! effect on a native handle appends the operations to a list, in the order
//! in which the driver of the transport has to perform them.

use crate::object::{ObjectView, XpcObject};
use vstd::prelude::*;

verus! {

/// Flag of a mach service that accepts connections.
pub const XPC_CONNECTION_MACH_SERVICE_LISTENER: u64 = 1;

/// Flag of a connection to a mach service in the privileged domain.
pub const XPC_CONNECTION_MACH_SERVICE_PRIVILEGED: u64 = 2;

/// Where a connection stands in its life.
#[derive(Debug, Clone, Copy, PartialEq, Eq, Structural)]
pub enum ConnectionState {
    /// The connection is not activated yet: no event handler is attached.
    Created,
    /// The event handler is attached and the handle resumed.
    Active,
    /// Disposal was asked for and the native cancel issued; the final call of
    /// the event handler is awaited.
    Cancelling,
    /// The final call was observed and the reference to the handle released.
    Terminated,
}

/// The event handlers the library attaches to a handle.
#[derive(Debug, Clone, Copy, PartialEq, Eq, Structural)]
pub enum EventHandler {
    /// Decodes each event and queues it for the consumer of a connection.
    Deliver,
    /// Takes each event as a connection that a listener accepted.
    Accept,
    /// Signals once that it ran, and does nothing else.
    Rendezvous,
}

/// One operation on a native handle. The first field is the handle's
/// identity.
#[derive(Debug, PartialEq, Eq)]
pub enum NativeOp {
    /// Create the handle of a mach service connection, to be known by the
    /// given identity.
    CreateMachService(u64, MachService),
    /// Take one more reference to the handle.
    Retain(u64),
    /// Replace the handle's event handler.
    SetEventHandler(u64, EventHandler),
    /// Let the handle deliver events.
    Resume(u64),
    /// Require of every peer the code signature that the text describes.
    SetPeerCodeSigningRequirement(u64, Vec<u8>),
    /// Send the object, then release it.
    SendMessage(u64, XpcObject),
    /// Cancel the handle.
    Cancel(u64),
    /// Block until the rendezvous handler of the handle has signalled.
    AwaitRendezvous(u64),
    /// Give up the reference to the handle.
    Release(u64),
}

/// The queue on which a handle's events are to be delivered.
#[derive(Debug, PartialEq, Eq)]
pub enum TargetQueue {
    /// The transport's default queue.
    Default,
    /// A queue of the caller's.
    Provided(u64),
    /// A new serial queue with the given label.
    Labelled(Vec<u8>),
}

/// What the transport needs to create the handle of a mach service
/// connection. The name has no terminator byte.
#[derive(Debug, PartialEq, Eq)]
pub struct MachService {
    pub name: Vec<u8>,
    pub queue: TargetQueue,
    pub flags: u64,
}

/// What a [`TargetQueue`] means.
pub enum QueueView {
    Default,
    Provided(u64),
    Labelled(Seq<u8>),
}

/// What a [`MachService`] means.
pub struct ServiceView {
    pub name: Seq<u8>,
    pub queue: QueueView,
    pub flags: u64,
}

/// What a [`NativeOp`] means.
pub enum OpView {
    CreateMachService(u64, ServiceView),
    Retain(u64),
    SetEventHandler(u64, EventHandler),
    Resume(u64),
    SetPeerCodeSigningRequirement(u64, Seq<u8>),
    SendMessage(u64, ObjectView),
    Cancel(u64),
    AwaitRendezvous(u64),
    Release(u64),
}

impl View for TargetQueue {
    type V = QueueView;

    open spec fn view(&self) -> QueueView {
        match self {
            TargetQueue::Default => QueueView::Default,
            TargetQueue::Provided(queue) => QueueView::Provided(*queue),
            TargetQueue::Labelled(label) => QueueView::Labelled(label@),
        }
    }
}

impl View for MachService {
    type V = ServiceView;

    open spec fn view(&self) -> ServiceView {
        ServiceView { name: self.name@, queue: self.queue@, flags: self.flags }
    }
}

impl View for NativeOp {
    type V = OpView;

    open spec fn view(&self) -> OpView {
        match self {
            NativeOp::CreateMachService(handle, service) => OpView::CreateMachService(
                *handle,
                service@,
            ),
            NativeOp::Retain(handle) => OpView::Retain(*handle),
            NativeOp::SetEventHandler(handle, handler) => OpView::SetEventHandler(
                *handle,
                *handler,
            ),
            NativeOp::Resume(handle) => OpView::Resume(*handle),
            NativeOp::SetPeerCodeSigningRequirement(handle, requirement) => {
                OpView::SetPeerCodeSigningRequirement(*handle, requirement@)
            },
            NativeOp::SendMessage(handle, object) => OpView::SendMessage(*handle, object@),
            NativeOp::Cancel(handle) => OpView::Cancel(*handle),
            NativeOp::AwaitRendezvous(handle) => OpView::AwaitRendezvous(*handle),
            NativeOp::Release(handle) => OpView::Release(*handle),
        }
    }
}

/// What a list of operations means.
pub open spec fn ops_view(ops: Seq<NativeOp>) -> Seq<OpView> {
    Seq::new(ops.len(), |i: int| ops[i]@)
}

/// Appends an operation to the list.
pub fn push_op(ops: &mut Vec<NativeOp>, op: NativeOp)
    ensures
        final(ops)@ == old(ops)@.push(op),
        ops_view(final(ops)@) == ops_view(old(ops)@).push(op@),
{
    ops.push(op);
    assert(ops_view(ops@) =~= ops_view(old(ops)@).push(op@));
}

/// What the disposal of a handle asks of the transport while a call of the
/// handle's event handler may be under way or to come: put a handler that
/// only signals in its place, cancel the handle, and await the signal. The
/// transport calls the handler one last time after the cancel, so the signal
/// comes, and once it has come no call is under way or to come.
pub open spec fn cancel_and_wait(handle: u64) -> Seq<OpView> {
    seq![
        OpView::SetEventHandler(handle, EventHandler::Rendezvous),
        OpView::Cancel(handle),
        OpView::AwaitRendezvous(handle),
    ]
}

/// Asks the transport to cancel the handle's event handler and to wait for
/// its final call.
pub fn cancel_and_wait_for_event_handler(connection: u64, ops: &mut Vec<NativeOp>)
    ensures
        ops_view(final(ops)@) == ops_view(old(ops)@) + cancel_and_wait(connection),
{
    push_op(ops, NativeOp::SetEventHandler(connection, EventHandler::Rendezvous));
    push_op(ops, NativeOp::Cancel(connection));
    push_op(ops, NativeOp::AwaitRendezvous(connection));
    assert(ops_view(ops@) =~= ops_view(old(ops)@) + cancel_and_wait(connection));
}

/// What asking a stream for its next item gives.
#[derive(Debug)]
pub enum Poll<T> {
    /// The next item, or `None` at the end of the stream.
    Ready(T),
    /// Nothing has arrived yet.
    Pending,
}

} // verus!
