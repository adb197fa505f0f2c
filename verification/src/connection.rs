//! A connection that is set up in two steps: it is named first and connected
//! on demand.

use crate::client::{activation_of_client, ClientView, XpcClient};
use crate::codec::encode_spec;
use crate::message::Message;
use crate::text::{check_nul_terminated, copy_text_content, is_nul_terminated, text_content};
use crate::transport::{
    ops_view, push_op, ConnectionState, MachService, NativeOp, OpView, Poll, QueueView,
    ServiceView, TargetQueue, XPC_CONNECTION_MACH_SERVICE_PRIVILEGED,
};
use vstd::prelude::*;
use vstd::utf8::encode_utf8;

verus! {

/// What connecting to the mach service `name` asks of the transport: create
/// the handle of a connection in the privileged domain, with a queue of its
/// own that is labelled with the name, and activate the connection.
pub open spec fn connection_of_service(name: Seq<u8>, handle: u64) -> Seq<OpView> {
    seq![
        OpView::CreateMachService(
            handle,
            ServiceView {
                name: text_content(name),
                queue: QueueView::Labelled(text_content(name)),
                flags: XPC_CONNECTION_MACH_SERVICE_PRIVILEGED,
            },
        ),
    ] + activation_of_client(handle)
}

/// A connection to a mach service. The name of the service ends in a
/// terminator byte.
#[derive(Debug)]
pub struct XpcConnection {
    pub service_name: String,
    client: Option<XpcClient>,
}

impl XpcConnection {
    /// The client that carries the connection, once it is connected.
    pub closed spec fn client(&self) -> Option<XpcClient> {
        self.client
    }

    /// The name of the service as bytes.
    pub closed spec fn name_bytes(&self) -> Seq<u8> {
        encode_utf8(self.service_name@)
    }

    /// Where the connection stands: created until it is connected, then
    /// where its client stands.
    pub open spec fn state(&self) -> ConnectionState {
        match self.client() {
            Some(client) => client@.state,
            None => ConnectionState::Created,
        }
    }

    /// Whether the client, if there is one, is well formed.
    pub open spec fn wf(&self) -> bool {
        self.client() matches Some(client) ==> client.wf()
    }

    /// A connection to the service `service_name` that is not yet connected.
    pub fn new(service_name: &str) -> (connection: XpcConnection)
        ensures
            connection.name_bytes() == encode_utf8(service_name@),
            connection.client() is None,
            connection.wf(),
    {
        XpcConnection { service_name: service_name.to_owned(), client: None }
    }

    /// Whether the name of the service is one that [`XpcConnection::connect`]
    /// takes.
    pub fn has_valid_name(&self) -> (valid: bool)
        ensures
            valid == is_nul_terminated(self.name_bytes()),
    {
        check_nul_terminated(self.service_name.as_str().as_bytes())
    }

    /// Connects to the service in the privileged domain. The transport is
    /// asked to create the handle, to be known as `connection`, and the
    /// connection is activated. The events then arrive through
    /// [`XpcConnection::deliver`] and [`XpcConnection::poll_next`].
    pub fn connect(&mut self, connection: u64, ops: &mut Vec<NativeOp>)
        requires
            is_nul_terminated(old(self).name_bytes()),
        ensures
            final(self).name_bytes() == old(self).name_bytes(),
            final(self).client() matches Some(client) && client@ == ClientView::activated(
                connection,
            ),
            final(self).wf(),
            ops_view(final(ops)@) == ops_view(old(ops)@) + connection_of_service(
                old(self).name_bytes(),
                connection,
            ),
    {
        let name = copy_text_content(self.service_name.as_str().as_bytes());
        let label = copy_text_content(self.service_name.as_str().as_bytes());
        let service = MachService {
            name,
            queue: TargetQueue::Labelled(label),
            flags: XPC_CONNECTION_MACH_SERVICE_PRIVILEGED,
        };
        push_op(ops, NativeOp::CreateMachService(connection, service));
        let client = XpcClient::from_raw(connection, ops);
        assert(ops_view(ops@) =~= ops_view(old(ops)@) + connection_of_service(
            old(self).name_bytes(),
            connection,
        ));
        self.client = Some(client);
    }

    /// Whether the connection is connected and neither cancelled nor
    /// released, so that messages can be sent.
    pub fn is_connected(&self) -> (connected: bool)
        ensures
            connected == (self.state() == ConnectionState::Active),
    {
        match &self.client {
            Some(client) => client.is_active(),
            None => false,
        }
    }

    /// Sends a message over the connection, as [`XpcClient::send_message`]
    /// does.
    pub fn send_message(&self, message: Message, ops: &mut Vec<NativeOp>)
        requires
            self.state() == ConnectionState::Active,
            message.wf(),
            message@.encodable(),
        ensures
            ops_view(final(ops)@) == ops_view(old(ops)@).push(
                OpView::SendMessage(self.client()->0@.handle, encode_spec(message@)),
            ),
            final(ops)@.last() matches NativeOp::SendMessage(_, object) && object.decodable()
                && object.in_order(),
    {
        match &self.client {
            Some(client) => client.send_message(message, ops),
            None => {},
        }
    }

    /// Takes in an event that the handler of the connection has decoded. An
    /// event for a connection that is not connected is dropped.
    pub fn deliver(&mut self, message: Message)
        requires
            old(self).wf(),
            message.wf(),
        ensures
            final(self).wf(),
            final(self).name_bytes() == old(self).name_bytes(),
            match old(self).client() {
                Some(client) => final(self).client() matches Some(after) && after@
                    == client@.deliver(message),
                None => final(self).client() is None,
            },
    {
        match self.client.take() {
            Some(client) => {
                let mut client = client;
                client.deliver(message);
                self.client = Some(client);
            },
            None => {},
        }
    }

    /// Hands the next event to the consumer of the connection. Nothing
    /// arrives on a connection that is not connected.
    pub fn poll_next(&mut self) -> (polled: Poll<Option<Message>>)
        requires
            old(self).wf(),
        ensures
            final(self).wf(),
            final(self).name_bytes() == old(self).name_bytes(),
            match old(self).client() {
                Some(client) => final(self).client() matches Some(after) && (after@, polled)
                    == client@.poll(),
                None => final(self).client() is None && polled == Poll::<
                    Option<Message>,
                >::Pending,
            },
            polled matches Poll::Ready(Some(message)) ==> message.wf(),
    {
        match self.client.take() {
            Some(client) => {
                let mut client = client;
                let polled = client.poll_next();
                self.client = Some(client);
                polled
            },
            None => Poll::Pending,
        }
    }

    /// Asks for the disposal of the connection, as [`XpcClient::teardown`]
    /// does. A connection that is not connected has nothing to dispose of.
    pub fn teardown(&mut self, ops: &mut Vec<NativeOp>)
        requires
            old(self).wf(),
        ensures
            final(self).wf(),
            final(self).name_bytes() == old(self).name_bytes(),
            match old(self).client() {
                Some(client) => final(self).client() matches Some(after) && after@
                    == client@.teardown().0 && ops_view(final(ops)@) == ops_view(old(ops)@)
                    + client@.teardown().1,
                None => final(self).client() is None && ops_view(final(ops)@) == ops_view(
                    old(ops)@,
                ),
            },
    {
        match self.client.take() {
            Some(client) => {
                let mut client = client;
                client.teardown(ops);
                self.client = Some(client);
            },
            None => {},
        }
    }

    /// Reports that the signal awaited in the disposal came, as
    /// [`XpcClient::handler_exited`] does.
    pub fn handler_exited(&mut self, ops: &mut Vec<NativeOp>)
        requires
            old(self).wf(),
        ensures
            final(self).wf(),
            final(self).name_bytes() == old(self).name_bytes(),
            match old(self).client() {
                Some(client) => final(self).client() matches Some(after) && after@
                    == client@.handler_exited().0 && ops_view(final(ops)@) == ops_view(old(ops)@)
                    + client@.handler_exited().1,
                None => final(self).client() is None && ops_view(final(ops)@) == ops_view(
                    old(ops)@,
                ),
            },
    {
        match self.client.take() {
            Some(client) => {
                let mut client = client;
                client.handler_exited(ops);
                self.client = Some(client);
            },
            None => {},
        }
    }
}

} // verus!
