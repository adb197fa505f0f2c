//! The core of a bridge between a callback-driven transport for messages
//! between processes and a stream of messages that is pulled.
//!
//! The library holds what such a bridge decides and computes:
//!
//! - the codec between the transport's dynamically typed objects and
//!   [`Message`], in [`codec`];
//! - the queue that carries the events of a connection from the transport's
//!   event handler to the consumer of the stream, and the life of the
//!   connection from its activation to the release of its handle, in
//!   [`client`];
//! - the listener, which accepts clients and holds their peers to a
//!   requirement on their code signature, in [`listener`].
//!
//! The library makes no native call. A native object comes in as an
//! [`XpcObject`], which holds what the transport's accessors report, and
//! goes out as one. What is to be done to a native handle is appended to a
//! list of [`NativeOp`], which the driver of the transport performs in order.
//! What happens on a handle reaches the library as a call: an event that
//! its handler decoded, a request of the stream's consumer, the signal that
//! the last call of a handler is over.

pub mod client;
pub mod codec;
pub mod connection;
pub mod date;
pub mod listener;
pub mod message;
pub mod object;
pub mod text;
pub mod transport;

pub use client::XpcClient;
pub use codec::{message_to_xpc_object, xpc_object_to_message};
pub use connection::XpcConnection;
pub use listener::XpcListener;
pub use message::{Dictionary, Message, MessageError};
pub use object::{
    xpc_object_to_xpctype, ArrayEntry, DictionaryEntry, XpcErrorObject, XpcObject, XpcType,
};
pub use transport::{ConnectionState, EventHandler, MachService, NativeOp, Poll, TargetQueue};
