//! The wire protocol shared by both sides: error kinds, in-memory streams,
//! the framed buffer, the codec and the framing state machine.

pub mod buffer;
pub mod codec;
pub mod commands;
pub mod connection;
pub mod error;
pub mod peer;
pub mod stream;

pub use buffer::{Buffer, BufferView};
pub use codec::Codec;
pub use commands::{ClientCommand, ClientCommandView, ServerCommand, ServerCommandView};
pub use connection::{Connection, ConnectionView, ReadMode};
pub use error::ErrorKind;
pub use peer::{Peer, PeerView};
pub use stream::{LinkState, Stream, StreamView};
