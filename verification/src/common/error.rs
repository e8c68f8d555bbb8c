use vstd::prelude::*;

verus! {

/// Why an operation on a stream, a buffer or a codec did not complete.
#[derive(Clone, Copy, Debug, PartialEq, Eq, Structural)]
pub enum ErrorKind {
    /// Nothing is wrong, but the operation cannot finish yet: try again later.
    WouldBlock,
    /// The bytes ended before the value that was being read was complete.
    UnexpectedEof,
    /// The bytes do not form a value of the protocol.
    InvalidData,
    /// The remote end reset the connection.
    ConnectionReset,
    /// The connection was aborted.
    ConnectionAborted,
    /// The stream was written to after it had been shut down.
    BrokenPipe,
    /// No identity is left to give out.
    Exhausted,
    /// Any other failure of the transport.
    Other,
}

} // verus!
