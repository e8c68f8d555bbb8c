use super::codec::Codec;
use super::connection::{Connection, ConnectionView};
use super::error::ErrorKind;
use super::stream::Stream;
use vstd::prelude::*;

verus! {

/// The mathematical content of a [`Peer`].
pub struct PeerView {
    /// The address of the remote end.
    pub addr: Seq<char>,
    /// The connection to the remote end.
    pub connection: ConnectionView,
    /// Whether the peer is still connected.
    pub connected: bool,
    /// Why the peer was disconnected: the error that was fatal to its
    /// connection, or `None` if it is connected or was disconnected without
    /// one.
    pub fault: Option<ErrorKind>,
}

impl PeerView {
    /// The connection is well formed.
    pub open spec fn wf(self) -> bool {
        self.connection.wf()
    }

    /// A peer that was just connected over `connection`.
    pub open spec fn fresh(connection: ConnectionView) -> PeerView {
        PeerView { addr: connection.stream.addr, connection, connected: true, fault: None }
    }

    /// The peer after `disconnect`: a connected peer has its stream shut down,
    /// is connected no more and keeps the reason; a disconnected one stays as
    /// it is, whatever the reason given.
    pub open spec fn after_disconnect(self, reason: Option<ErrorKind>) -> PeerView {
        if self.connected {
            PeerView {
                connection: self.connection.after_shutdown(),
                connected: false,
                fault: reason,
                ..self
            }
        } else {
            self
        }
    }

    /// The peer after an operation on its connection ended with `error`:
    /// anything but `WouldBlock` is fatal and disconnects it.
    pub open spec fn after_outcome(self, error: Option<ErrorKind>) -> PeerView {
        match error {
            Some(kind) => if kind == ErrorKind::WouldBlock {
                self
            } else {
                self.after_disconnect(Some(kind))
            },
            None => self,
        }
    }

    /// What one call of `poll` does: the peer afterwards and the message, if
    /// one is complete. A disconnected peer is left alone; a connected one
    /// makes one attempt to receive, and is disconnected by any failure other
    /// than `WouldBlock`.
    pub open spec fn poll<R: Codec>(self) -> (PeerView, Option<R::V>) {
        if !self.connected {
            (self, None)
        } else {
            let (connection, outcome) = self.connection.receive::<R>();
            let next = PeerView { connection, ..self };
            match outcome {
                Ok(v) => (next, Some(v)),
                Err(kind) => (next.after_outcome(Some(kind)), None),
            }
        }
    }

    /// The peer after a message with encoding `payload` was sent to it. A
    /// message that no frame can hold is fatal to the connection, as any
    /// failure other than `WouldBlock` is.
    pub open spec fn after_send(self, payload: Seq<u8>) -> PeerView {
        if !self.connected {
            self
        } else {
            (PeerView { connection: self.connection.after_send(payload), ..self }).after_outcome(
                self.connection.send_error(payload),
            )
        }
    }

    /// The peer after a flush.
    pub open spec fn after_flush(self) -> PeerView {
        if !self.connected {
            self
        } else {
            (PeerView { connection: self.connection.after_flush(), ..self }).after_outcome(
                self.connection.write_error(),
            )
        }
    }

    /// The peer after the transport changed its stream to `stream`.
    pub open spec fn with_stream(self, stream: super::stream::StreamView) -> PeerView {
        PeerView { connection: ConnectionView { stream, ..self.connection }, ..self }
    }
}

/// Disconnecting is idempotent: a second `disconnect` changes nothing,
/// whatever reason it is given, and the reason of the first stays.
pub proof fn lemma_disconnect_idempotent(
    p: PeerView,
    first: Option<ErrorKind>,
    second: Option<ErrorKind>,
)
    ensures
        p.after_disconnect(first).after_disconnect(second) == p.after_disconnect(first),
        !p.after_disconnect(first).connected,
{
}

/// A disconnected peer is inert: polling it yields nothing, and neither
/// polling, sending, flushing nor disconnecting changes it.
pub proof fn lemma_disconnected_inert<R: Codec>(
    p: PeerView,
    payload: Seq<u8>,
    reason: Option<ErrorKind>,
)
    requires
        !p.connected,
    ensures
        p.poll::<R>() == (p, None::<R::V>),
        p.after_send(payload) == p,
        p.after_flush() == p,
        p.after_disconnect(reason) == p,
{
}

/// One connected counterpart: a connection, the address of its remote end,
/// and whether it is still connected. It receives messages of type `Received`
/// and is sent messages of type `Sent`.
#[derive(Debug)]
pub struct Peer<Sent: Codec, Received: Codec> {
    addr: String,
    connection: Connection<Sent, Received>,
    connected: bool,
    fault: Option<ErrorKind>,
}

impl<Sent: Codec, Received: Codec> View for Peer<Sent, Received> {
    type V = PeerView;

    closed spec fn view(&self) -> PeerView {
        PeerView {
            addr: self.addr@,
            connection: self.connection@,
            connected: self.connected,
            fault: self.fault,
        }
    }
}

impl<Sent: Codec, Received: Codec> Peer<Sent, Received> {
    /// The invariant of a peer. Every constructor establishes it and every
    /// method keeps it.
    pub open spec fn wf(&self) -> bool {
        self@.wf()
    }

    /// A connected peer over `stream`.
    pub fn new(stream: Stream) -> (p: Self)
        ensures
            p.wf(),
            p@ == PeerView::fresh(ConnectionView::fresh(stream@)),
    {
        let addr = stream.peer_addr();
        Peer { addr, connection: Connection::new(stream), connected: true, fault: None }
    }

    /// Returns the next message if one is complete. Returns `None` while none
    /// is, and also when the peer is or becomes disconnected.
    pub fn poll(&mut self) -> (res: Option<Received>)
        requires
            old(self).wf(),
        ensures
            final(self).wf(),
            final(self)@ == old(self)@.poll::<Received>().0,
            match old(self)@.poll::<Received>().1 {
                Some(v) => res matches Some(m) && m@ == v && Received::representable(v),
                None => res is None,
            },
    {
        if !self.connected {
            return None;
        }
        match self.connection.receive() {
            Ok(msg) => Some(msg),
            Err(kind) => {
                if kind != ErrorKind::WouldBlock {
                    self.disconnect(Some(kind));
                }
                None
            },
        }
    }

    /// Sends `message` to the peer, if it is connected. A failure other than
    /// `WouldBlock` disconnects it, and so does a message that no frame can
    /// hold.
    pub fn send(&mut self, message: &Sent)
        requires
            old(self).wf(),
            Sent::encoding(message@).len() <= usize::MAX,
        ensures
            final(self).wf(),
            final(self)@ == old(self)@.after_send(Sent::encoding(message@)),
    {
        if !self.connected {
            return ;
        }
        match self.connection.send(message) {
            Ok(()) => {},
            Err(kind) => {
                if kind != ErrorKind::WouldBlock {
                    self.disconnect(Some(kind));
                }
            },
        }
    }

    /// Flushes what was sent to the peer, if it is connected. A failure other
    /// than `WouldBlock` disconnects it.
    pub fn flush(&mut self)
        requires
            old(self).wf(),
        ensures
            final(self).wf(),
            final(self)@ == old(self)@.after_flush(),
    {
        if !self.connected {
            return ;
        }
        match self.connection.flush() {
            Ok(()) => {},
            Err(kind) => {
                if kind != ErrorKind::WouldBlock {
                    self.disconnect(Some(kind));
                }
            },
        }
    }

    /// Disconnects the peer for `reason`: shuts its stream down in both
    /// directions and keeps the reason. On a peer that is disconnected
    /// already this does nothing.
    pub fn disconnect(&mut self, reason: Option<ErrorKind>)
        requires
            old(self).wf(),
        ensures
            final(self).wf(),
            final(self)@ == old(self)@.after_disconnect(reason),
    {
        if !self.connected {
            return ;
        }
        self.connection.shutdown();
        self.connected = false;
        self.fault = reason;
    }

    /// Why the peer was disconnected: the error that was fatal to its
    /// connection, if there was one.
    pub fn fault(&self) -> (fault: Option<ErrorKind>)
        ensures
            fault == self@.fault,
    {
        self.fault
    }

    /// Whether the peer is still connected.
    pub fn connected(&self) -> (b: bool)
        ensures
            b == self@.connected,
    {
        self.connected
    }

    /// The address of the remote end.
    pub fn addr(&self) -> (addr: &String)
        ensures
            addr@ == self@.addr,
    {
        &self.addr
    }

    /// The stream of the peer.
    pub fn stream(&self) -> (s: &Stream)
        ensures
            s@ == self@.connection.stream,
    {
        self.connection.stream()
    }

    /// The stream of the peer, for the transport to deliver to and to carry
    /// away from.
    pub fn stream_mut(&mut self) -> (s: &mut Stream)
        ensures
            s@ == old(self)@.connection.stream,
            final(self)@ == old(self)@.with_stream(final(s)@),
    {
        self.connection.stream_mut()
    }
}

} // verus!
