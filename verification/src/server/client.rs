use crate::common::codec::Codec;
use crate::common::error::ErrorKind;
use crate::common::commands::{ClientCommand, ClientCommandView, ServerCommand};
use crate::common::peer::{Peer, PeerView};
use crate::common::stream::{Stream, StreamView};
use vstd::prelude::*;

verus! {

/// The mathematical content of a [`Client`].
pub struct ClientView {
    /// The connection to the client and whether it still stands.
    pub peer: PeerView,
    /// The identity that the server gave the client.
    pub user_id: u16,
}

impl ClientView {
    /// The peer is well formed.
    pub open spec fn wf(self) -> bool {
        self.peer.wf()
    }

    /// A client that was just accepted over `stream` and given `user_id`.
    pub open spec fn fresh(stream: StreamView, user_id: u16) -> ClientView {
        ClientView {
            peer: PeerView::fresh(crate::common::connection::ConnectionView::fresh(stream)),
            user_id,
        }
    }

    /// The client with its peer replaced; the identity stays.
    pub open spec fn with_peer(self, peer: PeerView) -> ClientView {
        ClientView { peer, ..self }
    }

    /// What one call of `poll` does: the client afterwards and the command, if
    /// one is complete.
    pub open spec fn poll(self) -> (ClientView, Option<ClientCommandView>) {
        (self.with_peer(self.peer.poll::<ClientCommand>().0), self.peer.poll::<ClientCommand>().1)
    }

    /// The client after a command with encoding `payload` was sent to it.
    pub open spec fn after_send(self, payload: Seq<u8>) -> ClientView {
        self.with_peer(self.peer.after_send(payload))
    }

    /// The client after a flush.
    pub open spec fn after_flush(self) -> ClientView {
        self.with_peer(self.peer.after_flush())
    }

    /// The client is connected and at rest: its connection waits for bytes,
    /// its stream is open, holds nothing unread and takes writes.
    pub open spec fn quiet(self) -> bool {
        &&& self.wf()
        &&& self.peer.connected
        &&& self.peer.connection.mode != crate::common::connection::ReadMode::Parse
        &&& self.peer.connection.buffer.missing() > 0
        &&& self.peer.connection.stream.unread.len() == 0
        &&& self.peer.connection.stream.link == crate::common::stream::LinkState::Open
        &&& !self.peer.connection.stream.shut_down
    }

    /// The client is connected and awaits a frame, its stream takes writes,
    /// and the unread bytes of its stream are the frame of `cmd` followed by
    /// `rest`.
    pub open spec fn holds(self, cmd: ClientCommandView, rest: Seq<u8>) -> bool {
        &&& self.peer.connected
        &&& self.peer.connection.awaits_frame()
        &&& self.peer.connection.write_error() is None
        &&& ClientCommand::representable(cmd)
        &&& ClientCommand::encoding(cmd).len() <= crate::common::codec::MAX_LEN
        &&& self.peer.connection.stream.unread == crate::common::connection::frame(
            ClientCommand::encoding(cmd),
        ) + rest
    }

    /// The client after `disconnect` for `reason`.
    pub open spec fn after_disconnect(self, reason: Option<ErrorKind>) -> ClientView {
        self.with_peer(self.peer.after_disconnect(reason))
    }
}

/// A client as the server sees it: a peer that sends client commands and is
/// sent server commands, with the identity that the server gave it.
#[derive(Debug)]
pub struct Client {
    peer: Peer<ServerCommand, ClientCommand>,
    user_id: u16,
}

impl View for Client {
    type V = ClientView;

    closed spec fn view(&self) -> ClientView {
        ClientView { peer: self.peer@, user_id: self.user_id }
    }
}

impl Client {
    /// The invariant of a client. Every constructor establishes it and every
    /// method keeps it.
    pub open spec fn wf(&self) -> bool {
        self@.wf()
    }

    /// A connected client over `stream`, with the identity `user_id`.
    pub fn new(stream: Stream, user_id: u16) -> (c: Self)
        ensures
            c.wf(),
            c@ == ClientView::fresh(stream@, user_id),
    {
        Client { peer: Peer::new(stream), user_id }
    }

    /// Returns the next command of the client if one is complete. Returns
    /// `None` while none is, and also when the client is or becomes
    /// disconnected.
    pub fn poll(&mut self) -> (res: Option<ClientCommand>)
        requires
            old(self).wf(),
        ensures
            final(self).wf(),
            final(self)@ == old(self)@.poll().0,
            match old(self)@.poll().1 {
                Some(v) => res matches Some(m) && m@ == v && ClientCommand::representable(v),
                None => res is None,
            },
    {
        self.peer.poll()
    }

    /// Sends `message` to the client, if it is connected. A failure other than
    /// `WouldBlock` disconnects it, and so does a message that no frame can
    /// hold.
    pub fn send(&mut self, message: &ServerCommand)
        requires
            old(self).wf(),
            ServerCommand::encoding(message@).len() <= usize::MAX,
        ensures
            final(self).wf(),
            final(self)@ == old(self)@.after_send(ServerCommand::encoding(message@)),
    {
        self.peer.send(message);
    }

    /// Flushes what was sent to the client, if it is connected. A failure
    /// other than `WouldBlock` disconnects it.
    pub fn flush(&mut self)
        requires
            old(self).wf(),
        ensures
            final(self).wf(),
            final(self)@ == old(self)@.after_flush(),
    {
        self.peer.flush();
    }

    /// Disconnects the client for `reason`. On a client that is disconnected
    /// already this does nothing.
    pub fn disconnect(&mut self, reason: Option<ErrorKind>)
        requires
            old(self).wf(),
        ensures
            final(self).wf(),
            final(self)@ == old(self)@.after_disconnect(reason),
    {
        self.peer.disconnect(reason);
    }

    /// Why the connection was lost: the error that was fatal to it, if there
    /// was one.
    pub fn fault(&self) -> (fault: Option<ErrorKind>)
        ensures
            fault == self@.peer.fault,
    {
        self.peer.fault()
    }

    /// Whether the client is still connected.
    pub fn connected(&self) -> (b: bool)
        ensures
            b == self@.peer.connected,
    {
        self.peer.connected()
    }

    /// The identity that the server gave the client.
    pub fn user_id(&self) -> (id: u16)
        ensures
            id == self@.user_id,
    {
        self.user_id
    }

    /// The address of the client.
    pub fn addr(&self) -> (addr: &String)
        ensures
            addr@ == self@.peer.addr,
    {
        self.peer.addr()
    }

    /// The stream of the client.
    pub fn stream(&self) -> (s: &Stream)
        ensures
            s@ == self@.peer.connection.stream,
    {
        self.peer.stream()
    }

    /// The stream of the client, for the transport to deliver to and to carry
    /// away from.
    pub fn stream_mut(&mut self) -> (s: &mut Stream)
        ensures
            s@ == old(self)@.peer.connection.stream,
            final(self)@ == old(self)@.with_peer(old(self)@.peer.with_stream(final(s)@)),
    {
        self.peer.stream_mut()
    }
}

/// A quiet client yields nothing when polled, and stays as it is.
pub proof fn lemma_quiet_poll(c: ClientView)
    requires
        c.quiet(),
    ensures
        c.poll() == (c, None::<ClientCommandView>),
        c.peer.connection.write_error() is None,
{
    crate::common::connection::lemma_receive_nothing::<ClientCommand>(c.peer.connection);
}

/// A client that holds the frame of a command yields that command when
/// polled. It stays connected and awaits the next frame, its stream holds
/// what followed the frame, and nothing else of its stream changes.
pub proof fn lemma_holding_poll(c: ClientView, cmd: ClientCommandView, rest: Seq<u8>)
    requires
        c.holds(cmd, rest),
    ensures
        c.poll().1 == Some(cmd),
        c.poll().0.peer.connected,
        c.poll().0.user_id == c.user_id,
        c.poll().0.peer.connection.awaits_frame(),
        c.poll().0.peer.connection.stream == (StreamView {
            unread: rest,
            ..c.peer.connection.stream
        }),
{
    crate::common::connection::lemma_receive_frame::<ClientCommand>(c.peer.connection, cmd, rest);
}

} // verus!
