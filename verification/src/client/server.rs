use crate::common::codec::Codec;
use crate::common::error::ErrorKind;
use crate::common::commands::{ClientCommand, ServerCommand};
use crate::common::connection::ConnectionView;
use crate::common::peer::{Peer, PeerView};
use crate::common::stream::Stream;
use vstd::prelude::*;

verus! {

/// The server as a client sees it: a peer that sends server commands and is
/// sent client commands.
#[derive(Debug)]
pub struct Server {
    peer: Peer<ClientCommand, ServerCommand>,
}

impl View for Server {
    type V = PeerView;

    closed spec fn view(&self) -> PeerView {
        self.peer@
    }
}

impl Server {
    /// The invariant of the handle. Every constructor establishes it and
    /// every method keeps it.
    pub open spec fn wf(&self) -> bool {
        self@.wf()
    }

    /// A connected handle over `stream`.
    pub fn new(stream: Stream) -> (s: Self)
        ensures
            s.wf(),
            s@ == PeerView::fresh(ConnectionView::fresh(stream@)),
    {
        Server { peer: Peer::new(stream) }
    }

    /// Returns the next command of the server if one is complete. Returns
    /// `None` while none is, and also when the server is or becomes
    /// disconnected.
    pub fn poll(&mut self) -> (res: Option<ServerCommand>)
        requires
            old(self).wf(),
        ensures
            final(self).wf(),
            final(self)@ == old(self)@.poll::<ServerCommand>().0,
            match old(self)@.poll::<ServerCommand>().1 {
                Some(v) => res matches Some(m) && m@ == v && ServerCommand::representable(v),
                None => res is None,
            },
    {
        self.peer.poll()
    }

    /// Sends `message` to the server, if it is connected. A failure other
    /// than `WouldBlock` disconnects it, and so does a message that no frame
    /// can hold.
    pub fn send(&mut self, message: &ClientCommand)
        requires
            old(self).wf(),
            ClientCommand::encoding(message@).len() <= usize::MAX,
        ensures
            final(self).wf(),
            final(self)@ == old(self)@.after_send(ClientCommand::encoding(message@)),
    {
        self.peer.send(message);
    }

    /// Flushes what was sent to the server, if it is connected. A failure
    /// other than `WouldBlock` disconnects it.
    pub fn flush(&mut self)
        requires
            old(self).wf(),
        ensures
            final(self).wf(),
            final(self)@ == old(self)@.after_flush(),
    {
        self.peer.flush();
    }

    /// Disconnects from the server for `reason`. On a handle that is
    /// disconnected already this does nothing.
    pub fn disconnect(&mut self, reason: Option<ErrorKind>)
        requires
            old(self).wf(),
        ensures
            final(self).wf(),
            final(self)@ == old(self)@.after_disconnect(reason),
    {
        self.peer.disconnect(reason);
    }

    /// Why the connection was lost: the error that was fatal to it, if there
    /// was one.
    pub fn fault(&self) -> (fault: Option<ErrorKind>)
        ensures
            fault == self@.fault,
    {
        self.peer.fault()
    }

    /// Whether the server is still connected.
    pub fn connected(&self) -> (b: bool)
        ensures
            b == self@.connected,
    {
        self.peer.connected()
    }

    /// The address of the server.
    pub fn addr(&self) -> (addr: &String)
        ensures
            addr@ == self@.addr,
    {
        self.peer.addr()
    }

    /// The stream to the server.
    pub fn stream(&self) -> (s: &Stream)
        ensures
            s@ == self@.connection.stream,
    {
        self.peer.stream()
    }

    /// The stream to the server, for the transport to deliver to and to carry
    /// away from.
    pub fn stream_mut(&mut self) -> (s: &mut Stream)
        ensures
            s@ == old(self)@.connection.stream,
            final(self)@ == old(self)@.with_stream(final(s)@),
            old(self).wf() ==> final(self).wf(),
    {
        self.peer.stream_mut()
    }
}

} // verus!
