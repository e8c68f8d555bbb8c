use super::error::ErrorKind;
use vstd::prelude::*;

verus! {

/// What the transport behind a stream has reported so far.
#[derive(Clone, Copy, Debug, PartialEq, Eq, Structural)]
pub enum LinkState {
    /// More bytes may still arrive.
    Open,
    /// The remote end has closed: no byte will follow those already delivered.
    Closed,
    /// The transport failed with this kind of error.
    Failed(ErrorKind),
}

/// The mathematical content of a [`Stream`].
pub struct StreamView {
    /// The address of the remote end.
    pub addr: Seq<char>,
    /// Bytes that arrived and were not read yet, oldest first.
    pub unread: Seq<u8>,
    /// What the transport has reported.
    pub link: LinkState,
    /// Bytes written and not flushed yet.
    pub buffered: Seq<u8>,
    /// Bytes flushed and not yet taken over by the transport, oldest first.
    pub departing: Seq<u8>,
    /// Whether the stream was shut down from this side.
    pub shut_down: bool,
}

impl StreamView {
    /// A fresh stream to `addr`: open, with nothing in either direction.
    pub open spec fn fresh(addr: Seq<char>) -> StreamView {
        StreamView {
            addr,
            unread: Seq::empty(),
            link: LinkState::Open,
            buffered: Seq::empty(),
            departing: Seq::empty(),
            shut_down: false,
        }
    }

    /// The number of bytes that a read of at most `max` bytes takes.
    pub open spec fn read_len(self, max: nat) -> nat {
        if self.shut_down {
            0
        } else if self.unread.len() <= max {
            self.unread.len()
        } else {
            max
        }
    }

    /// What a non-blocking read of at most `max` bytes returns. Unread bytes
    /// come first. With none left, an open link would block, a closed one
    /// yields no bytes, a failed one yields its error. A read of no bytes, or
    /// on a stream that was shut down, yields no bytes.
    pub open spec fn read_result(self, max: nat) -> Result<Seq<u8>, ErrorKind> {
        if self.read_len(max) > 0 || max == 0 || self.shut_down {
            Ok(self.unread.take(self.read_len(max) as int))
        } else {
            match self.link {
                LinkState::Open => Err(ErrorKind::WouldBlock),
                LinkState::Closed => Ok(Seq::empty()),
                LinkState::Failed(kind) => Err(kind),
            }
        }
    }

    /// The stream after a read of at most `max` bytes.
    pub open spec fn after_read(self, max: nat) -> StreamView {
        StreamView { unread: self.unread.skip(self.read_len(max) as int), ..self }
    }

    /// The error, if any, with which a write or a flush is refused.
    pub open spec fn write_error(self) -> Option<ErrorKind> {
        if self.shut_down {
            Some(ErrorKind::BrokenPipe)
        } else {
            match self.link {
                LinkState::Failed(kind) => Some(kind),
                _ => None,
            }
        }
    }

    /// The stream after `bytes` were written to it.
    pub open spec fn after_write(self, bytes: Seq<u8>) -> StreamView {
        if self.write_error() is Some {
            self
        } else {
            StreamView { buffered: self.buffered + bytes, ..self }
        }
    }

    /// The stream after a flush: what was buffered is now departing.
    pub open spec fn after_flush(self) -> StreamView {
        if self.write_error() is Some {
            self
        } else {
            StreamView {
                buffered: Seq::empty(),
                departing: self.departing + self.buffered,
                ..self
            }
        }
    }

    /// The stream after it was shut down.
    pub open spec fn after_shutdown(self) -> StreamView {
        StreamView { shut_down: true, ..self }
    }

    /// The stream after the transport delivered `bytes`.
    pub open spec fn after_deliver(self, bytes: Seq<u8>) -> StreamView {
        StreamView { unread: self.unread + bytes, ..self }
    }

    /// The stream after the remote end closed it. A failure that was reported
    /// before stays.
    pub open spec fn after_close(self) -> StreamView {
        StreamView {
            link: if self.link is Failed {
                self.link
            } else {
                LinkState::Closed
            },
            ..self
        }
    }

    /// The stream after the transport failed with `kind`.
    pub open spec fn after_fail(self, kind: ErrorKind) -> StreamView {
        StreamView { link: LinkState::Failed(kind), ..self }
    }

    /// The stream after the transport took over the first `n` departing bytes,
    /// or all of them if there are fewer.
    pub open spec fn after_depart(self, n: nat) -> StreamView {
        StreamView {
            departing: if n <= self.departing.len() {
                self.departing.skip(n as int)
            } else {
                Seq::empty()
            },
            ..self
        }
    }
}

/// One end of an ordered byte stream, held in memory.
///
/// The library reads, writes, flushes and shuts down as it would on a
/// non-blocking socket. The program around it moves the bytes: it delivers what
/// the transport received, carries away what is departing, and reports when the
/// remote end closed or the transport failed.
#[derive(Debug)]
pub struct Stream {
    addr: String,
    unread: Vec<u8>,
    link: LinkState,
    buffered: Vec<u8>,
    departing: Vec<u8>,
    shut_down: bool,
}

impl View for Stream {
    type V = StreamView;

    closed spec fn view(&self) -> StreamView {
        StreamView {
            addr: self.addr@,
            unread: self.unread@,
            link: self.link,
            buffered: self.buffered@,
            departing: self.departing@,
            shut_down: self.shut_down,
        }
    }
}

/// Appends a copy of `bytes` to `v`.
pub(crate) fn append_bytes(v: &mut Vec<u8>, bytes: &[u8])
    ensures
        final(v)@ == old(v)@ + bytes@,
{
    let mut i: usize = 0;
    while i < bytes.len()
        invariant
            i <= bytes.len(),
            v@ == old(v)@ + bytes@.take(i as int),
        decreases bytes.len() - i,
    {
        v.push(bytes[i]);
        i = i + 1;
        assert(bytes@.take(i as int) == bytes@.take(i as int - 1).push(bytes@[i as int - 1]));
    }
    assert(bytes@.take(i as int) == bytes@);
}

/// Removes the first `n` bytes of `v` and returns them.
pub(crate) fn take_front(v: &mut Vec<u8>, n: usize) -> (head: Vec<u8>)
    requires
        n <= old(v)@.len(),
    ensures
        head@ == old(v)@.take(n as int),
        final(v)@ == old(v)@.skip(n as int),
{
    let tail = v.split_off(n);
    let mut head = tail;
    core::mem::swap(&mut head, v);
    head
}

impl Stream {
    /// A fresh stream to the remote end at `addr`.
    pub fn new(addr: String) -> (s: Self)
        ensures
            s@ == StreamView::fresh(addr@),
    {
        Stream {
            addr,
            unread: Vec::new(),
            link: LinkState::Open,
            buffered: Vec::new(),
            departing: Vec::new(),
            shut_down: false,
        }
    }

    /// The address of the remote end.
    pub fn peer_addr(&self) -> (addr: String)
        ensures
            addr@ == self@.addr,
    {
        self.addr.clone()
    }

    /// Reads at most `max` bytes without blocking.
    pub fn read(&mut self, max: usize) -> (r: Result<Vec<u8>, ErrorKind>)
        ensures
            final(self)@ == old(self)@.after_read(max as nat),
            match r {
                Ok(bytes) => old(self)@.read_result(max as nat) == Ok::<Seq<u8>, ErrorKind>(bytes@),
                Err(kind) => old(self)@.read_result(max as nat) == Err::<Seq<u8>, ErrorKind>(kind),
            },
    {
        let available = self.unread.len();
        let n = if self.shut_down {
            0
        } else if available <= max {
            available
        } else {
            max
        };
        assert(self.unread@.skip(0) == self.unread@);
        if n > 0 || max == 0 || self.shut_down {
            Ok(take_front(&mut self.unread, n))
        } else {
            match self.link {
                LinkState::Open => Err(ErrorKind::WouldBlock),
                LinkState::Closed => Ok(Vec::new()),
                LinkState::Failed(kind) => Err(kind),
            }
        }
    }

    /// Writes all of `bytes` into the stream's buffer, unless the stream
    /// refuses writes.
    pub fn write_all(&mut self, bytes: &[u8]) -> (r: Result<(), ErrorKind>)
        ensures
            final(self)@ == old(self)@.after_write(bytes@),
            match old(self)@.write_error() {
                Some(kind) => r == Err::<(), ErrorKind>(kind),
                None => r is Ok,
            },
    {
        if self.shut_down {
            return Err(ErrorKind::BrokenPipe);
        }
        match self.link {
            LinkState::Failed(kind) => Err(kind),
            _ => {
                append_bytes(&mut self.buffered, bytes);
                Ok(())
            },
        }
    }

    /// Hands what is buffered to the transport, unless the stream refuses
    /// writes.
    pub fn flush(&mut self) -> (r: Result<(), ErrorKind>)
        ensures
            final(self)@ == old(self)@.after_flush(),
            match old(self)@.write_error() {
                Some(kind) => r == Err::<(), ErrorKind>(kind),
                None => r is Ok,
            },
    {
        if self.shut_down {
            return Err(ErrorKind::BrokenPipe);
        }
        match self.link {
            LinkState::Failed(kind) => Err(kind),
            _ => {
                self.departing.append(&mut self.buffered);
                Ok(())
            },
        }
    }

    /// Shuts the stream down in both directions.
    pub fn shutdown(&mut self)
        ensures
            final(self)@ == old(self)@.after_shutdown(),
    {
        self.shut_down = true;
    }

    /// Whether the stream was shut down from this side.
    pub fn is_shut_down(&self) -> (b: bool)
        ensures
            b == self@.shut_down,
    {
        self.shut_down
    }

    /// The number of bytes that arrived and were not read yet.
    pub fn unread_len(&self) -> (n: usize)
        ensures
            n == self@.unread.len(),
    {
        self.unread.len()
    }

    /// Takes in bytes that the transport received.
    pub fn deliver(&mut self, bytes: &[u8])
        ensures
            final(self)@ == old(self)@.after_deliver(bytes@),
    {
        append_bytes(&mut self.unread, bytes);
    }

    /// Records that the remote end has closed the stream. A failure that was
    /// reported before stays.
    pub fn close(&mut self)
        ensures
            final(self)@ == old(self)@.after_close(),
    {
        match self.link {
            LinkState::Failed(_) => {},
            _ => {
                self.link = LinkState::Closed;
            },
        }
    }

    /// Records that the transport failed with `kind`.
    pub fn fail(&mut self, kind: ErrorKind)
        ensures
            final(self)@ == old(self)@.after_fail(kind),
    {
        self.link = LinkState::Failed(kind);
    }

    /// A copy of the bytes that wait to be carried away, oldest first.
    pub fn departing(&self) -> (bytes: Vec<u8>)
        ensures
            bytes@ == self@.departing,
    {
        self.departing.clone()
    }

    /// Drops the first `n` departing bytes, or all of them if there are fewer:
    /// the transport has taken them over.
    pub fn depart(&mut self, n: usize)
        ensures
            final(self)@ == old(self)@.after_depart(n as nat),
    {
        if n <= self.departing.len() {
            let _ = take_front(&mut self.departing, n);
        } else {
            self.departing.clear();
        }
    }
}

} // verus!
