use super::buffer::{Buffer, BufferView};
use super::codec::{be16, be16_value, len_prefix, Codec, MAX_LEN};
use super::error::ErrorKind;
use super::stream::{Stream, StreamView};
use core::marker::PhantomData;
use vstd::prelude::*;

verus! {

/// The number of bytes of the length prefix of a frame.
pub const PREFIX_LEN: usize = 2;

/// Where the framing state machine stands.
#[derive(Clone, Copy, Debug, PartialEq, Eq, Structural)]
pub enum ReadMode {
    /// The buffer waits for the length prefix of the next frame.
    Size,
    /// The buffer waits for the payload, whose length is known.
    Data,
    /// The buffer holds a whole payload, ready to be decoded.
    Parse,
}

/// One message as it travels: the length of its encoding as a prefix, then the
/// encoding. Only an encoding of at most [`MAX_LEN`] bytes has a frame.
pub open spec fn frame(payload: Seq<u8>) -> Seq<u8>
    recommends
        payload.len() <= MAX_LEN,
{
    be16(len_prefix(payload.len())) + payload
}

/// The mathematical content of a [`Connection`].
pub struct ConnectionView {
    /// The stream the connection reads from and writes to.
    pub stream: StreamView,
    /// The buffer in which the next prefix or payload is gathered.
    pub buffer: BufferView,
    /// Where the framing state machine stands.
    pub mode: ReadMode,
}

impl ConnectionView {
    /// The buffer is well formed, and while it waits for a length prefix it is
    /// exactly as long as one.
    pub open spec fn wf(self) -> bool {
        &&& self.buffer.wf()
        &&& self.mode == ReadMode::Size ==> self.buffer.data.len() == PREFIX_LEN
    }

    /// A connection over `stream` that waits for its first frame.
    pub open spec fn fresh(stream: StreamView) -> ConnectionView {
        ConnectionView {
            stream,
            buffer: BufferView { data: Seq::empty(), cursor: 0 }.resized(PREFIX_LEN as nat),
            mode: ReadMode::Size,
        }
    }

    /// With a whole payload in the buffer: the payload is decoded, and must
    /// hold one value and nothing after it. Either way the machine goes back to
    /// waiting for a length prefix.
    pub open spec fn parse_phase<R: Codec>(self) -> (ConnectionView, Result<R::V, ErrorKind>) {
        let next = ConnectionView {
            buffer: self.buffer.resized(PREFIX_LEN as nat),
            mode: ReadMode::Size,
            ..self
        };
        match R::parse(self.buffer.unread()).0 {
            Ok(v) => if R::parse(self.buffer.unread()).1 == self.buffer.missing() {
                (next, Ok(v))
            } else {
                (next, Err(ErrorKind::InvalidData))
            },
            Err(kind) => (next, Err(kind)),
        }
    }

    /// While the payload is awaited: one attempt to fill the buffer. When that
    /// completes the payload, the machine goes on to decode it.
    pub open spec fn data_phase<R: Codec>(self) -> (ConnectionView, Result<R::V, ErrorKind>) {
        let filled = ConnectionView {
            stream: self.stream.after_read(self.buffer.missing()),
            buffer: self.buffer.after_fill(self.stream),
            ..self
        };
        match self.buffer.fill_result(self.stream) {
            Err(kind) => (filled, Err(kind)),
            Ok(_) => (ConnectionView { mode: ReadMode::Parse, ..filled }).parse_phase::<R>(),
        }
    }

    /// While the length prefix is awaited: one attempt to fill the buffer. When
    /// that completes the prefix, the buffer is resized to the length it gives
    /// and the machine goes on to await the payload.
    pub open spec fn size_phase<R: Codec>(self) -> (ConnectionView, Result<R::V, ErrorKind>) {
        let filled = ConnectionView {
            stream: self.stream.after_read(self.buffer.missing()),
            buffer: self.buffer.after_fill(self.stream),
            ..self
        };
        match self.buffer.fill_result(self.stream) {
            Err(kind) => (filled, Err(kind)),
            Ok(_) => {
                let len = be16_value(filled.buffer.data[0], filled.buffer.data[1]);
                (ConnectionView {
                    buffer: filled.buffer.resized(len as nat),
                    mode: ReadMode::Data,
                    ..filled
                }).data_phase::<R>()
            },
        }
    }

    /// What one call of `receive` does: the connection afterwards, and the
    /// message or the reason why there is none.
    #[verifier::opaque]
    pub open spec fn receive<R: Codec>(self) -> (ConnectionView, Result<R::V, ErrorKind>) {
        match self.mode {
            ReadMode::Size => self.size_phase::<R>(),
            ReadMode::Data => self.data_phase::<R>(),
            ReadMode::Parse => self.parse_phase::<R>(),
        }
    }

    /// The error, if any, with which `flush` is refused.
    pub open spec fn write_error(self) -> Option<ErrorKind> {
        self.stream.write_error()
    }

    /// The error, if any, with which a message with encoding `payload` is
    /// refused: a payload too long for a frame is invalid data, whatever the
    /// stream; any other is refused as the stream refuses writes.
    pub open spec fn send_error(self, payload: Seq<u8>) -> Option<ErrorKind> {
        if payload.len() > MAX_LEN {
            Some(ErrorKind::InvalidData)
        } else {
            self.stream.write_error()
        }
    }

    /// The connection after a message with encoding `payload` was sent: its
    /// frame is written behind what was written before, unless the message is
    /// refused.
    pub open spec fn after_send(self, payload: Seq<u8>) -> ConnectionView {
        if payload.len() > MAX_LEN {
            self
        } else {
            ConnectionView { stream: self.stream.after_write(frame(payload)), ..self }
        }
    }

    /// The connection after a flush.
    pub open spec fn after_flush(self) -> ConnectionView {
        ConnectionView { stream: self.stream.after_flush(), ..self }
    }

    /// The connection after its stream was shut down.
    pub open spec fn after_shutdown(self) -> ConnectionView {
        ConnectionView { stream: self.stream.after_shutdown(), ..self }
    }
}

/// A stream together with the framing state machine that turns its bytes into
/// messages of type `Received`, and that frames messages of type `Sent`.
#[derive(Debug)]
pub struct Connection<Sent: Codec, Received: Codec> {
    stream: Stream,
    _sent: PhantomData<Sent>,
    _received: PhantomData<Received>,
    buffer: Buffer,
    read_mode: ReadMode,
}

impl<Sent: Codec, Received: Codec> View for Connection<Sent, Received> {
    type V = ConnectionView;

    closed spec fn view(&self) -> ConnectionView {
        ConnectionView { stream: self.stream@, buffer: self.buffer@, mode: self.read_mode }
    }
}

impl<Sent: Codec, Received: Codec> Connection<Sent, Received> {
    /// The invariant of a connection. Every constructor establishes it and
    /// every method keeps it.
    pub open spec fn wf(&self) -> bool {
        self@.wf()
    }

    /// A connection over `stream` that waits for its first frame.
    pub fn new(stream: Stream) -> (c: Self)
        ensures
            c.wf(),
            c@ == ConnectionView::fresh(stream@),
    {
        let mut buffer = Buffer::new();
        buffer.resize(PREFIX_LEN);
        Connection {
            stream,
            _sent: PhantomData,
            _received: PhantomData,
            buffer,
            read_mode: ReadMode::Size,
        }
    }

    /// Makes as much progress on the next frame as the unread bytes of the
    /// stream allow, without blocking. Returns the message when a frame is
    /// complete and holds exactly one; `WouldBlock` when bytes are still
    /// missing; any other error when the stream or the frame is broken.
    pub fn receive(&mut self) -> (res: Result<Received, ErrorKind>)
        requires
            old(self).wf(),
        ensures
            final(self).wf(),
            final(self)@ == old(self)@.receive::<Received>().0,
            match old(self)@.receive::<Received>().1 {
                Ok(v) => res matches Ok(m) && m@ == v && Received::representable(v),
                Err(kind) => res matches Err(k) && k == kind,
            },
    {
        loop
            invariant
                self.wf(),
                self@.receive::<Received>() == old(self)@.receive::<Received>(),
            decreases
                    match self.read_mode {
                        ReadMode::Size => 2int,
                        ReadMode::Data => 1int,
                        ReadMode::Parse => 0int,
                    },
        {
            reveal(ConnectionView::receive);
            match self.read_mode {
                ReadMode::Size => {
                    match self.buffer.try_fill_from(&mut self.stream) {
                        Ok(()) => {},
                        Err(kind) => {
                            return Err(kind);
                        },
                    }
                    let ghost filled = self.buffer@;
                    assert(filled.unread() =~= filled.data);
                    let data_size = match u16::decode(&mut self.buffer) {
                        Ok(data_size) => data_size,
                        Err(kind) => {
                            return Err(kind);
                        },
                    };
                    self.buffer.resize(data_size as usize);
                    self.read_mode = ReadMode::Data;
                },
                ReadMode::Data => {
                    match self.buffer.try_fill_from(&mut self.stream) {
                        Ok(()) => {},
                        Err(kind) => {
                            return Err(kind);
                        },
                    }
                    self.read_mode = ReadMode::Parse;
                },
                ReadMode::Parse => {
                    proof {
                        Received::lemma_parse_bounds(self.buffer@.unread());
                    }
                    let decoded = Received::decode(&mut self.buffer);
                    let complete = self.buffer.finished();
                    self.buffer.resize(PREFIX_LEN);
                    self.read_mode = ReadMode::Size;
                    return match decoded {
                        Ok(message) => if complete {
                            Ok(message)
                        } else {
                            Err(ErrorKind::InvalidData)
                        },
                        Err(kind) => Err(kind),
                    };
                },
            }
        }
    }

    /// Writes `msg` as one frame into the stream's buffer. A message whose
    /// encoding is longer than a frame can announce is refused as invalid data
    /// and nothing is written; any other is refused only as the stream refuses
    /// writes.
    pub fn send(&mut self, msg: &Sent) -> (res: Result<(), ErrorKind>)
        requires
            old(self).wf(),
            Sent::encoding(msg@).len() <= usize::MAX,
        ensures
            final(self).wf(),
            final(self)@ == old(self)@.after_send(Sent::encoding(msg@)),
            match old(self)@.send_error(Sent::encoding(msg@)) {
                Some(kind) => res == Err::<(), ErrorKind>(kind),
                None => res is Ok,
            },
    {
        let size = msg.coded_size();
        if size > MAX_LEN {
            return Err(ErrorKind::InvalidData);
        }
        proof {
            Sent::lemma_short_is_representable(msg@);
        }
        let data_size = size as u16;
        let mut bytes: Vec<u8> = Vec::new();
        data_size.code(&mut bytes);
        msg.code(&mut bytes);
        assert(bytes@ =~= frame(Sent::encoding(msg@)));
        self.stream.write_all(bytes.as_slice())
    }

    /// Hands what was sent to the transport, unless the stream refuses writes.
    pub fn flush(&mut self) -> (res: Result<(), ErrorKind>)
        requires
            old(self).wf(),
        ensures
            final(self).wf(),
            final(self)@ == old(self)@.after_flush(),
            match old(self)@.write_error() {
                Some(kind) => res == Err::<(), ErrorKind>(kind),
                None => res is Ok,
            },
    {
        self.stream.flush()
    }

    /// Shuts the stream down in both directions.
    pub fn shutdown(&mut self)
        requires
            old(self).wf(),
        ensures
            final(self).wf(),
            final(self)@ == old(self)@.after_shutdown(),
    {
        self.stream.shutdown();
    }

    /// The stream of the connection.
    pub fn stream(&self) -> (s: &Stream)
        ensures
            s@ == self@.stream,
    {
        &self.stream
    }

    /// The stream of the connection, for the transport to deliver to and to
    /// carry away from.
    pub fn stream_mut(&mut self) -> (s: &mut Stream)
        ensures
            s@ == old(self)@.stream,
            final(self)@ == (ConnectionView { stream: final(s)@, ..old(self)@ }),
    {
        &mut self.stream
    }
}

impl ConnectionView {
    /// The connection waits for a new frame and has taken none of its bytes
    /// yet; its stream is open and holds nothing unread.
    pub open spec fn idle(self) -> bool {
        &&& self.wf()
        &&& self.mode == ReadMode::Size
        &&& self.buffer.cursor == 0
        &&& self.stream.unread.len() == 0
        &&& self.stream.link == super::stream::LinkState::Open
        &&& !self.stream.shut_down
    }

    /// The connection after the transport delivered `bytes`.
    pub open spec fn after_deliver(self, bytes: Seq<u8>) -> ConnectionView {
        ConnectionView { stream: self.stream.after_deliver(bytes), ..self }
    }

    /// Delivers the chunks one by one, with one call of `receive` after each:
    /// the connection at the end, and what each call returned.
    pub open spec fn feed<R: Codec>(self, chunks: Seq<Seq<u8>>) -> (
        ConnectionView,
        Seq<Result<R::V, ErrorKind>>,
    )
        decreases chunks.len(),
    {
        if chunks.len() == 0 {
            (self, Seq::empty())
        } else {
            let (next, outcome) = self.after_deliver(chunks.first()).receive::<R>();
            let (last, outcomes) = next.feed::<R>(chunks.drop_first());
            (last, seq![outcome] + outcomes)
        }
    }

    /// The connection has taken exactly the first `taken` bytes of the frame
    /// `f`, and its stream holds nothing unread.
    #[verifier::opaque]
    spec fn in_progress(self, f: Seq<u8>, taken: nat) -> bool {
        &&& self.buffer.wf()
        &&& self.stream.unread.len() == 0
        &&& self.stream.link == super::stream::LinkState::Open
        &&& !self.stream.shut_down
        &&& f.len() > PREFIX_LEN
        &&& taken < f.len()
        &&& if taken < PREFIX_LEN {
            &&& self.mode == ReadMode::Size
            &&& self.buffer.data.len() == PREFIX_LEN
            &&& self.buffer.cursor == taken
            &&& self.buffer.data.take(taken as int) == f.take(taken as int)
        } else {
            &&& self.mode == ReadMode::Data
            &&& self.buffer.data.len() == f.len() - PREFIX_LEN
            &&& self.buffer.cursor == taken - PREFIX_LEN
            &&& self.buffer.data.take(taken - PREFIX_LEN) == f.subrange(
                PREFIX_LEN as int,
                taken as int,
            )
        }
    }
}

/// One attempt to fill a buffer whose filled part agrees with `target`, from a
/// stream whose unread bytes continue `target`: the buffer still agrees with
/// `target`, and is full exactly if the stream held enough.
proof fn lemma_fill_towards(b: BufferView, s: StreamView, target: Seq<u8>)
    requires
        b.wf(),
        b.missing() > 0,
        target.len() == b.data.len(),
        b.data.take(b.cursor as int) == target.take(b.cursor as int),
        s.unread.len() > 0,
        !s.shut_down,
        s.unread.take(s.read_len(b.missing()) as int) == target.subrange(
            b.cursor as int,
            (b.cursor + s.read_len(b.missing())) as int,
        ),
    ensures
        s.after_read(b.missing()).unread == s.unread.skip(s.read_len(b.missing()) as int),
        b.after_fill(s).wf(),
        b.after_fill(s).data.len() == target.len(),
        s.unread.len() < b.missing() ==> {
            &&& b.fill_result(s) == Err::<(), ErrorKind>(ErrorKind::WouldBlock)
            &&& b.after_fill(s).cursor == b.cursor + s.unread.len()
            &&& b.after_fill(s).data.take(b.after_fill(s).cursor as int) == target.take(
                b.after_fill(s).cursor as int,
            )
            &&& s.after_read(b.missing()).unread.len() == 0
        },
        s.unread.len() >= b.missing() ==> {
            &&& b.fill_result(s) is Ok
            &&& b.after_fill(s).cursor == 0
            &&& b.after_fill(s).data == target
        },
{
    let n = s.read_len(b.missing());
    let chunk = s.unread.take(n as int);
    assert(s.read_result(b.missing()) == Ok::<Seq<u8>, ErrorKind>(chunk));
    let stored = b.store(chunk);
    assert(stored.data.len() == target.len());
    assert(stored.data.take(stored.cursor as int) =~= target.take(stored.cursor as int)) by {
        assert forall|i: int| 0 <= i < stored.cursor implies stored.data[i] == target[i] by {
            if i < b.cursor {
                assert(b.data.take(b.cursor as int)[i] == target.take(b.cursor as int)[i]);
            } else {
                assert(chunk[i - b.cursor] == target.subrange(
                    b.cursor as int,
                    (b.cursor + n) as int,
                )[i - b.cursor]);
            }
        }
    }
    if s.unread.len() >= b.missing() {
        assert(stored.data =~= stored.data.take(stored.cursor as int));
        assert(target =~= target.take(stored.cursor as int));
    }
}

/// One chunk of a frame, delivered to a connection that has taken the frame
/// up to there: `receive` reports `WouldBlock` while the frame is incomplete,
/// and returns the message, idle again, once it is complete.
proof fn lemma_chunk_step<R: Codec>(c: ConnectionView, v: R::V, taken: nat, chunk: Seq<u8>)
    requires
        R::representable(v),
        0 < R::encoding(v).len() <= MAX_LEN,
        c.in_progress(frame(R::encoding(v)), taken),
        chunk.len() > 0,
        taken + chunk.len() <= frame(R::encoding(v)).len(),
        chunk == frame(R::encoding(v)).subrange(
            taken as int,
            (taken + chunk.len()) as int,
        ),
    ensures
        ({
            let f = frame(R::encoding(v));
            let (next, outcome) = c.after_deliver(chunk).receive::<R>();
            &&& next.stream == c.stream
            &&& if taken + chunk.len() < f.len() {
                &&& outcome == Err::<R::V, ErrorKind>(ErrorKind::WouldBlock)
                &&& next.in_progress(f, taken + chunk.len())
            } else {
                &&& outcome == Ok::<R::V, ErrorKind>(v)
                &&& next.idle()
                &&& next.buffer == (BufferView { data: R::encoding(v), cursor: 0 }).resized(
                    PREFIX_LEN as nat,
                )
            }
        }),
{
    reveal(ConnectionView::in_progress);
    reveal(ConnectionView::receive);
    let payload = R::encoding(v);
    let f = frame(payload);
    let d = c.after_deliver(chunk);
    assert(d.stream.unread =~= chunk);
    assert(f.len() == PREFIX_LEN + payload.len());
    assert(len_prefix(payload.len()) == payload.len());
    assert(f.take(PREFIX_LEN as int) =~= be16(len_prefix(payload.len())));
    assert(f.skip(PREFIX_LEN as int) =~= payload);
    if taken < PREFIX_LEN {
        let prefix = f.take(PREFIX_LEN as int);
        let n = d.stream.read_len(d.buffer.missing());
        assert(chunk.take(n as int) =~= prefix.subrange(taken as int, (taken + n) as int));
        assert(d.buffer.data.take(taken as int) =~= prefix.take(taken as int)) by {
            assert(f.take(taken as int) =~= prefix.take(taken as int));
        }
        lemma_fill_towards(d.buffer, d.stream, prefix);
        let filled = ConnectionView {
            stream: d.stream.after_read(d.buffer.missing()),
            buffer: d.buffer.after_fill(d.stream),
            ..d
        };
        if chunk.len() < d.buffer.missing() {
            assert(filled.stream =~= c.stream) by {
                assert(filled.stream.unread =~= c.stream.unread);
            }
            let t = taken + chunk.len();
            assert(filled.buffer.data.take(t as int) =~= f.take(t as int)) by {
                assert(prefix.take(t as int) =~= f.take(t as int));
            }
        } else {
            super::codec::lemma_be16_value(len_prefix(payload.len()));
            assert(filled.buffer.data == prefix);
            let len = be16_value(filled.buffer.data[0], filled.buffer.data[1]);
            assert(len == payload.len());
            let awaiting = ConnectionView {
                buffer: filled.buffer.resized(len as nat),
                mode: ReadMode::Data,
                ..filled
            };
            assert(filled.stream.unread =~= chunk.skip(n as int));
            assert(awaiting.buffer.data.take(0) =~= payload.take(0));
            assert(chunk.skip(n as int) =~= payload.subrange(0, chunk.len() - n));
            lemma_payload_step::<R>(c, awaiting, v, PREFIX_LEN as nat, chunk.skip(n as int));
        }
    } else {
        assert(payload.take(taken - PREFIX_LEN) =~= f.subrange(PREFIX_LEN as int, taken as int));
        assert(chunk =~= payload.subrange(
            taken - PREFIX_LEN,
            taken - PREFIX_LEN + chunk.len(),
        ));
        lemma_payload_step::<R>(c, d, v, taken, chunk);
    }
}

/// The part of [`lemma_chunk_step`] that begins once the length prefix is
/// known: `d` awaits the payload, has taken the frame up to `taken`, and its
/// stream holds `pending`, which continues the frame from there.
proof fn lemma_payload_step<R: Codec>(
    c: ConnectionView,
    d: ConnectionView,
    v: R::V,
    taken: nat,
    pending: Seq<u8>,
)
    requires
        R::representable(v),
        0 < R::encoding(v).len() <= MAX_LEN,
        c.stream.unread.len() == 0,
        c.stream.link == super::stream::LinkState::Open,
        !c.stream.shut_down,
        d.stream == c.stream.after_deliver(pending),
        d.mode == ReadMode::Data,
        d.buffer.wf(),
        d.buffer.data.len() == R::encoding(v).len(),
        PREFIX_LEN <= taken < PREFIX_LEN + R::encoding(v).len(),
        d.buffer.cursor == taken - PREFIX_LEN,
        d.buffer.data.take(taken - PREFIX_LEN) == R::encoding(v).take(taken - PREFIX_LEN),
        taken + pending.len() <= PREFIX_LEN + R::encoding(v).len(),
        pending == R::encoding(v).subrange(taken - PREFIX_LEN, taken - PREFIX_LEN + pending.len()),
    ensures
        ({
            let f = frame(R::encoding(v));
            let (next, outcome) = d.data_phase::<R>();
            &&& next.stream == c.stream
            &&& if taken + pending.len() < f.len() {
                &&& outcome == Err::<R::V, ErrorKind>(ErrorKind::WouldBlock)
                &&& next.in_progress(f, taken + pending.len())
            } else {
                &&& outcome == Ok::<R::V, ErrorKind>(v)
                &&& next.idle()
                &&& next.buffer == (BufferView { data: R::encoding(v), cursor: 0 }).resized(
                    PREFIX_LEN as nat,
                )
            }
        }),
{
    reveal(ConnectionView::in_progress);
    let payload = R::encoding(v);
    let f = frame(payload);
    assert(f.len() == PREFIX_LEN + payload.len());
    assert(f.skip(PREFIX_LEN as int) =~= payload);
    assert(d.stream.unread =~= pending);
    let filled = ConnectionView {
        stream: d.stream.after_read(d.buffer.missing()),
        buffer: d.buffer.after_fill(d.stream),
        ..d
    };
    if pending.len() == 0 {
        assert(d.stream.read_result(d.buffer.missing()) == Err::<Seq<u8>, ErrorKind>(
            ErrorKind::WouldBlock,
        ));
        assert(filled.stream =~= c.stream) by {
            assert(filled.stream.unread =~= c.stream.unread);
        }
        assert(filled.buffer.data.take(taken - PREFIX_LEN) =~= f.subrange(
            PREFIX_LEN as int,
            taken as int,
        ));
    } else {
        let n = d.stream.read_len(d.buffer.missing());
        assert(n == pending.len());
        assert(pending.take(n as int) =~= payload.subrange(
            d.buffer.cursor as int,
            (d.buffer.cursor + n) as int,
        ));
        lemma_fill_towards(d.buffer, d.stream, payload);
        assert(filled.stream =~= c.stream) by {
            assert(filled.stream.unread =~= c.stream.unread);
        }
        if pending.len() < d.buffer.missing() {
            let t = taken + pending.len();
            assert(filled.buffer.data.take(t - PREFIX_LEN) =~= f.subrange(
                PREFIX_LEN as int,
                t as int,
            )) by {
                assert(payload.take(t - PREFIX_LEN) =~= f.subrange(PREFIX_LEN as int, t as int));
            }
        } else {
            assert(filled.buffer.data == payload);
            assert(filled.buffer.unread() =~= payload);
            R::lemma_round_trip(v, Seq::empty());
            assert(payload + Seq::<u8>::empty() =~= payload);
        }
    }
}

impl ConnectionView {
    /// The connection waits for a new frame and has taken none of its bytes
    /// yet, and its stream was not shut down.
    pub open spec fn awaits_frame(self) -> bool {
        &&& self.wf()
        &&& self.mode == ReadMode::Size
        &&& self.buffer.cursor == 0
        &&& !self.stream.shut_down
    }
}

/// A whole frame is received in one call. When the unread bytes of the stream
/// begin with the frame of a message, a connection that awaits a frame returns
/// that message, takes exactly the frame from the stream, and awaits the next
/// frame.
pub proof fn lemma_receive_frame<R: Codec>(c: ConnectionView, v: R::V, rest: Seq<u8>)
    requires
        c.awaits_frame(),
        R::representable(v),
        0 < R::encoding(v).len() <= MAX_LEN,
        c.stream.unread == frame(R::encoding(v)) + rest,
    ensures
        c.receive::<R>().1 == Ok::<R::V, ErrorKind>(v),
        c.receive::<R>().0.awaits_frame(),
        c.receive::<R>().0.stream == (StreamView { unread: rest, ..c.stream }),
{
    reveal(ConnectionView::receive);
    let payload = R::encoding(v);
    let f = frame(payload);
    let prefix = be16(len_prefix(payload.len()));
    assert(len_prefix(payload.len()) == payload.len());
    assert(c.stream.unread.take(PREFIX_LEN as int) =~= prefix.subrange(0, PREFIX_LEN as int));
    assert(c.buffer.data.take(0) =~= prefix.take(0));
    lemma_fill_towards(c.buffer, c.stream, prefix);
    let filled = ConnectionView {
        stream: c.stream.after_read(c.buffer.missing()),
        buffer: c.buffer.after_fill(c.stream),
        ..c
    };
    super::codec::lemma_be16_value(len_prefix(payload.len()));
    let awaiting = ConnectionView {
        buffer: filled.buffer.resized(payload.len()),
        mode: ReadMode::Data,
        ..filled
    };
    assert(filled.stream.unread =~= payload + rest);
    assert(awaiting.stream.unread.take(payload.len() as int) =~= payload.subrange(
        0,
        payload.len() as int,
    ));
    assert(awaiting.buffer.data.take(0) =~= payload.take(0));
    lemma_fill_towards(awaiting.buffer, awaiting.stream, payload);
    let ready = ConnectionView {
        stream: awaiting.stream.after_read(awaiting.buffer.missing()),
        buffer: awaiting.buffer.after_fill(awaiting.stream),
        mode: ReadMode::Parse,
        ..awaiting
    };
    assert(ready.buffer.unread() =~= payload);
    R::lemma_round_trip(v, Seq::empty());
    assert(payload + Seq::<u8>::empty() =~= payload);
    assert(ready.stream.unread =~= rest);
}

/// Without bytes there is no progress. A connection whose stream is open and
/// holds nothing unread, and whose buffer still misses bytes, reports
/// `WouldBlock` and stays as it is.
pub proof fn lemma_receive_nothing<R: Codec>(c: ConnectionView)
    requires
        c.wf(),
        c.mode != ReadMode::Parse,
        c.buffer.missing() > 0,
        c.stream.unread.len() == 0,
        c.stream.link == super::stream::LinkState::Open,
        !c.stream.shut_down,
    ensures
        c.receive::<R>() == (c, Err::<R::V, ErrorKind>(ErrorKind::WouldBlock)),
{
    reveal(ConnectionView::receive);
    assert(c.stream.after_read(c.buffer.missing()) =~= c.stream) by {
        assert(c.stream.unread.skip(0) =~= c.stream.unread);
    }
}

/// An ended stream ends the connection. A connection whose stream was closed
/// by the remote end and holds nothing unread, and whose buffer still misses
/// bytes, reports `UnexpectedEof`.
pub proof fn lemma_receive_end<R: Codec>(c: ConnectionView)
    requires
        c.wf(),
        c.mode != ReadMode::Parse,
        c.buffer.missing() > 0,
        c.stream.unread.len() == 0,
        c.stream.link == super::stream::LinkState::Closed,
        !c.stream.shut_down,
    ensures
        c.receive::<R>().1 == Err::<R::V, ErrorKind>(ErrorKind::UnexpectedEof),
{
    reveal(ConnectionView::receive);
}

/// Framing is resumable. A connection that is idle is fed the frame of one
/// message, cut into non-empty chunks in any way, with one call of `receive`
/// after each chunk. Every call but the last reports `WouldBlock`; the last
/// returns the message; and the connection ends idle, in the state it reaches
/// when the whole frame arrives as one chunk.
pub proof fn lemma_framing_resumable<R: Codec>(c: ConnectionView, v: R::V, chunks: Seq<Seq<u8>>)
    requires
        c.idle(),
        R::representable(v),
        0 < R::encoding(v).len() <= MAX_LEN,
        chunks.flatten() == frame(R::encoding(v)),
        forall|i: int| 0 <= i < chunks.len() ==> (#[trigger] chunks[i]).len() > 0,
    ensures
        ({
            let (last, outcomes) = c.feed::<R>(chunks);
            &&& outcomes.len() == chunks.len() > 0
            &&& forall|i: int|
                0 <= i < chunks.len() - 1 ==> #[trigger] outcomes[i] == Err::<R::V, ErrorKind>(
                    ErrorKind::WouldBlock,
                )
            &&& outcomes.last() == Ok::<R::V, ErrorKind>(v)
            &&& last.idle()
            &&& last == c.feed::<R>(seq![frame(R::encoding(v))]).0
            &&& c.feed::<R>(seq![frame(R::encoding(v))]).1 == seq![Ok::<R::V, ErrorKind>(v)]
        }),
{
    let f = frame(R::encoding(v));
    assert(c.in_progress(f, 0)) by {
        reveal(ConnectionView::in_progress);
        assert(c.buffer.data.take(0) =~= f.take(0));
    }
    assert(f.skip(0) =~= f);
    lemma_feed_rest::<R>(c, v, 0, chunks);
    let whole = seq![f];
    assert(whole.flatten() =~= f) by {
        whole.lemma_flatten_one_element();
    }
    lemma_feed_rest::<R>(c, v, 0, whole);
    assert(c.feed::<R>(whole).1 =~= seq![Ok::<R::V, ErrorKind>(v)]);
}

/// [`lemma_framing_resumable`] for a connection that has already taken the
/// first `taken` bytes of the frame, fed the rest of it.
proof fn lemma_feed_rest<R: Codec>(c: ConnectionView, v: R::V, taken: nat, chunks: Seq<Seq<u8>>)
    requires
        R::representable(v),
        0 < R::encoding(v).len() <= MAX_LEN,
        c.in_progress(frame(R::encoding(v)), taken),
        taken < frame(R::encoding(v)).len(),
        chunks.flatten() == frame(R::encoding(v)).skip(taken as int),
        forall|i: int| 0 <= i < chunks.len() ==> (#[trigger] chunks[i]).len() > 0,
    ensures
        ({
            let (last, outcomes) = c.feed::<R>(chunks);
            &&& outcomes.len() == chunks.len() > 0
            &&& forall|i: int|
                0 <= i < chunks.len() - 1 ==> #[trigger] outcomes[i] == Err::<R::V, ErrorKind>(
                    ErrorKind::WouldBlock,
                )
            &&& outcomes.last() == Ok::<R::V, ErrorKind>(v)
            &&& last.idle()
            &&& last.stream == c.stream
            &&& last.buffer == (BufferView { data: R::encoding(v), cursor: 0 }).resized(
                PREFIX_LEN as nat,
            )
        }),
    decreases chunks.len(),
{
    let f = frame(R::encoding(v));
    if chunks.len() == 0 {
        assert(chunks.flatten().len() == 0);
        assert(f.skip(taken as int).len() > 0);
    } else {
        let chunk = chunks.first();
        let rest = chunks.drop_first();
        assert(chunks.flatten() == chunk + rest.flatten());
        assert(chunk =~= f.subrange(taken as int, (taken + chunk.len()) as int)) by {
            assert(chunk =~= (chunk + rest.flatten()).take(chunk.len() as int));
        }
        lemma_chunk_step::<R>(c, v, taken, chunk);
        let (next, outcome) = c.after_deliver(chunk).receive::<R>();
        let (last, outcomes) = next.feed::<R>(rest);
        if taken + chunk.len() < f.len() {
            assert(rest.flatten() =~= f.skip((taken + chunk.len()) as int)) by {
                assert(rest.flatten() =~= (chunk + rest.flatten()).skip(chunk.len() as int));
            }
            lemma_feed_rest::<R>(next, v, taken + chunk.len(), rest);
            let all = seq![outcome] + outcomes;
            assert(all.last() == outcomes.last());
            assert forall|i: int| 0 <= i < chunks.len() - 1 implies #[trigger] all[i] == Err::<
                R::V,
                ErrorKind,
            >(ErrorKind::WouldBlock) by {
                if i > 0 {
                    assert(all[i] == outcomes[i - 1]);
                }
            }
        } else {
            assert(rest.flatten().len() == 0) by {
                assert(rest.flatten() =~= (chunk + rest.flatten()).skip(chunk.len() as int));
            }
            if rest.len() > 0 {
                assert(rest[0].len() > 0) by {
                    assert(rest[0] == chunks[1]);
                }
                assert(rest.flatten() == rest.first() + rest.drop_first().flatten());
            }
            assert(rest.len() == 0);
            assert(outcomes.len() == 0);
            assert((seq![outcome] + outcomes).last() == outcome);
        }
    }
}

} // verus!
