use super::error::ErrorKind;
use super::stream::{Stream, StreamView};
use vstd::prelude::*;

verus! {

/// The mathematical content of a [`Buffer`]: its bytes and how far they have
/// been filled or read.
pub struct BufferView {
    /// The bytes of the buffer. Its length is the number of bytes it waits for.
    pub data: Seq<u8>,
    /// The position of the next byte to fill or to read.
    pub cursor: nat,
}

impl BufferView {
    /// The cursor lies within the data.
    pub open spec fn wf(self) -> bool {
        self.cursor <= self.data.len()
    }

    /// The cursor stands at the end of the data.
    pub open spec fn finished(self) -> bool {
        self.cursor == self.data.len()
    }

    /// The number of bytes between the cursor and the end.
    pub open spec fn missing(self) -> nat {
        (self.data.len() - self.cursor) as nat
    }

    /// The bytes from the cursor to the end.
    pub open spec fn unread(self) -> Seq<u8> {
        self.data.skip(self.cursor as int)
    }

    /// The buffer with `chunk` stored at the cursor and the cursor moved past it.
    pub open spec fn store(self, chunk: Seq<u8>) -> BufferView {
        BufferView {
            data: self.data.take(self.cursor as int) + chunk + self.data.skip(
                (self.cursor + chunk.len()) as int,
            ),
            cursor: self.cursor + chunk.len(),
        }
    }

    /// The buffer with the cursor back at the start.
    pub open spec fn rewound(self) -> BufferView {
        BufferView { cursor: 0, ..self }
    }

    /// The buffer cut or zero-extended to `size` bytes, the cursor at the start.
    pub open spec fn resized(self, size: nat) -> BufferView {
        BufferView {
            data: if size <= self.data.len() {
                self.data.take(size as int)
            } else {
                self.data + Seq::new((size - self.data.len()) as nat, |i: int| 0u8)
            },
            cursor: 0,
        }
    }

    /// What one attempt to fill the buffer from `stream` reports: the stream's
    /// own error if its read fails; `UnexpectedEof` if the read brings nothing;
    /// `WouldBlock` if bytes came and some are still missing; success once the
    /// buffer is full.
    pub open spec fn fill_result(self, stream: StreamView) -> Result<(), ErrorKind> {
        match stream.read_result(self.missing()) {
            Err(kind) => Err(kind),
            Ok(chunk) => if chunk.len() == 0 {
                Err(ErrorKind::UnexpectedEof)
            } else if chunk.len() < self.missing() {
                Err(ErrorKind::WouldBlock)
            } else {
                Ok(())
            },
        }
    }

    /// The buffer after one attempt to fill it from `stream`: the bytes read
    /// are stored at the cursor, and a full buffer is rewound.
    pub open spec fn after_fill(self, stream: StreamView) -> BufferView {
        match stream.read_result(self.missing()) {
            Err(_) => self,
            Ok(chunk) => if chunk.len() == 0 {
                self
            } else if chunk.len() < self.missing() {
                self.store(chunk)
            } else {
                self.store(chunk).rewound()
            },
        }
    }

    /// The number of bytes that a read of at most `max` bytes takes.
    pub open spec fn read_len(self, max: nat) -> nat {
        if self.missing() <= max {
            self.missing()
        } else {
            max
        }
    }
}

/// A resizable byte buffer with a cursor. It is filled from a stream over as
/// many attempts as it takes, and then read from the start.
#[derive(Debug)]
pub struct Buffer {
    buf: Vec<u8>,
    cursor: usize,
}

impl View for Buffer {
    type V = BufferView;

    closed spec fn view(&self) -> BufferView {
        BufferView { data: self.buf@, cursor: self.cursor as nat }
    }
}

impl Buffer {
    /// The cursor lies within the buffer. Every constructor establishes this
    /// and every method keeps it.
    pub open spec fn wf(&self) -> bool {
        self@.wf()
    }

    /// An empty buffer.
    pub fn new() -> (b: Self)
        ensures
            b.wf(),
            b@.data == Seq::<u8>::empty(),
            b@.cursor == 0,
    {
        Buffer { buf: Vec::new(), cursor: 0 }
    }

    /// Makes one attempt to fill the rest of the buffer from `r`, without
    /// blocking.
    pub fn try_fill_from(&mut self, r: &mut Stream) -> (res: Result<(), ErrorKind>)
        requires
            old(self).wf(),
        ensures
            final(self).wf(),
            res == old(self)@.fill_result(old(r)@),
            final(self)@ == old(self)@.after_fill(old(r)@),
            final(r)@ == old(r)@.after_read(old(self)@.missing()),
    {
        let missing = self.buf.len() - self.cursor;
        let chunk = match r.read(missing) {
            Ok(chunk) => chunk,
            Err(kind) => {
                return Err(kind);
            },
        };
        let n = chunk.len();
        if n == 0 {
            return Err(ErrorKind::UnexpectedEof);
        }
        let ghost before = self@;
        let mut i: usize = 0;
        while i < n
            invariant
                i <= n,
                n == chunk@.len(),
                n <= missing,
                missing == before.missing(),
                before.wf(),
                self.cursor == before.cursor,
                self.cursor + missing == self.buf@.len() <= usize::MAX,
                self.buf@ == before.data.take(before.cursor as int) + chunk@.take(i as int)
                    + before.data.skip((before.cursor + i) as int),
            decreases n - i,
        {
            self.buf.set(self.cursor + i, chunk[i]);
            i = i + 1;
        }
        assert(chunk@.take(n as int) == chunk@);
        self.cursor = self.cursor + n;
        if self.finished() {
            self.cursor = 0;
            Ok(())
        } else {
            Err(ErrorKind::WouldBlock)
        }
    }

    /// Cuts or zero-extends the buffer to `size` bytes and rewinds the cursor.
    pub fn resize(&mut self, size: usize)
        ensures
            final(self).wf(),
            final(self)@ == old(self)@.resized(size as nat),
    {
        let ghost before = self.buf@;
        self.buf.resize(size, 0);
        self.cursor = 0;
        proof {
            if size > before.len() {
                let zeros = Seq::new((size - before.len()) as nat, |i: int| 0u8);
                assert(self.buf@ =~= before + zeros) by {
                    assert(self.buf@.subrange(0, before.len() as int) == before);
                    assert forall|i: int| 0 <= i < size implies self.buf@[i] == (before + zeros)[i] by {
                        if i < before.len() {
                            assert(self.buf@.subrange(0, before.len() as int)[i] == self.buf@[i]);
                        }
                    }
                }
            }
        }
    }

    /// Whether the cursor stands at the end of the buffer.
    pub fn finished(&self) -> (b: bool)
        ensures
            b == self@.finished(),
    {
        self.cursor == self.buf.len()
    }

    /// Reads at most `max` bytes from the cursor on and moves the cursor past
    /// them.
    pub fn read(&mut self, max: usize) -> (bytes: Vec<u8>)
        requires
            old(self).wf(),
        ensures
            final(self).wf(),
            bytes@ == old(self)@.unread().take(old(self)@.read_len(max as nat) as int),
            final(self)@.data == old(self)@.data,
            final(self)@.cursor == old(self)@.cursor + old(self)@.read_len(max as nat),
    {
        let left = self.buf.len() - self.cursor;
        let n = if left <= max {
            left
        } else {
            max
        };
        let mut bytes: Vec<u8> = Vec::new();
        let mut i: usize = 0;
        while i < n
            invariant
                i <= n,
                self.cursor + n <= self.buf@.len() <= usize::MAX,
                bytes@ == self.buf@.skip(self.cursor as int).take(i as int),
            decreases n - i,
        {
            bytes.push(self.buf[self.cursor + i]);
            i = i + 1;
        }
        self.cursor = self.cursor + n;
        bytes
    }
}

} // verus!
