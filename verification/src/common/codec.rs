use super::buffer::Buffer;
use super::error::ErrorKind;
use vstd::prelude::*;
use vstd::utf8::{decode_utf8, encode_utf8, valid_utf8};

verus! {

/// The largest number of bytes whose count fits in a length prefix.
pub const MAX_LEN: usize = 65535;

/// The two bytes of `x`, most significant first.
pub open spec fn be16(x: u16) -> Seq<u8> {
    seq![(x / 256) as u8, (x % 256) as u8]
}

/// The number whose two bytes, most significant first, are `hi` and `lo`.
pub open spec fn be16_value(hi: u8, lo: u8) -> u16 {
    (hi * 256 + lo) as u16
}

/// Reads a 16-bit number from the front of `bytes`: the number, or why there
/// is none, and how many bytes the attempt takes. Fewer than two bytes are all
/// taken and give no number.
pub open spec fn parse_u16(bytes: Seq<u8>) -> (Result<u16, ErrorKind>, nat) {
    if bytes.len() < 2 {
        (Err(ErrorKind::UnexpectedEof), bytes.len())
    } else {
        (Ok(be16_value(bytes[0], bytes[1])), 2)
    }
}

/// The length prefix of `len` bytes: `len` itself, as a 16-bit number. Only
/// a length of at most [`MAX_LEN`] has a prefix.
pub open spec fn len_prefix(len: nat) -> u16
    recommends
        len <= MAX_LEN,
{
    len as u16
}

/// A byte string of at most [`MAX_LEN`] bytes on the wire: its length as a
/// prefix, then the bytes.
pub open spec fn bytes_encoding(b: Seq<u8>) -> Seq<u8>
    recommends
        b.len() <= MAX_LEN,
{
    be16(len_prefix(b.len())) + b
}

/// Reads a byte string from the front of `bytes`. When fewer bytes follow the
/// length prefix than it announces, all are taken and give no byte string.
pub open spec fn parse_bytes(bytes: Seq<u8>) -> (Result<Seq<u8>, ErrorKind>, nat) {
    match parse_u16(bytes).0 {
        Err(kind) => (Err(kind), parse_u16(bytes).1),
        Ok(len) => if bytes.len() < 2 + len {
            (Err(ErrorKind::UnexpectedEof), bytes.len())
        } else {
            (Ok(bytes.subrange(2, 2 + len)), (2 + len) as nat)
        },
    }
}

/// A string of at most [`MAX_LEN`] UTF-8 bytes on the wire: those bytes as a
/// byte string.
pub open spec fn str_encoding(s: Seq<char>) -> Seq<u8>
    recommends
        encode_utf8(s).len() <= MAX_LEN,
{
    bytes_encoding(encode_utf8(s))
}

/// Reads a string from the front of `bytes`. A byte string that is not UTF-8
/// is taken whole and is invalid data.
pub open spec fn parse_str(bytes: Seq<u8>) -> (Result<Seq<char>, ErrorKind>, nat) {
    match parse_bytes(bytes).0 {
        Err(kind) => (Err(kind), parse_bytes(bytes).1),
        Ok(b) => if valid_utf8(b) {
            (Ok(decode_utf8(b)), parse_bytes(bytes).1)
        } else {
            (Err(ErrorKind::InvalidData), parse_bytes(bytes).1)
        },
    }
}

/// Splitting a number into its two bytes and joining them gives it back.
pub proof fn lemma_be16_value(x: u16)
    ensures
        be16(x).len() == 2,
        be16_value(be16(x)[0], be16(x)[1]) == x,
{
}

/// A number comes back from its own encoding, whatever follows it.
pub proof fn lemma_parse_u16(x: u16, rest: Seq<u8>)
    ensures
        parse_u16(be16(x) + rest) == (Ok::<u16, ErrorKind>(x), 2nat),
{
    let bytes = be16(x) + rest;
    assert(bytes[0] == be16(x)[0]);
    assert(bytes[1] == be16(x)[1]);
}

/// Behind the two bytes of a number stands what was put there.
pub proof fn lemma_skip_u16(x: u16, rest: Seq<u8>)
    ensures
        (be16(x) + rest).skip(2) == rest,
        (be16(x) + rest).len() == 2 + rest.len(),
{
    assert((be16(x) + rest).skip(2) =~= rest);
}

/// A byte string of at most [`MAX_LEN`] bytes comes back from its own
/// encoding, whatever follows it.
pub proof fn lemma_parse_bytes(b: Seq<u8>, rest: Seq<u8>)
    requires
        b.len() <= MAX_LEN,
    ensures
        parse_bytes(bytes_encoding(b) + rest) == (
            Ok::<Seq<u8>, ErrorKind>(b),
            bytes_encoding(b).len(),
        ),
{
    let bytes = bytes_encoding(b) + rest;
    assert(bytes =~= be16(len_prefix(b.len())) + (b + rest));
    lemma_parse_u16(len_prefix(b.len()), b + rest);
    assert(bytes.subrange(2, 2 + b.len() as int) =~= b);
}

/// A string of at most [`MAX_LEN`] UTF-8 bytes comes back from its own
/// encoding, whatever follows it.
pub proof fn lemma_parse_str(s: Seq<char>, rest: Seq<u8>)
    requires
        encode_utf8(s).len() <= MAX_LEN,
    ensures
        parse_str(str_encoding(s) + rest) == (
            Ok::<Seq<char>, ErrorKind>(s),
            str_encoding(s).len(),
        ),
{
    lemma_parse_bytes(encode_utf8(s), rest);
    vstd::utf8::encode_utf8_valid_utf8(s);
    vstd::utf8::encode_utf8_decode_utf8(s);
}

/// Reading a byte string takes no more bytes than there are, and a byte
/// string that was read is at most [`MAX_LEN`] bytes long.
pub proof fn lemma_parse_bytes_bounds(bytes: Seq<u8>)
    ensures
        parse_bytes(bytes).1 <= bytes.len(),
        parse_bytes(bytes).0 matches Ok(b) ==> parse_bytes(bytes).1 == 2 + b.len() && b.len()
            <= MAX_LEN,
{
}

/// Reading a string takes no more bytes than there are, and the UTF-8 form
/// of a string that was read is at most [`MAX_LEN`] bytes long.
pub proof fn lemma_parse_str_bounds(bytes: Seq<u8>)
    ensures
        parse_str(bytes).1 <= bytes.len(),
        parse_str(bytes).0 matches Ok(s) ==> parse_str(bytes).1 == 2 + encode_utf8(s).len()
            && encode_utf8(s).len() <= MAX_LEN,
{
    lemma_parse_bytes_bounds(bytes);
    if let Ok(b) = parse_bytes(bytes).0 {
        if valid_utf8(b) {
            vstd::utf8::decode_utf8_encode_utf8(b);
        }
    }
}

/// A string whose bytes are not UTF-8 is invalid data.
pub proof fn lemma_invalid_utf8(bytes: Seq<u8>)
    requires
        parse_bytes(bytes).0 matches Ok(b) && !valid_utf8(b),
    ensures
        parse_str(bytes).0 == Err::<Seq<char>, ErrorKind>(ErrorKind::InvalidData),
{
}

/// A type with a canonical encoding as bytes.
///
/// `encoding` and `parse` are the mathematical statement of the format, over
/// views. `code`, `decode` and `coded_size` are its implementation.
pub trait Codec: Sized + View {
    /// The canonical encoding of a representable value.
    spec fn encoding(v: Self::V) -> Seq<u8>;

    /// What decoding one value from the front of `bytes` does: the value, or
    /// why there is none, and the number of bytes that the attempt takes.
    spec fn parse(bytes: Seq<u8>) -> (Result<Self::V, ErrorKind>, nat);

    /// Whether a value fits the format: every string in it is at most
    /// [`MAX_LEN`] bytes long as UTF-8.
    spec fn representable(v: Self::V) -> bool;

    /// Decoding undoes coding: a representable value comes back from its own
    /// encoding, whatever follows it, and takes exactly the bytes that were
    /// written for it.
    proof fn lemma_round_trip(v: Self::V, rest: Seq<u8>)
        requires
            Self::representable(v),
        ensures
            Self::parse(Self::encoding(v) + rest) == (
                Ok::<Self::V, ErrorKind>(v),
                Self::encoding(v).len(),
            ),
    ;

    /// Decoding takes no more bytes than there are, and a value that was
    /// decoded is representable.
    proof fn lemma_parse_bounds(bytes: Seq<u8>)
        ensures
            Self::parse(bytes).1 <= bytes.len(),
            Self::parse(bytes).0 matches Ok(v) ==> Self::representable(v),
    ;

    /// A value whose encoding is at most [`MAX_LEN`] bytes long is
    /// representable: no string in it can be longer than the whole.
    proof fn lemma_short_is_representable(v: Self::V)
        requires
            Self::encoding(v).len() <= MAX_LEN,
        ensures
            Self::representable(v),
    ;

    /// Appends the canonical encoding of `self` to `w`. Only a representable
    /// value has one: every length prefix written is the length of what
    /// follows it.
    fn code(&self, w: &mut Vec<u8>)
        requires
            Self::representable(self@),
        ensures
            final(w)@ == old(w)@ + Self::encoding(self@),
    ;

    /// Decodes one value from the unread bytes of `r`, and moves the cursor
    /// past the bytes that the attempt takes.
    fn decode(r: &mut Buffer) -> (res: Result<Self, ErrorKind>)
        requires
            old(r).wf(),
        ensures
            final(r).wf(),
            final(r)@.data == old(r)@.data,
            final(r)@.cursor == old(r)@.cursor + Self::parse(old(r)@.unread()).1,
            match Self::parse(old(r)@.unread()).0 {
                Ok(v) => res matches Ok(x) && x@ == v,
                Err(kind) => res matches Err(k) && k == kind,
            },
    ;

    /// The number of bytes that `code` writes for `self`; for a value that is
    /// not representable, the number of bytes that its fields and their
    /// prefixes take.
    fn coded_size(&self) -> (n: usize)
        requires
            Self::encoding(self@).len() <= usize::MAX,
        ensures
            n == Self::encoding(self@).len(),
    ;
}

impl Codec for u16 {
    open spec fn encoding(v: u16) -> Seq<u8> {
        be16(v)
    }

    open spec fn parse(bytes: Seq<u8>) -> (Result<u16, ErrorKind>, nat) {
        parse_u16(bytes)
    }

    open spec fn representable(v: u16) -> bool {
        true
    }

    proof fn lemma_round_trip(v: u16, rest: Seq<u8>) {
        lemma_parse_u16(v, rest);
    }

    proof fn lemma_parse_bounds(bytes: Seq<u8>) {
    }

    proof fn lemma_short_is_representable(v: u16) {
    }

    fn code(&self, w: &mut Vec<u8>) {
        let x = *self;
        w.push((x / 256) as u8);
        w.push((x % 256) as u8);
        assert(w@ =~= old(w)@ + be16(x));
        assert(Self::encoding(self@) == be16(x));
    }

    fn decode(r: &mut Buffer) -> (res: Result<u16, ErrorKind>) {
        assert(Self::parse(r@.unread()) == parse_u16(r@.unread()));
        let bytes = r.read(2);
        if bytes.len() < 2 {
            Err(ErrorKind::UnexpectedEof)
        } else {
            Ok(bytes[0] as u16 * 256 + bytes[1] as u16)
        }
    }

    fn coded_size(&self) -> (n: usize) {
        2
    }
}

/// Appends the encoding of the byte string `b` to `w`.
fn code_bytes(b: &[u8], w: &mut Vec<u8>)
    requires
        b@.len() <= MAX_LEN,
    ensures
        final(w)@ == old(w)@ + bytes_encoding(b@),
{
    let prefix = b.len() as u16;
    assert(u16::encoding(prefix) == be16(prefix));
    prefix.code(w);
    super::stream::append_bytes(w, b);
    assert(w@ =~= old(w)@ + bytes_encoding(b@));
}

impl Codec for Vec<u8> {
    open spec fn encoding(v: Seq<u8>) -> Seq<u8> {
        bytes_encoding(v)
    }

    open spec fn parse(bytes: Seq<u8>) -> (Result<Seq<u8>, ErrorKind>, nat) {
        parse_bytes(bytes)
    }

    open spec fn representable(v: Seq<u8>) -> bool {
        v.len() <= MAX_LEN
    }

    proof fn lemma_round_trip(v: Seq<u8>, rest: Seq<u8>) {
        lemma_parse_bytes(v, rest);
    }

    proof fn lemma_parse_bounds(bytes: Seq<u8>) {
        lemma_parse_bytes_bounds(bytes);
    }

    proof fn lemma_short_is_representable(v: Seq<u8>) {
    }

    fn code(&self, w: &mut Vec<u8>) {
        code_bytes(self.as_slice(), w);
        assert(Self::encoding(self@) == bytes_encoding(self@));
    }

    fn decode(r: &mut Buffer) -> (res: Result<Vec<u8>, ErrorKind>) {
        let ghost unread = r@.unread();
        assert(Self::parse(unread) == parse_bytes(unread));
        assert(u16::parse(unread) == parse_u16(unread));
        let len = match u16::decode(r) {
            Ok(len) => len,
            Err(kind) => {
                return Err(kind);
            },
        };
        assert(r@.unread() =~= unread.skip(2));
        let bytes = r.read(len as usize);
        if bytes.len() < len as usize {
            Err(ErrorKind::UnexpectedEof)
        } else {
            assert(bytes@ =~= unread.subrange(2, 2 + len));
            Ok(bytes)
        }
    }

    fn coded_size(&self) -> (n: usize) {
        assert(Self::encoding(self@) == bytes_encoding(self@));
        2 + self.len()
    }
}

/// Declares the error of `String::from_utf8` as an opaque type.
#[verifier::external_type_specification]
#[verifier::external_body]
pub struct ExFromUtf8Error(std::string::FromUtf8Error);

/// `String::from_utf8` succeeds exactly on the byte vectors that are valid
/// UTF-8, and the string it then returns is made of those bytes.
pub assume_specification[ String::from_utf8 ](vec: Vec<u8>) -> (r: Result<
    String,
    std::string::FromUtf8Error,
>)
    ensures
        r is Ok <==> valid_utf8(vec@),
        r matches Ok(s) ==> encode_utf8(s@) == vec@,
;

impl Codec for String {
    open spec fn encoding(v: Seq<char>) -> Seq<u8> {
        str_encoding(v)
    }

    open spec fn parse(bytes: Seq<u8>) -> (Result<Seq<char>, ErrorKind>, nat) {
        parse_str(bytes)
    }

    open spec fn representable(v: Seq<char>) -> bool {
        encode_utf8(v).len() <= MAX_LEN
    }

    proof fn lemma_round_trip(v: Seq<char>, rest: Seq<u8>) {
        lemma_parse_str(v, rest);
    }

    proof fn lemma_parse_bounds(bytes: Seq<u8>) {
        lemma_parse_str_bounds(bytes);
    }

    proof fn lemma_short_is_representable(v: Seq<char>) {
    }

    fn code(&self, w: &mut Vec<u8>) {
        code_bytes(self.as_str().as_bytes(), w);
        assert(Self::encoding(self@) == str_encoding(self@));
    }

    fn decode(r: &mut Buffer) -> (res: Result<String, ErrorKind>) {
        assert(Self::parse(r@.unread()) == parse_str(r@.unread()));
        assert(Vec::<u8>::parse(r@.unread()) == parse_bytes(r@.unread()));
        let bytes = match Vec::<u8>::decode(r) {
            Ok(bytes) => bytes,
            Err(kind) => {
                return Err(kind);
            },
        };
        match String::from_utf8(bytes) {
            Ok(s) => {
                proof {
                    vstd::utf8::encode_utf8_decode_utf8(s@);
                }
                Ok(s)
            },
            Err(_) => Err(ErrorKind::InvalidData),
        }
    }

    fn coded_size(&self) -> (n: usize) {
        assert(Self::encoding(self@) == str_encoding(self@));
        2 + self.as_str().as_bytes().len()
    }
}

} // verus!
