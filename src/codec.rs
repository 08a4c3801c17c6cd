use vstd::arithmetic::div_mod::lemma_fundamental_div_mod_converse;
use vstd::prelude::*;
use vstd::slice::slice_subrange;

verus! {

/// Width in bytes of the length field that precedes every payload.
pub const LENGTH_WIDTH: usize = 4;

/// Width in bytes of the operation tag that opens every frame the guest writes.
pub const TAG_WIDTH: usize = 4;

/// Why a frame could not be read or written. Every one of them ends the session:
/// the protocol has no means to regain alignment on the streams.
#[derive(Clone, Copy, Debug, PartialEq, Eq, Structural)]
pub enum FrameError {
    /// The inbound stream ended before a length field or a payload was complete.
    ShortRead,
    /// A declared length exceeds the capacity reserved for payloads.
    BufferOverflow,
    /// The outbound stream could not take a frame.
    WriteFailure,
}

/// A fixed-width ASCII tag naming the operation of a frame the guest writes.
#[derive(Clone, Copy, Debug, PartialEq, Eq)]
pub struct Tag {
    pub bytes: [u8; 4],
}

impl Tag {
    pub open spec fn view(&self) -> Seq<u8> {
        self.bytes@
    }

    /// A tag made of the four given bytes.
    pub fn new(bytes: [u8; 4]) -> (t: Tag)
        ensures
            t@ == bytes@,
    {
        Tag { bytes }
    }

    /// The tag `DONE`, which marks the completion frame of a session.
    pub fn completion() -> (t: Tag)
        ensures
            t@ == seq![68u8, 79u8, 78u8, 69u8],
    {
        let t = Tag { bytes: [68u8, 79u8, 78u8, 69u8] };
        assert(t@ =~= seq![68u8, 79u8, 78u8, 69u8]);
        t
    }

    /// The four bytes of the tag.
    pub fn bytes(&self) -> (b: [u8; 4])
        ensures
            b@ == self@,
    {
        self.bytes
    }
}

/// The value of four bytes read as a little-endian unsigned integer.
pub open spec fn le_value(b: Seq<u8>) -> int
    recommends
        b.len() == 4,
{
    b[0] + 256 * b[1] + 65536 * b[2] + 16777216 * b[3]
}

/// The four little-endian bytes of `n`.
pub open spec fn le_bytes(n: u32) -> Seq<u8> {
    seq![
        (n % 256) as u8,
        (n / 256 % 256) as u8,
        (n / 65536 % 256) as u8,
        (n / 16777216) as u8,
    ]
}

/// Encoding a length and reading it back gives the same length.
pub proof fn lemma_length_round_trip(n: u32)
    ensures
        le_bytes(n).len() == 4,
        le_value(le_bytes(n)) == n,
{
    assert(le_value(le_bytes(n)) == n) by (nonlinear_arith);
}

/// Four bytes are the encoding of the length they denote.
pub proof fn lemma_length_bytes_unique(b: Seq<u8>)
    requires
        b.len() == 4,
    ensures
        0 <= le_value(b) <= u32::MAX,
        le_bytes(le_value(b) as u32) == b,
{
    let v = le_value(b);
    let (b0, b1, b2, b3) = (b[0] as int, b[1] as int, b[2] as int, b[3] as int);
    let q2 = b2 + 256 * b3;
    let q1 = b1 + 256 * q2;
    lemma_fundamental_div_mod_converse(v, 256, q1, b0);
    lemma_fundamental_div_mod_converse(q1, 256, q2, b1);
    lemma_fundamental_div_mod_converse(q2, 256, b3, b2);
    lemma_fundamental_div_mod_converse(v, 65536, q2, b0 + 256 * b1);
    lemma_fundamental_div_mod_converse(v, 16777216, b3, b0 + 256 * b1 + 65536 * b2);
    let n = v as u32;
    assert(le_bytes(n) =~= b);
}

/// Encodes a payload length as the 4-byte little-endian length field.
pub fn encode_length(len: u32) -> (r: Vec<u8>)
    ensures
        r@ == le_bytes(len),
{
    let mut r: Vec<u8> = Vec::with_capacity(LENGTH_WIDTH);
    r.push((len % 256) as u8);
    r.push((len / 256 % 256) as u8);
    r.push((len / 65536 % 256) as u8);
    r.push((len / 16777216) as u8);
    assert(r@ =~= le_bytes(len));
    r
}

/// An untagged frame: the length field of the payload, then the payload.
pub open spec fn untagged_frame(payload: Seq<u8>) -> Seq<u8>
    recommends
        payload.len() <= u32::MAX,
{
    le_bytes(payload.len() as u32) + payload
}

/// A tagged frame: the tag, then the untagged frame of the payload.
pub open spec fn tagged_frame(tag: Seq<u8>, payload: Seq<u8>) -> Seq<u8>
    recommends
        payload.len() <= u32::MAX,
{
    tag + untagged_frame(payload)
}

/// What reading one untagged frame from the front of `input` gives, with room
/// for at most `capacity` payload bytes: the payload and the number of bytes
/// the frame occupies, or why it cannot be read. The length field is read
/// first, and its value checked against the capacity before any payload byte.
pub open spec fn parse_untagged(input: Seq<u8>, capacity: nat) -> Result<(Seq<u8>, nat), FrameError> {
    if input.len() < 4 {
        Err(FrameError::ShortRead)
    } else {
        let len = le_value(input.take(4));
        if len > capacity {
            Err(FrameError::BufferOverflow)
        } else if input.len() < 4 + len {
            Err(FrameError::ShortRead)
        } else {
            Ok((input.subrange(4, 4 + len), (4 + len) as nat))
        }
    }
}

/// What reading one tagged frame from the front of `input` gives: its tag, its
/// payload and the number of bytes it occupies, or why it cannot be read.
pub open spec fn parse_tagged(input: Seq<u8>, capacity: nat) -> Result<(Seq<u8>, Seq<u8>, nat), FrameError> {
    if input.len() < 4 {
        Err(FrameError::ShortRead)
    } else {
        match parse_untagged(input.skip(4), capacity) {
            Ok((payload, n)) => Ok((input.take(4), payload, n + 4)),
            Err(e) => Err(e),
        }
    }
}

/// Appends `src` to `out`.
fn append_bytes(out: &mut Vec<u8>, src: &[u8])
    ensures
        final(out)@ == old(out)@ + src@,
{
    let mut i: usize = 0;
    while i < src.len()
        invariant
            i <= src@.len(),
            out@ == old(out)@ + src@.take(i as int),
        decreases src@.len() - i,
    {
        out.push(src[i]);
        i = i + 1;
        assert(src@.take(i as int) =~= src@.take(i - 1 as int).push(src@[i - 1 as int]));
    }
    assert(src@.take(i as int) =~= src@);
}

/// Encodes `payload` as an untagged frame.
pub fn encode_untagged(payload: &[u8]) -> (r: Vec<u8>)
    requires
        payload@.len() <= u32::MAX,
    ensures
        r@ == untagged_frame(payload@),
{
    let mut r = encode_length(payload.len() as u32);
    append_bytes(&mut r, payload);
    r
}

/// Encodes `payload` as a frame under `tag`.
pub fn encode_tagged(tag: &Tag, payload: &[u8]) -> (r: Vec<u8>)
    requires
        payload@.len() <= u32::MAX,
    ensures
        r@ == tagged_frame(tag@, payload@),
{
    let mut r: Vec<u8> = Vec::with_capacity(TAG_WIDTH + LENGTH_WIDTH);
    append_bytes(&mut r, tag.bytes.as_slice());
    let len = encode_length(payload.len() as u32);
    append_bytes(&mut r, len.as_slice());
    append_bytes(&mut r, payload);
    assert(r@ =~= tagged_frame(tag@, payload@));
    r
}

/// Reads the length field at the front of `input`.
pub fn decode_length(input: &[u8]) -> (r: Result<u32, FrameError>)
    ensures
        input@.len() >= 4 <==> r is Ok,
        r is Ok ==> r->Ok_0 == le_value(input@.take(4)),
        r is Err ==> r->Err_0 == FrameError::ShortRead,
{
    if input.len() < LENGTH_WIDTH {
        Err(FrameError::ShortRead)
    } else {
        let r = input[0] as u32 + 256 * (input[1] as u32) + 65536 * (input[2] as u32)
            + 16777216 * (input[3] as u32);
        Ok(r)
    }
}

/// Copies `input[start..end]` into a new vector.
fn copy_range(input: &[u8], start: usize, end: usize) -> (r: Vec<u8>)
    requires
        start <= end <= input@.len(),
    ensures
        r@ == input@.subrange(start as int, end as int),
{
    let mut r: Vec<u8> = Vec::with_capacity(end - start);
    let mut i: usize = start;
    while i < end
        invariant
            start <= i <= end <= input@.len(),
            r@ == input@.subrange(start as int, i as int),
        decreases end - i,
    {
        r.push(input[i]);
        i = i + 1;
        assert(r@ =~= input@.subrange(start as int, i as int));
    }
    r
}

/// Reads one untagged frame from the front of `input`, with room for at most
/// `capacity` payload bytes. Gives the payload and the number of bytes the
/// frame occupied; the next frame starts right after them.
pub fn decode_untagged(input: &[u8], capacity: usize) -> (r: Result<(Vec<u8>, usize), FrameError>)
    ensures
        match r {
            Ok((payload, consumed)) => parse_untagged(input@, capacity as nat) == Ok::<
                (Seq<u8>, nat),
                FrameError,
            >((payload@, consumed as nat)),
            Err(e) => parse_untagged(input@, capacity as nat) == Err::<(Seq<u8>, nat), FrameError>(e),
        },
{
    let len = match decode_length(input) {
        Ok(len) => len,
        Err(e) => return Err(e),
    };
    if len as usize > capacity {
        return Err(FrameError::BufferOverflow);
    }
    let len = len as usize;
    if input.len() - LENGTH_WIDTH < len {
        return Err(FrameError::ShortRead);
    }
    let payload = copy_range(input, LENGTH_WIDTH, LENGTH_WIDTH + len);
    Ok((payload, LENGTH_WIDTH + len))
}

/// Reads one tagged frame from the front of `input`, with room for at most
/// `capacity` payload bytes. Gives the tag, the payload and the number of bytes
/// the frame occupied.
pub fn decode_tagged(input: &[u8], capacity: usize) -> (r: Result<(Tag, Vec<u8>, usize), FrameError>)
    ensures
        match r {
            Ok((tag, payload, consumed)) => parse_tagged(input@, capacity as nat) == Ok::<
                (Seq<u8>, Seq<u8>, nat),
                FrameError,
            >((tag@, payload@, consumed as nat)),
            Err(e) => parse_tagged(input@, capacity as nat) == Err::<
                (Seq<u8>, Seq<u8>, nat),
                FrameError,
            >(e),
        },
{
    if input.len() < TAG_WIDTH {
        return Err(FrameError::ShortRead);
    }
    let tag = Tag { bytes: [input[0], input[1], input[2], input[3]] };
    assert(tag@ =~= input@.take(4));
    let body = slice_subrange(input, TAG_WIDTH, input.len());
    assert(body@ =~= input@.skip(4));
    match decode_untagged(body, capacity) {
        Ok((payload, consumed)) => Ok((tag, payload, consumed + TAG_WIDTH)),
        Err(e) => Err(e),
    }
}

/// Decoding the untagged frame of a payload that fits the capacity gives the
/// payload back, whatever follows the frame, and consumes the frame exactly:
/// its length field and its payload, no byte more or fewer.
pub proof fn lemma_untagged_round_trip(payload: Seq<u8>, rest: Seq<u8>, capacity: nat)
    requires
        payload.len() <= u32::MAX,
        payload.len() <= capacity,
    ensures
        untagged_frame(payload).len() == 4 + payload.len(),
        parse_untagged(untagged_frame(payload) + rest, capacity) == Ok::<(Seq<u8>, nat), FrameError>(
            (payload, untagged_frame(payload).len()),
        ),
{
    let n = payload.len() as u32;
    lemma_length_round_trip(n);
    let input = untagged_frame(payload) + rest;
    assert(input.take(4) =~= le_bytes(n));
    assert(input.subrange(4, 4 + payload.len() as int) =~= payload);
}

/// Decoding the tagged frame of a payload that fits the capacity gives the tag
/// and the payload back, whatever follows the frame, and consumes the frame
/// exactly.
pub proof fn lemma_tagged_round_trip(tag: Seq<u8>, payload: Seq<u8>, rest: Seq<u8>, capacity: nat)
    requires
        tag.len() == 4,
        payload.len() <= u32::MAX,
        payload.len() <= capacity,
    ensures
        tagged_frame(tag, payload).len() == 8 + payload.len(),
        parse_tagged(tagged_frame(tag, payload) + rest, capacity) == Ok::<
            (Seq<u8>, Seq<u8>, nat),
            FrameError,
        >((tag, payload, tagged_frame(tag, payload).len())),
{
    let input = tagged_frame(tag, payload) + rest;
    lemma_untagged_round_trip(payload, rest, capacity);
    assert(input.skip(4) =~= untagged_frame(payload) + rest);
    assert(input.take(4) =~= tag);
}

/// Two untagged frames written back to back are read back one after the other:
/// the second is read from exactly the byte where the first one ends.
pub proof fn lemma_consecutive_untagged(first: Seq<u8>, second: Seq<u8>, capacity: nat)
    requires
        first.len() <= u32::MAX,
        first.len() <= capacity,
        second.len() <= u32::MAX,
        second.len() <= capacity,
    ensures
        ({
            let input = untagged_frame(first) + untagged_frame(second);
            let end: nat = 4 + first.len();
            &&& parse_untagged(input, capacity) == Ok::<(Seq<u8>, nat), FrameError>((first, end))
            &&& parse_untagged(input.skip(end as int), capacity) == Ok::<(Seq<u8>, nat), FrameError>(
                (second, 4 + second.len()),
            )
        }),
{
    let input = untagged_frame(first) + untagged_frame(second);
    lemma_untagged_round_trip(first, untagged_frame(second), capacity);
    lemma_untagged_round_trip(second, Seq::empty(), capacity);
    assert(input.skip(4 + first.len() as int) =~= untagged_frame(second) + Seq::empty());
}

/// Two tagged frames written back to back are read back one after the other:
/// the second tag is read from exactly the byte where the first frame ends.
pub proof fn lemma_consecutive_tagged(
    tag1: Seq<u8>,
    first: Seq<u8>,
    tag2: Seq<u8>,
    second: Seq<u8>,
    capacity: nat,
)
    requires
        tag1.len() == 4,
        tag2.len() == 4,
        first.len() <= u32::MAX,
        first.len() <= capacity,
        second.len() <= u32::MAX,
        second.len() <= capacity,
    ensures
        ({
            let input = tagged_frame(tag1, first) + tagged_frame(tag2, second);
            let end: nat = 8 + first.len();
            &&& parse_tagged(input, capacity) == Ok::<(Seq<u8>, Seq<u8>, nat), FrameError>(
                (tag1, first, end),
            )
            &&& parse_tagged(input.skip(end as int), capacity) == Ok::<
                (Seq<u8>, Seq<u8>, nat),
                FrameError,
            >((tag2, second, 8 + second.len()))
        }),
{
    let input = tagged_frame(tag1, first) + tagged_frame(tag2, second);
    lemma_tagged_round_trip(tag1, first, tagged_frame(tag2, second), capacity);
    lemma_tagged_round_trip(tag2, second, Seq::empty(), capacity);
    assert(input.skip(8 + first.len() as int) =~= tagged_frame(tag2, second) + Seq::empty());
}

/// A frame with an empty payload is its tag, if any, and four zero bytes.
pub proof fn lemma_empty_payload(tag: Seq<u8>)
    ensures
        untagged_frame(Seq::empty()) == seq![0u8, 0u8, 0u8, 0u8],
        tagged_frame(tag, Seq::empty()) == tag + seq![0u8, 0u8, 0u8, 0u8],
{
    assert(untagged_frame(Seq::empty()) =~= seq![0u8, 0u8, 0u8, 0u8]);
    assert(tagged_frame(tag, Seq::empty()) =~= tag + seq![0u8, 0u8, 0u8, 0u8]);
}

} // verus!
