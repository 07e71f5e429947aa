use vstd::prelude::*;
use vstd::slice::{slice_subrange, slice_to_vec};

verus! {

/// The transport a client connected over.
#[derive(Clone, Copy, Debug, PartialEq, Eq, Structural)]
pub enum Protocol {
    Tcp,
    Udp,
    Ws,
}

/// Why a byte stream could not be framed.
#[derive(Clone, Copy, Debug, PartialEq, Eq, Structural)]
pub enum FrameError {
    /// A frame body must hold between 1 and 65535 bytes.
    InvalidLength,
    /// Fewer than two bytes remain where a length header is expected.
    MissingHeader,
    /// The header announces an empty body or more bytes than remain.
    Incomplete,
}

/// The largest body a frame can carry: its length travels as a little-endian `u16`.
pub const MAX_FRAME: usize = 65535;

/// The two-byte little-endian length header of a body of `len` bytes.
pub open spec fn frame_header(len: nat) -> Seq<u8> {
    seq![(len % 256) as u8, (len / 256) as u8]
}

/// A frame on the wire: the length header followed by the body.
pub open spec fn encode_frame(body: Seq<u8>) -> Seq<u8> {
    frame_header(body.len()) + body
}

/// Several frames written one after the other.
pub open spec fn encode_frames(frames: Seq<Seq<u8>>) -> Seq<u8>
    decreases frames.len(),
{
    if frames.len() == 0 {
        Seq::empty()
    } else {
        encode_frame(frames[0]) + encode_frames(frames.drop_first())
    }
}

/// A body that fits in one frame.
pub open spec fn valid_body(body: Seq<u8>) -> bool {
    0 < body.len() <= MAX_FRAME
}

/// The body length announced by the header at the start of `bytes`.
pub open spec fn header_len(bytes: Seq<u8>) -> int {
    bytes[0] as int + 256 * (bytes[1] as int)
}

/// Splits a buffer of back-to-back frames into their bodies.
pub open spec fn spec_unpack(bytes: Seq<u8>) -> Result<Seq<Seq<u8>>, FrameError>
    decreases bytes.len(),
{
    if bytes.len() == 0 {
        Ok(Seq::empty())
    } else if bytes.len() < 2 {
        Err(FrameError::MissingHeader)
    } else {
        let len = header_len(bytes);
        if len == 0 || bytes.len() < len + 2 {
            Err(FrameError::Incomplete)
        } else {
            match spec_unpack(bytes.subrange(len + 2, bytes.len() as int)) {
                Ok(rest) => Ok(seq![bytes.subrange(2, len + 2)] + rest),
                Err(e) => Err(e),
            }
        }
    }
}

/// `prefix` followed by the frames of an unpack result, or its error.
pub open spec fn after_prefix(prefix: Seq<Seq<u8>>, r: Result<Seq<Seq<u8>>, FrameError>) -> Result<
    Seq<Seq<u8>>,
    FrameError,
> {
    match r {
        Ok(rest) => Ok(prefix + rest),
        Err(e) => Err(e),
    }
}

/// The bodies held by a list of byte vectors.
pub open spec fn bodies(frames: Seq<Vec<u8>>) -> Seq<Seq<u8>> {
    frames.map_values(|v: Vec<u8>| v@)
}

/// Frames one message body: a little-endian `u16` length followed by the body.
pub fn packet(body: Vec<u8>) -> (res: Result<Vec<u8>, FrameError>)
    ensures
        res is Ok <==> valid_body(body@),
        res is Err ==> res == Err::<Vec<u8>, FrameError>(FrameError::InvalidLength),
        res matches Ok(bytes) ==> bytes@ == encode_frame(body@),
{
    let len = body.len();
    if len == 0 || len > MAX_FRAME {
        return Err(FrameError::InvalidLength);
    }
    let mut bytes: Vec<u8> = Vec::with_capacity(len + 2);
    bytes.push((len % 256) as u8);
    bytes.push((len / 256) as u8);
    let mut i: usize = 0;
    while i < len
        invariant
            len == body@.len(),
            i <= len,
            bytes@ == frame_header(len as nat) + body@.subrange(0, i as int),
        decreases len - i,
    {
        bytes.push(body[i]);
        i = i + 1;
        assert(body@.subrange(0, i as int) == body@.subrange(0, i - 1).push(body@[i - 1]));
    }
    assert(body@.subrange(0, len as int) == body@);
    Ok(bytes)
}

proof fn lemma_after_prefix_assoc(
    a: Seq<Seq<u8>>,
    b: Seq<Seq<u8>>,
    r: Result<Seq<Seq<u8>>, FrameError>,
)
    ensures
        after_prefix(a, after_prefix(b, r)) == after_prefix(a + b, r),
{
    if let Ok(rest) = r {
        assert(a + (b + rest) =~= (a + b) + rest);
    }
}

proof fn lemma_unpack_step(bytes: Seq<u8>, offset: int)
    requires
        0 <= offset,
        offset + 2 <= bytes.len(),
        header_len(bytes.subrange(offset, bytes.len() as int)) > 0,
        offset + 2 + header_len(bytes.subrange(offset, bytes.len() as int)) <= bytes.len(),
    ensures
        ({
            let rest = bytes.subrange(offset, bytes.len() as int);
            let len = header_len(rest);
            spec_unpack(rest) == after_prefix(
                seq![bytes.subrange(offset + 2, offset + 2 + len)],
                spec_unpack(bytes.subrange(offset + 2 + len, bytes.len() as int)),
            )
        }),
{
    let rest = bytes.subrange(offset, bytes.len() as int);
    let len = header_len(rest);
    assert(rest.subrange(len + 2, rest.len() as int) == bytes.subrange(
        offset + 2 + len,
        bytes.len() as int,
    ));
    assert(rest.subrange(2, len + 2) == bytes.subrange(offset + 2, offset + 2 + len));
}

/// Splits a buffer holding whole frames back into their bodies.
pub fn unpack(bytes: &[u8]) -> (res: Result<Vec<Vec<u8>>, FrameError>)
    ensures
        match res {
            Ok(frames) => spec_unpack(bytes@) == Ok::<Seq<Seq<u8>>, FrameError>(bodies(frames@)),
            Err(e) => spec_unpack(bytes@) == Err::<Seq<Seq<u8>>, FrameError>(e),
        },
{
    let mut frames: Vec<Vec<u8>> = Vec::new();
    let n = bytes.len();
    let mut offset: usize = 0;
    assert(bytes@.subrange(0, n as int) == bytes@);
    while offset < n
        invariant
            n == bytes@.len(),
            offset <= n,
            spec_unpack(bytes@) == after_prefix(
                bodies(frames@),
                spec_unpack(bytes@.subrange(offset as int, n as int)),
            ),
        decreases n - offset,
    {
        let ghost rest = bytes@.subrange(offset as int, n as int);
        if n - offset < 2 {
            return Err(FrameError::MissingHeader);
        }
        let len: usize = bytes[offset] as usize + 256 * (bytes[offset + 1] as usize);
        assert(len == header_len(rest));
        if len == 0 || n - offset < len + 2 {
            return Err(FrameError::Incomplete);
        }
        proof {
            lemma_unpack_step(bytes@, offset as int);
            lemma_after_prefix_assoc(
                bodies(frames@),
                seq![bytes@.subrange(offset + 2, offset + 2 + len)],
                spec_unpack(bytes@.subrange(offset + 2 + len, n as int)),
            );
        }
        let body = slice_to_vec(slice_subrange(bytes, offset + 2, offset + 2 + len));
        let ghost before = bodies(frames@);
        frames.push(body);
        assert(bodies(frames@) =~= before + seq![body@]);
        offset = offset + 2 + len;
    }
    assert(bytes@.subrange(n as int, n as int) == Seq::<u8>::empty());
    assert(bodies(frames@) + Seq::<Seq<u8>>::empty() == bodies(frames@));
    Ok(frames)
}

/// Unpacking the frames written for valid bodies gives those bodies back.
pub proof fn lemma_unpack_encode(frames: Seq<Seq<u8>>)
    requires
        forall|i: int| 0 <= i < frames.len() ==> valid_body(#[trigger] frames[i]),
    ensures
        spec_unpack(encode_frames(frames)) == Ok::<Seq<Seq<u8>>, FrameError>(frames),
    decreases frames.len(),
{
    if frames.len() == 0 {
        assert(encode_frames(frames) == Seq::<u8>::empty());
        assert(frames =~= Seq::<Seq<u8>>::empty());
    } else {
        let body = frames[0];
        let rest = frames.drop_first();
        assert forall|i: int| 0 <= i < rest.len() implies valid_body(#[trigger] rest[i]) by {
            assert(rest[i] == frames[i + 1]);
        }
        lemma_unpack_encode(rest);
        let bytes = encode_frames(frames);
        let len = body.len() as int;
        assert(valid_body(frames[0]));
        assert(bytes == encode_frame(body) + encode_frames(rest));
        assert(bytes[0] == (len % 256) as u8);
        assert(bytes[1] == (len / 256) as u8);
        assert(header_len(bytes) == len) by {
            assert(0 <= len % 256 < 256);
            assert(0 <= len / 256 < 256);
            assert(len == (len % 256) + 256 * (len / 256));
        }
        assert(bytes.len() >= 2);
        assert(bytes.subrange(2, len + 2) == body);
        assert(bytes.subrange(len + 2, bytes.len() as int) == encode_frames(rest));
        assert(spec_unpack(bytes) == after_prefix(
            seq![bytes.subrange(2, len + 2)],
            spec_unpack(bytes.subrange(len + 2, bytes.len() as int)),
        ));
        assert(spec_unpack(bytes.subrange(len + 2, bytes.len() as int)) == Ok::<
            Seq<Seq<u8>>,
            FrameError,
        >(rest));
        assert(seq![body] + rest =~= frames);
        assert(spec_unpack(bytes) == Ok::<Seq<Seq<u8>>, FrameError>(seq![body] + rest));
    }
}

/// Framing a body and splitting the result gives exactly that body back.
pub proof fn lemma_packet_roundtrip(body: Seq<u8>)
    requires
        valid_body(body),
    ensures
        spec_unpack(encode_frame(body)) == Ok::<Seq<Seq<u8>>, FrameError>(seq![body]),
{
    let frames = seq![body];
    assert(frames.drop_first() == Seq::<Seq<u8>>::empty());
    assert(encode_frames(Seq::<Seq<u8>>::empty()) == Seq::<u8>::empty());
    assert(encode_frames(frames) == encode_frame(body) + encode_frames(frames.drop_first()));
    assert(encode_frame(body) + Seq::<u8>::empty() == encode_frame(body));
    lemma_unpack_encode(frames);
}

} // verus!
