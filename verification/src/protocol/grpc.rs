//! gRPC streaming-LLM passthrough adapter — Vertex AI / Bedrock streaming
//! services.
//!
//! We don't ship protobuf schemas. The upstream's response stream is
//! recognised as a sequence of gRPC frames, and each protobuf message is
//! surfaced on its own so that the inspector can still match ASCII text
//! embedded in it. Introspection is best-effort: compressed frames are not
//! decoded.
//!
//! Wire shape (server-streaming gRPC frames):
//!
//! ```text
//!   compressed_flag (1 byte)  |
//!   length (4 bytes, big-endian) |
//!   message (length bytes)
//! ```
//!
//! In block mode the proxy answers with a single frame carrying a
//! `Status.code = 7` (PERMISSION_DENIED) message.
use vstd::prelude::*;

use crate::text::{has_sub, str_contains};

verus! {

pub struct GrpcAdapter;

impl GrpcAdapter {
    /// Identifier for logs.
    pub fn name(&self) -> (s: &'static str)
        ensures
            s@ == "grpc"@,
    {
        "grpc"
    }

    /// Accepts content types that mention grpc or proto.
    pub fn accepts(&self, content_type: &str) -> (b: bool)
        ensures
            b == (has_sub(content_type@, "application/grpc"@) || has_sub(content_type@, "grpc"@)
                || has_sub(content_type@, "proto"@)),
    {
        str_contains(content_type, "application/grpc") || str_contains(content_type, "grpc")
            || str_contains(content_type, "proto")
    }
}

/// The big-endian value of four bytes.
pub open spec fn be32(b0: u8, b1: u8, b2: u8, b3: u8) -> int {
    b0 * 16777216 + b1 * 65536 + b2 * 256 + b3
}

/// The big-endian encoding of `n < 2^32` on four bytes.
pub open spec fn be32_bytes(n: int) -> Seq<u8> {
    seq![(n / 16777216) as u8, ((n / 65536) % 256) as u8, ((n / 256) % 256) as u8, (n % 256) as u8]
}

/// The message ranges `(start, end)` of the frames of `body` read from
/// position `cursor` on: reading stops at a compressed frame, at a frame
/// whose message runs past the end, or when fewer than five bytes remain.
pub open spec fn frames_from(body: Seq<u8>, cursor: int) -> Seq<(int, int)>
    decreases body.len() - cursor,
{
    if cursor < 0 || cursor + 5 > body.len() {
        Seq::empty()
    } else {
        let len = be32(body[cursor + 1], body[cursor + 2], body[cursor + 3], body[cursor + 4]);
        let start = cursor + 5;
        if body[cursor] != 0 || start + len > body.len() {
            Seq::empty()
        } else {
            seq![(start, start + len)] + frames_from(body, start + len)
        }
    }
}

/// How a response body is surfaced to the inspector.
#[derive(Debug, Clone, PartialEq, Eq)]
pub enum GrpcBody {
    /// Not gRPC-framed: the whole body is surfaced as one chunk.
    Unframed,
    /// gRPC-framed: the message of each frame, as `(start, end)` byte ranges.
    Framed(Vec<(usize, usize)>),
}

/// Ranges as integers.
pub open spec fn ranges_view(v: Seq<(usize, usize)>) -> Seq<(int, int)> {
    v.map_values(|p: (usize, usize)| (p.0 as int, p.1 as int))
}

/// A body that is shorter than a frame header or whose first byte is not a
/// compressed flag (0 or 1) is not gRPC-framed.
pub open spec fn is_framed(body: Seq<u8>) -> bool {
    body.len() >= 5 && (body[0] == 0 || body[0] == 1)
}

/// Split a response body into its gRPC messages. A body that does not look
/// framed is surfaced whole; a framed one yields the message of every
/// frame up to the first compressed or truncated frame.
pub fn grpc_frames(body: &[u8]) -> (r: GrpcBody)
    ensures
        !is_framed(body@) ==> r == GrpcBody::Unframed,
        is_framed(body@) ==> (r matches GrpcBody::Framed(v) && ranges_view(v@) == frames_from(body@, 0)),
{
    if body.len() < 5 || (body[0] != 0 && body[0] != 1) {
        return GrpcBody::Unframed;
    }
    let mut out: Vec<(usize, usize)> = Vec::new();
    let mut cursor: usize = 0;
    while cursor <= body.len() && body.len() - cursor >= 5
        invariant_except_break
            ranges_view(out@) + frames_from(body@, cursor as int) == frames_from(body@, 0),
        invariant
            cursor <= body@.len(),
        ensures
            ranges_view(out@) == frames_from(body@, 0),
        decreases body.len() - cursor,
    {
        let compressed = body[cursor];
        let len = ((body[cursor + 1] as u64) * 16777216 + (body[cursor + 2] as u64) * 65536
            + (body[cursor + 3] as u64) * 256 + (body[cursor + 4] as u64));
        let start = cursor + 5;
        proof {
            assert(len == be32(body@[cursor + 1], body@[cursor + 2], body@[cursor + 3], body@[cursor + 4]));
        }
        if compressed != 0 {
            assert(frames_from(body@, cursor as int) == Seq::<(int, int)>::empty());
            assert(ranges_view(out@) + Seq::<(int, int)>::empty() =~= ranges_view(out@));
            break;
        }
        if len > (body.len() - start) as u64 {
            assert(frames_from(body@, cursor as int) == Seq::<(int, int)>::empty());
            assert(ranges_view(out@) + Seq::<(int, int)>::empty() =~= ranges_view(out@));
            break;
        }
        let end = start + len as usize;
        let ghost before = ranges_view(out@);
        out.push((start, end));
        proof {
            assert(ranges_view(out@) =~= before.push((start as int, end as int)));
            assert(frames_from(body@, cursor as int) == seq![(start as int, end as int)] + frames_from(body@, end as int));
            assert(before + frames_from(body@, cursor as int) =~= before.push((start as int, end as int)) + frames_from(body@, end as int));
        }
        cursor = end;
    }
    GrpcBody::Framed(out)
}

/// The gRPC frame that carries `message` uncompressed.
pub open spec fn encode_frame(message: Seq<u8>) -> Seq<u8> {
    seq![0u8] + be32_bytes(message.len() as int) + message
}

/// The body that signals `PERMISSION_DENIED` to a gRPC client: one
/// uncompressed frame whose two-byte message is field 1 (`Status.code`,
/// tag 0x08) with varint 7.
pub fn block_stub_body() -> (b: Vec<u8>)
    ensures
        b@ == encode_frame(seq![0x08u8, 0x07u8]),
{
    let b: Vec<u8> = vec![0x00, 0x00, 0x00, 0x00, 0x02, 0x08, 0x07];
    assert(b@ =~= encode_frame(seq![0x08u8, 0x07u8]));
    b
}

/// The gRPC frames carrying `ms`, one after the other.
pub open spec fn encode_frames(ms: Seq<Seq<u8>>) -> Seq<u8>
    decreases ms.len(),
{
    if ms.len() == 0 {
        Seq::empty()
    } else {
        encode_frame(ms[0]) + encode_frames(ms.drop_first())
    }
}

proof fn lemma_be32_round_trip(n: u32)
    ensures
        be32_bytes(n as int).len() == 4,
        be32(be32_bytes(n as int)[0], be32_bytes(n as int)[1], be32_bytes(n as int)[2], be32_bytes(n as int)[3]) == n,
{
    let b0 = n / 16777216;
    let b1 = (n / 65536) % 256;
    let b2 = (n / 256) % 256;
    let b3 = n % 256;
    assert(b0 < 256 && b1 < 256 && b2 < 256 && b3 < 256) by (bit_vector)
        requires
            b0 == n / 16777216,
            b1 == (n / 65536) % 256,
            b2 == (n / 256) % 256,
            b3 == n % 256;
    assert(b0 * 16777216 + b1 * 65536 + b2 * 256 + b3 == n) by (bit_vector)
        requires
            b0 == n / 16777216,
            b1 == (n / 65536) % 256,
            b2 == (n / 256) % 256,
            b3 == n % 256;
    assert(be32_bytes(n as int)[0] == b0 as u8);
    assert(be32_bytes(n as int)[1] == b1 as u8);
    assert(be32_bytes(n as int)[2] == b2 as u8);
    assert(be32_bytes(n as int)[3] == b3 as u8);
}

proof fn lemma_frames_after_prefix(pre: Seq<u8>, ms: Seq<Seq<u8>>)
    requires
        forall|i: int| 0 <= i < ms.len() ==> #[trigger] ms[i].len() < 0x1_0000_0000,
    ensures
        frames_from(pre + encode_frames(ms), pre.len() as int).len() == ms.len(),
        forall|i: int| 0 <= i < ms.len() ==> {
            let r = #[trigger] frames_from(pre + encode_frames(ms), pre.len() as int)[i];
            0 <= r.0 <= r.1 <= (pre + encode_frames(ms)).len()
                && (pre + encode_frames(ms)).subrange(r.0, r.1) == ms[i]
        },
    decreases ms.len(),
{
    let body = pre + encode_frames(ms);
    if ms.len() == 0 {
        assert(body.len() == pre.len());
    } else {
        let m = ms[0];
        let rest = ms.drop_first();
        let pre2 = pre + encode_frame(m);
        assert(body =~= pre2 + encode_frames(rest));
        assert forall|i: int| 0 <= i < rest.len() implies #[trigger] rest[i].len() < 0x1_0000_0000 by {
            assert(rest[i] == ms[i + 1]);
        }
        lemma_frames_after_prefix(pre2, rest);
        lemma_be32_round_trip(m.len() as u32);
        let c = pre.len() as int;
        let hdr = be32_bytes(m.len() as int);
        assert(body[c] == 0);
        assert(body[c + 1] == hdr[0]);
        assert(body[c + 2] == hdr[1]);
        assert(body[c + 3] == hdr[2]);
        assert(body[c + 4] == hdr[3]);
        let start = c + 5;
        assert(start + m.len() == pre2.len());
        let tail = frames_from(body, pre2.len() as int);
        assert(frames_from(body, c) == seq![(start, start + m.len())] + tail);
        assert(body.subrange(start, start + m.len()) =~= m);
        assert forall|i: int| 0 <= i < ms.len() implies {
            let r = #[trigger] frames_from(body, c)[i];
            0 <= r.0 <= r.1 <= body.len() && body.subrange(r.0, r.1) == ms[i]
        } by {
            if i > 0 {
                assert(frames_from(body, c)[i] == tail[i - 1]);
                assert(rest[i - 1] == ms[i]);
            }
        }
    }
}

/// Splitting a body made of uncompressed frames gives back every message,
/// in order.
pub proof fn law_frames_round_trip(ms: Seq<Seq<u8>>)
    requires
        ms.len() > 0,
        forall|i: int| 0 <= i < ms.len() ==> #[trigger] ms[i].len() < 0x1_0000_0000,
    ensures
        is_framed(encode_frames(ms)),
        frames_from(encode_frames(ms), 0).len() == ms.len(),
        forall|i: int| 0 <= i < ms.len() ==> {
            let r = #[trigger] frames_from(encode_frames(ms), 0)[i];
            0 <= r.0 <= r.1 <= encode_frames(ms).len() && encode_frames(ms).subrange(r.0, r.1) == ms[i]
        },
{
    let empty = Seq::<u8>::empty();
    assert(empty + encode_frames(ms) =~= encode_frames(ms));
    lemma_frames_after_prefix(empty, ms);
    assert(encode_frames(ms)[0] == 0);
}

/// The block stub is one uncompressed frame whose message is
/// `Status.code = PERMISSION_DENIED`.
pub proof fn law_block_stub_is_one_frame()
    ensures
        is_framed(encode_frame(seq![0x08u8, 0x07u8])),
        frames_from(encode_frame(seq![0x08u8, 0x07u8]), 0) == seq![(5int, 7int)],
        encode_frame(seq![0x08u8, 0x07u8]).subrange(5, 7) == seq![0x08u8, 0x07u8],
{
    let ms = seq![seq![0x08u8, 0x07u8]];
    assert(encode_frames(ms.drop_first()) =~= Seq::<u8>::empty());
    assert(encode_frames(ms) =~= encode_frame(seq![0x08u8, 0x07u8]));
    law_frames_round_trip(ms);
    let body = encode_frame(seq![0x08u8, 0x07u8]);
    lemma_be32_round_trip(2);
    assert(frames_from(body, 7) =~= Seq::<(int, int)>::empty());
    assert(frames_from(body, 0) =~= seq![(5int, 7int)]);
}

} // verus!
