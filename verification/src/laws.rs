use vstd::prelude::*;
use crate::checksum::{crc8_of, crc16_of};
use crate::decoder::{
    DecoderModel, FrameState, SYNC0, SYNC1, app_bytes, drain, feed, lemma_drain_step, opt_emit,
    state_rank, step,
};
use crate::{PkgType, known_type, type_of_byte};

verus! {

/// When the five bytes of the header region fail the CRC-8 check, no frame
/// is emitted for that header; exactly one byte is dropped and the marker
/// scan resumes.
pub proof fn lemma_header_checksum_rejection(m: DecoderModel)
    requires
        m.state == FrameState::HeaderPending,
        m.buf.len() >= 5,
        crc8_of(m.buf.subrange(0, 5)) != 0,
    ensures
        step(m) == Some((
            (DecoderModel {
                buf: m.buf.skip(1),
                state: FrameState::AwaitingHeader,
                ty: m.ty,
                len: m.len,
            }),
            None::<(PkgType, Seq<u8>)>,
        )),
{
}

/// When the payload bytes followed by the two trailer bytes fail the CRC-16
/// check, the candidate frame is rejected, exactly one byte is dropped, and
/// resynchronization proceeds byte by byte.
pub proof fn lemma_payload_checksum_rejection(m: DecoderModel)
    requires
        m.state == FrameState::PayloadPending,
        m.buf.len() >= m.len + 8,
        crc16_of(m.buf.subrange(7, m.len + 7) + m.buf.subrange(5, 7)) != 0,
    ensures
        step(m) == Some((
            (DecoderModel {
                buf: m.buf.skip(1),
                state: FrameState::AwaitingHeader,
                ty: m.ty,
                len: m.len,
            }),
            None::<(PkgType, Seq<u8>)>,
        )),
{
}

/// A header whose checksum passes but whose declared type byte is unknown is
/// treated as corrupt — no frame is emitted and the scan advances by exactly
/// one byte.
pub proof fn lemma_type_filtering(m: DecoderModel)
    requires
        m.state == FrameState::HeaderPending,
        m.buf.len() >= 5,
        crc8_of(m.buf.subrange(0, 5)) == 0,
        !known_type(m.buf[1]),
    ensures
        step(m) == Some((
            (DecoderModel {
                buf: m.buf.skip(1),
                state: FrameState::AwaitingHeader,
                ty: m.ty,
                len: m.len,
            }),
            None::<(PkgType, Seq<u8>)>,
        )),
{
}

/// A sync marker found during the scan whose five header bytes fail the
/// CRC-8 check yields no frame at that position; the decoder runs the header
/// check, fails it, and the scan goes on two bytes past the marker (the
/// skipped byte is the retained marker byte, which can begin no frame).
pub proof fn lemma_spurious_marker(m: DecoderModel)
    requires
        m.state == FrameState::AwaitingHeader,
        m.buf.len() >= 6,
        m.buf[0] == SYNC0,
        m.buf[1] == SYNC1,
        crc8_of(m.buf.subrange(1, 6)) != 0,
    ensures
        drain(m).0 == drain(
            (DecoderModel {
                buf: m.buf.skip(2),
                state: FrameState::AwaitingHeader,
                ty: m.ty,
                len: m.len,
            }),
        ).0,
        drain(m).1 == drain(
            (DecoderModel {
                buf: m.buf.skip(2),
                state: FrameState::AwaitingHeader,
                ty: m.ty,
                len: m.len,
            }),
        ).1,
{
    lemma_drain_step(m);
    let m1 = step(m).unwrap().0;
    assert(m1.buf == m.buf.skip(1));
    assert(m1.buf.subrange(0, 5) =~= m.buf.subrange(1, 6));
    lemma_drain_step(m1);
    let m2 = step(m1).unwrap().0;
    assert(m1.buf.skip(1) =~= m.buf.skip(2));
    let target = DecoderModel {
        buf: m.buf.skip(2),
        state: FrameState::AwaitingHeader,
        ty: m.ty,
        len: m.len,
    };
    assert(m2 =~= target);
    assert(drain(m).1 =~= drain(m2).1);
}

/// One step commutes with appending bytes at the tail: a step that applies
/// reads only the front of the buffer, so later bytes change neither the
/// successor (beyond carrying the same tail) nor the emission.
pub proof fn lemma_step_append(m: DecoderModel, extra: Seq<u8>)
    requires
        step(m) is Some,
    ensures
        (match (step(m), step(app_bytes(m, extra))) {
            (Some((m2, e)), Some((n2, f))) => n2 == app_bytes(m2, extra) && f == e,
            _ => false,
        }),
{
    let b = m.buf;
    let c = b + extra;
    match m.state {
        FrameState::AwaitingHeader => {
            assert(b.len() >= 2);
            assert(c[0] == b[0] && c[1] == b[1]);
            assert(c.skip(1) =~= b.skip(1) + extra);
        }
        FrameState::HeaderPending => {
            assert(b.len() >= 5);
            assert(c.subrange(0, 5) =~= b.subrange(0, 5));
            assert(c[1] == b[1] && c[2] == b[2]);
            assert(c.skip(1) =~= b.skip(1) + extra);
        }
        FrameState::PayloadPending => {
            assert(b.len() >= m.len + 8);
            assert(c.subrange(7, m.len + 7) =~= b.subrange(7, m.len + 7));
            assert(c.subrange(5, 7) =~= b.subrange(5, 7));
            assert(c.subrange(0, m.len + 7) =~= b.subrange(0, m.len + 7));
            assert(c.skip(m.len + 7) =~= b.skip(m.len + 7) + extra);
            assert(c.skip(1) =~= b.skip(1) + extra);
        }
    }
}

/// Draining, then appending bytes and draining again, reaches the same state
/// and emits the same frames as draining once with the bytes already there.
pub proof fn lemma_drain_append(m: DecoderModel, extra: Seq<u8>)
    ensures
        drain(app_bytes(m, extra)).0 == drain(app_bytes(drain(m).0, extra)).0,
        drain(app_bytes(m, extra)).1 == drain(m).1 + drain(app_bytes(drain(m).0, extra)).1,
    decreases m.buf.len(), state_rank(m.state),
{
    lemma_drain_step(m);
    match step(m) {
        None => {
            assert(drain(m).0 == m);
            assert(drain(m).1 + drain(app_bytes(m, extra)).1 =~= drain(app_bytes(m, extra)).1);
        }
        Some((m2, e)) => {
            lemma_step_append(m, extra);
            lemma_drain_step(app_bytes(m, extra));
            lemma_drain_append(m2, extra);
            assert(drain(app_bytes(m, extra)).1 =~= drain(m).1 + drain(
                app_bytes(drain(m).0, extra),
            ).1);
        }
    }
}

/// Feeding two chunks one after the other reaches the same state and emits
/// the same frames, in the same order, as feeding their concatenation at
/// once.
pub proof fn lemma_partial_chunk_idempotence(m: DecoderModel, a: Seq<u8>, b: Seq<u8>)
    ensures
        feed(m, a + b).0 == feed(feed(m, a).0, b).0,
        feed(m, a + b).1 == feed(m, a).1 + feed(feed(m, a).0, b).1,
{
    assert(app_bytes(m, a + b) =~= app_bytes(app_bytes(m, a), b));
    lemma_drain_append(app_bytes(m, a), b);
}

/// The concatenation of a sequence of chunks.
pub open spec fn concat_chunks(chunks: Seq<Seq<u8>>) -> Seq<u8>
    decreases chunks.len(),
{
    if chunks.len() == 0 {
        Seq::<u8>::empty()
    } else {
        chunks[0] + concat_chunks(chunks.skip(1))
    }
}

/// Feeding a sequence of chunks one by one: the final state and all frames
/// emitted along the way, in order.
pub open spec fn feed_all(m: DecoderModel, chunks: Seq<Seq<u8>>) -> (
    DecoderModel,
    Seq<(PkgType, Seq<u8>)>,
)
    decreases chunks.len(),
{
    if chunks.len() == 0 {
        (m, Seq::<(PkgType, Seq<u8>)>::empty())
    } else {
        let first = feed(m, chunks[0]);
        let rest = feed_all(first.0, chunks.skip(1));
        (rest.0, first.1 + rest.1)
    }
}

/// Splitting a byte stream into arbitrarily many chunks and feeding them one
/// by one reaches the same state and emits the same frames as feeding the
/// whole stream at once: what comes out does not depend on how the stream
/// was cut across reads.
pub proof fn lemma_chunking_independence(m: DecoderModel, chunks: Seq<Seq<u8>>)
    requires
        chunks.len() >= 1,
    ensures
        feed_all(m, chunks).0 == feed(m, concat_chunks(chunks)).0,
        feed_all(m, chunks).1 == feed(m, concat_chunks(chunks)).1,
    decreases chunks.len(),
{
    if chunks.len() == 1 {
        reveal_with_fuel(feed_all, 2);
        reveal_with_fuel(concat_chunks, 2);
        assert(chunks.skip(1).len() == 0);
        assert(concat_chunks(chunks) =~= chunks[0]);
        assert(feed_all(m, chunks).1 =~= feed(m, chunks[0]).1);
    } else {
        lemma_chunking_independence(feed(m, chunks[0]).0, chunks.skip(1));
        lemma_partial_chunk_idempotence(m, chunks[0], concat_chunks(chunks.skip(1)));
    }
}

/// The accumulation buffer only ever loses bytes from its head: whatever the
/// machine does, the buffer it leaves behind when it next waits for input is
/// a suffix of the buffer it started from.
pub proof fn lemma_buffer_is_stream_suffix(m: DecoderModel)
    ensures
        exists|k: int| 0 <= k <= m.buf.len() && drain(m).0.buf == m.buf.skip(k),
    decreases m.buf.len(), state_rank(m.state),
{
    lemma_drain_step(m);
    match step(m) {
        None => {
            assert(m.buf.skip(0) =~= m.buf);
            assert(0 <= 0 <= m.buf.len() && drain(m).0.buf == m.buf.skip(0));
        }
        Some((m2, e)) => {
            lemma_buffer_is_stream_suffix(m2);
            let k2 = choose|k: int| 0 <= k <= m2.buf.len() && drain(m2).0.buf == m2.buf.skip(k);
            if m2.buf == m.buf {
                assert(drain(m).0.buf == m.buf.skip(k2));
            } else if m2.buf == m.buf.skip(1) {
                assert(m.buf.skip(1).skip(k2) =~= m.buf.skip(1 + k2));
                assert(drain(m).0.buf == m.buf.skip(1 + k2));
            } else {
                assert(m.state == FrameState::PayloadPending && m2.buf == m.buf.skip(
                    m.len + 7,
                ));
                let j = m.len + 7;
                assert(m.buf.skip(j as int).skip(k2) =~= m.buf.skip(j + k2));
                assert(drain(m).0.buf == m.buf.skip(j + k2));
            }
        }
    }
}

/// A position of `s` where a sync marker is followed by a five-byte header
/// region that passes the CRC-8 check and declares a known type. Scanning
/// past such a position is the only way the decoder can leave the header
/// states without dropping a byte there.
pub open spec fn valid_header_at(s: Seq<u8>, p: int) -> bool {
    &&& 0 <= p
    &&& p + 6 <= s.len()
    &&& s[p] == SYNC0
    &&& s[p + 1] == SYNC1
    &&& crc8_of(s.subrange(p + 1, p + 6)) == 0
    &&& known_type(s[p + 2])
}

/// A complete well-formed frame at position `p` of `s`: a valid header, all
/// of the frame's bytes present with one byte to spare (the decoder waits
/// for one byte beyond the declared length before it validates), and a
/// passing payload checksum. These are exactly the conditions under which a
/// scan arriving at `p` emits a frame.
pub open spec fn frame_at(s: Seq<u8>, p: int) -> bool {
    &&& valid_header_at(s, p)
    &&& p + (s[p + 3] as int) + 9 <= s.len()
    &&& crc16_of(s.subrange(p + 8, p + 8 + (s[p + 3] as int)) + s.subrange(p + 6, p + 8)) == 0
}

/// No position of `s` carries a complete well-formed frame.
pub open spec fn no_frame_in(s: Seq<u8>) -> bool {
    forall|p: int| !frame_at(s, p)
}

/// A buffer at the front of which the header check and then the payload
/// check both pass, so that the machine, entering HeaderPending on it, emits
/// a frame without dropping a byte first.
pub open spec fn head_emits(b: Seq<u8>) -> bool {
    &&& b.len() >= 5
    &&& crc8_of(b.subrange(0, 5)) == 0
    &&& known_type(b[1])
    &&& b.len() >= (b[2] as int) + 8
    &&& crc16_of(b.subrange(7, (b[2] as int) + 7) + b.subrange(5, 7)) == 0
}

/// A buffer on which the payload check passes for a recorded length `len`.
pub open spec fn payload_emits(b: Seq<u8>, len: u8) -> bool {
    &&& b.len() >= len + 8
    &&& crc16_of(b.subrange(7, len + 7) + b.subrange(5, 7)) == 0
}

/// A valid header moves with the positions when a prefix is dropped.
pub proof fn lemma_valid_header_shift(s: Seq<u8>, k: int, q: int)
    requires
        0 <= k <= s.len(),
        0 <= q,
    ensures
        valid_header_at(s.skip(k), q) <==> valid_header_at(s, q + k),
{
    let t = s.skip(k);
    if q + 6 <= t.len() {
        assert(t.subrange(q + 1, q + 6) =~= s.subrange(q + k + 1, q + k + 6));
    }
}

/// A complete frame moves with the positions when a prefix is dropped.
pub proof fn lemma_frame_at_shift(s: Seq<u8>, k: int, q: int)
    requires
        0 <= k <= s.len(),
        0 <= q,
    ensures
        frame_at(s.skip(k), q) <==> frame_at(s, q + k),
{
    let t = s.skip(k);
    lemma_valid_header_shift(s, k, q);
    if q + 6 <= t.len() {
        assert(t[q + 3] == s[q + k + 3]);
        let ll = s[q + k + 3] as int;
        if q + ll + 9 <= t.len() {
            assert(t.subrange(q + 8, q + 8 + ll) =~= s.subrange(q + k + 8, q + k + 8 + ll));
            assert(t.subrange(q + 6, q + 8) =~= s.subrange(q + k + 6, q + k + 8));
        }
    }
}

/// A marker at the front of a buffer whose one-byte-shifted rest passes both
/// checks is a complete frame at position 0.
pub proof fn lemma_head_emits_frame_at(b: Seq<u8>)
    requires
        b.len() >= 2,
        b[0] == SYNC0,
        b[1] == SYNC1,
        head_emits(b.skip(1)),
    ensures
        frame_at(b, 0),
{
    let t = b.skip(1);
    assert(b.subrange(1, 6) =~= t.subrange(0, 5));
    assert(b[2] == t[1] && b[3] == t[2]);
    let ll = t[2] as int;
    assert(b.subrange(8, 8 + ll) =~= t.subrange(7, ll + 7));
    assert(b.subrange(6, 8) =~= t.subrange(5, 7));
}

/// Noise is quiet: a buffer holding no complete well-formed frame — and, in
/// the two committed states, failing the pending check at the front — makes
/// the decoder emit nothing, however long it keeps resynchronizing.
pub proof fn lemma_quiet(m: DecoderModel)
    requires
        no_frame_in(m.buf),
        m.state == FrameState::HeaderPending ==> !head_emits(m.buf),
        m.state == FrameState::PayloadPending ==> !payload_emits(m.buf, m.len),
    ensures
        drain(m).1 == Seq::<(PkgType, Seq<u8>)>::empty(),
    decreases m.buf.len(), state_rank(m.state),
{
    lemma_drain_step(m);
    match step(m) {
        None => {}
        Some((m2, e)) => {
            let b = m.buf;
            match m.state {
                FrameState::AwaitingHeader => {
                    assert forall|p: int| !frame_at(m2.buf, p) by {
                        if 0 <= p {
                            lemma_frame_at_shift(b, 1, p);
                            assert(!frame_at(b, p + 1));
                        }
                    }
                    if b[0] == SYNC0 && b[1] == SYNC1 {
                        if head_emits(m2.buf) {
                            lemma_head_emits_frame_at(b);
                            assert(frame_at(b, 0));
                            assert(false);
                        }
                    }
                    lemma_quiet(m2);
                }
                FrameState::HeaderPending => {
                    if crc8_of(b.subrange(0, 5)) == 0 && known_type(b[1]) {
                        assert(m2.buf == b);
                        if payload_emits(b, m2.len) {
                            assert(head_emits(b));
                            assert(false);
                        }
                        lemma_quiet(m2);
                    } else {
                        assert forall|p: int| !frame_at(m2.buf, p) by {
                            if 0 <= p {
                                lemma_frame_at_shift(b, 1, p);
                                assert(!frame_at(b, p + 1));
                            }
                        }
                        lemma_quiet(m2);
                    }
                }
                FrameState::PayloadPending => {
                    assert(m2.buf == b.skip(1));
                    assert forall|p: int| !frame_at(m2.buf, p) by {
                        if 0 <= p {
                            lemma_frame_at_shift(b, 1, p);
                            assert(!frame_at(b, p + 1));
                        }
                    }
                    lemma_quiet(m2);
                }
            }
            assert(opt_emit(e) + drain(m2).1 =~= Seq::<(PkgType, Seq<u8>)>::empty());
        }
    }
}

/// Scanning over a region with no valid header: the decoder drops its bytes
/// one at a time (two when a spurious marker draws a failing header check)
/// and reaches position `k` with nothing emitted and nothing else changed.
pub proof fn lemma_scan(m: DecoderModel, k: int)
    requires
        m.state == FrameState::AwaitingHeader,
        0 <= k,
        k + 7 <= m.buf.len(),
        m.buf[k] == SYNC0,
        forall|p: int| 0 <= p < k ==> !valid_header_at(m.buf, p),
    ensures
        drain(m).0 == drain(
            (DecoderModel {
                buf: m.buf.skip(k),
                state: FrameState::AwaitingHeader,
                ty: m.ty,
                len: m.len,
            }),
        ).0,
        drain(m).1 == drain(
            (DecoderModel {
                buf: m.buf.skip(k),
                state: FrameState::AwaitingHeader,
                ty: m.ty,
                len: m.len,
            }),
        ).1,
    decreases k,
{
    let b = m.buf;
    let target = DecoderModel {
        buf: b.skip(k),
        state: FrameState::AwaitingHeader,
        ty: m.ty,
        len: m.len,
    };
    if k == 0 {
        assert(b.skip(0) =~= b);
        assert(m =~= target);
    } else {
        lemma_drain_step(m);
        if b[0] == SYNC0 && b[1] == SYNC1 {
            assert(k != 1);
            assert(!valid_header_at(b, 0));
            let m1 = step(m).unwrap().0;
            assert(m1.buf == b.skip(1));
            assert(m1.buf.subrange(0, 5) =~= b.subrange(1, 6));
            assert(m1.buf[1] == b[2]);
            lemma_drain_step(m1);
            let m2 = step(m1).unwrap().0;
            assert(m1.buf.skip(1) =~= b.skip(2));
            let mr = DecoderModel {
                buf: b.skip(2),
                state: FrameState::AwaitingHeader,
                ty: m.ty,
                len: m.len,
            };
            assert(m2 =~= mr);
            assert forall|p: int| 0 <= p < k - 2 implies !valid_header_at(b.skip(2), p) by {
                lemma_valid_header_shift(b, 2, p);
                assert(!valid_header_at(b, p + 2));
            }
            assert(b.skip(2)[k - 2] == b[k]);
            lemma_scan(mr, k - 2);
            let t2 = DecoderModel {
                buf: b.skip(2).skip(k - 2),
                state: FrameState::AwaitingHeader,
                ty: m.ty,
                len: m.len,
            };
            assert(b.skip(2).skip(k - 2) =~= b.skip(k));
            assert(t2 =~= target);
            assert(drain(m).1 =~= drain(mr).1);
        } else {
            let m1 = step(m).unwrap().0;
            let mr = DecoderModel {
                buf: b.skip(1),
                state: FrameState::AwaitingHeader,
                ty: m.ty,
                len: m.len,
            };
            assert(m1 =~= mr);
            assert forall|p: int| 0 <= p < k - 1 implies !valid_header_at(b.skip(1), p) by {
                lemma_valid_header_shift(b, 1, p);
                assert(!valid_header_at(b, p + 1));
            }
            assert(b.skip(1)[k - 1] == b[k]);
            lemma_scan(mr, k - 1);
            let t1 = DecoderModel {
                buf: b.skip(1).skip(k - 1),
                state: FrameState::AwaitingHeader,
                ty: m.ty,
                len: m.len,
            };
            assert(b.skip(1).skip(k - 1) =~= b.skip(k));
            assert(t1 =~= target);
            assert(drain(m).1 =~= drain(mr).1);
        }
    }
}

/// One well-formed frame as it stands on the wire, both sync bytes included:
/// its length byte accounts for its whole extent, its header passes the
/// CRC-8 check, its declared type is known, and its payload and trailer pass
/// the CRC-16 check.
pub open spec fn wf_frame(f: Seq<u8>) -> bool {
    &&& f.len() == (f[3] as int) + 8
    &&& f[0] == SYNC0
    &&& f[1] == SYNC1
    &&& crc8_of(f.subrange(1, 6)) == 0
    &&& known_type(f[2])
    &&& crc16_of(f.subrange(8, f.len() as int) + f.subrange(6, 8)) == 0
}

/// A stream of noise, one well-formed frame, and more noise — where no
/// candidate header in the leading noise validates and the trailing noise
/// holds no complete frame — yields exactly the one frame, with its type and
/// all its bytes past the dropped first marker byte: the decoder
/// resynchronizes through the noise without losing the frame. At least one
/// byte must follow the frame, since the decoder waits for one byte beyond
/// the declared length before it validates a payload. That the result does
/// not depend on how the stream is chunked is `lemma_chunking_independence`.
pub proof fn lemma_resync(m: DecoderModel, pre: Seq<u8>, f: Seq<u8>, post: Seq<u8>)
    requires
        m.state == FrameState::AwaitingHeader,
        m.buf == pre + f + post,
        wf_frame(f),
        post.len() >= 1,
        forall|p: int| 0 <= p < pre.len() ==> !valid_header_at(pre + f + post, p),
        no_frame_in(post),
    ensures
        drain(m).1 == seq![(type_of_byte(f[2]), f.skip(1))],
{
    let s = pre + f + post;
    let k = pre.len() as int;
    assert(s.skip(k) =~= f + post);
    let g = f + post;
    assert(s[k] == g[0] && g[0] == f[0]);
    lemma_scan(m, k);
    let m_k = DecoderModel {
        buf: s.skip(k),
        state: FrameState::AwaitingHeader,
        ty: m.ty,
        len: m.len,
    };
    let m_g = DecoderModel { buf: g, state: FrameState::AwaitingHeader, ty: m.ty, len: m.len };
    assert(m_k =~= m_g);
    lemma_drain_step(m_g);
    assert(g[1] == f[1]);
    let m1 = step(m_g).unwrap().0;
    assert(m1.buf == g.skip(1));
    let b1 = g.skip(1);
    assert(b1 =~= f.skip(1) + post);
    assert(b1.subrange(0, 5) =~= f.subrange(1, 6));
    assert(b1[1] == f[2] && b1[2] == f[3]);
    lemma_drain_step(m1);
    let m2 = step(m1).unwrap().0;
    assert(m2.state == FrameState::PayloadPending);
    assert(m2.ty == type_of_byte(f[2]) && m2.len == f[3]);
    let ll = f[3] as int;
    assert(b1.len() == ll + 7 + post.len());
    assert(b1.subrange(7, ll + 7) =~= f.subrange(8, f.len() as int));
    assert(b1.subrange(5, 7) =~= f.subrange(6, 8));
    lemma_drain_step(m2);
    let st = step(m2).unwrap();
    let m3 = st.0;
    let e = st.1;
    assert(e == Some((type_of_byte(f[2]), b1.subrange(0, ll + 7))));
    assert(b1.subrange(0, ll + 7) =~= f.skip(1));
    assert(m3.buf =~= post);
    let mq = DecoderModel {
        buf: post,
        state: FrameState::AwaitingHeader,
        ty: type_of_byte(f[2]),
        len: f[3],
    };
    assert(m3 =~= mq);
    lemma_quiet(mq);
    assert(drain(m).1 =~= seq![(type_of_byte(f[2]), f.skip(1))]);
}

} // verus!
