use vstd::prelude::*;
use crate::checksum::{crc8_of, crc16_of, crc8_check, crc16_check};
use crate::{PkgType, known_type, type_of_byte, pkg_type_from_byte};

verus! {

/// First byte of the two-byte sync marker.
pub const SYNC0: u8 = 0xFD;

/// Second byte of the two-byte sync marker; retained as the first header byte.
pub const SYNC1: u8 = 0xFC;

/// The three states of the frame-synchronization machine.
#[derive(Clone, Copy, Debug, PartialEq, Eq, Structural)]
pub enum FrameState {
    AwaitingHeader,
    HeaderPending,
    PayloadPending,
}

/// Mathematical model of the decoder: the accumulation buffer (the
/// not-yet-consumed suffix of the stream), the machine state, and the packet
/// type and payload length recorded from the last valid header.
#[verifier::ext_equal]
pub ghost struct DecoderModel {
    pub buf: Seq<u8>,
    pub state: FrameState,
    pub ty: PkgType,
    pub len: u8,
}

/// Rank used, with the buffer length, as a termination measure: the one
/// transition that consumes no byte goes from HeaderPending to PayloadPending.
pub open spec fn state_rank(s: FrameState) -> int {
    match s {
        FrameState::AwaitingHeader => 2,
        FrameState::HeaderPending => 1,
        FrameState::PayloadPending => 0,
    }
}

/// One step of the machine. `None` means the decoder must wait for more
/// input; otherwise the successor model and the frame emitted by the step,
/// if any.
pub open spec fn step(m: DecoderModel) -> Option<(DecoderModel, Option<(PkgType, Seq<u8>)>)> {
    match m.state {
        FrameState::AwaitingHeader => {
            if m.buf.len() < 2 {
                None
            } else if m.buf[0] == SYNC0 && m.buf[1] == SYNC1 {
                Some((
                    (DecoderModel {
                        buf: m.buf.skip(1),
                        state: FrameState::HeaderPending,
                        ty: m.ty,
                        len: m.len,
                    }),
                    None,
                ))
            } else {
                Some((
                    (DecoderModel {
                        buf: m.buf.skip(1),
                        state: FrameState::AwaitingHeader,
                        ty: m.ty,
                        len: m.len,
                    }),
                    None,
                ))
            }
        }
        FrameState::HeaderPending => {
            if m.buf.len() < 5 {
                None
            } else if crc8_of(m.buf.subrange(0, 5)) == 0 && known_type(m.buf[1]) {
                Some((
                    (DecoderModel {
                        buf: m.buf,
                        state: FrameState::PayloadPending,
                        ty: type_of_byte(m.buf[1]),
                        len: m.buf[2],
                    }),
                    None,
                ))
            } else {
                Some((
                    (DecoderModel {
                        buf: m.buf.skip(1),
                        state: FrameState::AwaitingHeader,
                        ty: m.ty,
                        len: m.len,
                    }),
                    None,
                ))
            }
        }
        FrameState::PayloadPending => {
            if m.buf.len() < m.len + 8 {
                None
            } else if crc16_of(m.buf.subrange(7, m.len + 7) + m.buf.subrange(5, 7)) == 0 {
                Some((
                    (DecoderModel {
                        buf: m.buf.skip(m.len + 7),
                        state: FrameState::AwaitingHeader,
                        ty: m.ty,
                        len: m.len,
                    }),
                    Some((m.ty, m.buf.subrange(0, m.len + 7))),
                ))
            } else {
                Some((
                    (DecoderModel {
                        buf: m.buf.skip(1),
                        state: FrameState::AwaitingHeader,
                        ty: m.ty,
                        len: m.len,
                    }),
                    None,
                ))
            }
        }
    }
}

/// The emissions of one step as a sequence.
pub open spec fn opt_emit(e: Option<(PkgType, Seq<u8>)>) -> Seq<(PkgType, Seq<u8>)> {
    match e {
        None => Seq::<(PkgType, Seq<u8>)>::empty(),
        Some(p) => seq![p],
    }
}

/// Runs the machine until it must wait for more input; yields the final model
/// and every frame emitted on the way, in order.
pub open spec fn drain(m: DecoderModel) -> (DecoderModel, Seq<(PkgType, Seq<u8>)>)
    decreases m.buf.len(), state_rank(m.state),
{
    match step(m) {
        None => (m, Seq::<(PkgType, Seq<u8>)>::empty()),
        Some((m2, e)) => {
            let rest = drain(m2);
            (rest.0, opt_emit(e) + rest.1)
        }
    }
}

/// The model with more bytes appended at the tail of the buffer.
pub open spec fn app_bytes(m: DecoderModel, chunk: Seq<u8>) -> DecoderModel {
    DecoderModel { buf: m.buf + chunk, state: m.state, ty: m.ty, len: m.len }
}

/// Feeding one chunk: append it, then drain.
pub open spec fn feed(m: DecoderModel, chunk: Seq<u8>) -> (DecoderModel, Seq<(PkgType, Seq<u8>)>) {
    drain(app_bytes(m, chunk))
}

/// The sequence of emitted packets, each frame seen as its byte sequence.
pub open spec fn views_of(out: Seq<(PkgType, Vec<u8>)>) -> Seq<(PkgType, Seq<u8>)> {
    out.map_values(|p: (PkgType, Vec<u8>)| (p.0, p.1@))
}

/// Unfolds `drain` by one step.
pub proof fn lemma_drain_step(m: DecoderModel)
    ensures
        (match step(m) {
            None => drain(m) == (m, Seq::<(PkgType, Seq<u8>)>::empty()),
            Some((m2, e)) => drain(m) == (drain(m2).0, opt_emit(e) + drain(m2).1),
        }),
{
}

/// The initial model for a stream: empty buffer, scanning for a marker.
pub open spec fn init_model() -> DecoderModel {
    DecoderModel {
        buf: Seq::<u8>::empty(),
        state: FrameState::AwaitingHeader,
        ty: PkgType::Nonsense,
        len: 0,
    }
}

/// The frame-synchronization and checksum-validation engine. It owns the
/// accumulation buffer; bytes are appended at the tail and removed only from
/// the head.
#[allow(non_camel_case_types)]
pub struct Data_Checker {
    raw_data: Vec<u8>,
    parsestate: FrameState,
    pkgtype: PkgType,
    len: u8,
}

impl View for Data_Checker {
    type V = DecoderModel;

    closed spec fn view(&self) -> DecoderModel {
        DecoderModel {
            buf: self.raw_data@,
            state: self.parsestate,
            ty: self.pkgtype,
            len: self.len,
        }
    }
}

/// Copies `v[start..end]` into a fresh vector.
fn copy_range(v: &Vec<u8>, start: usize, end: usize) -> (r: Vec<u8>)
    requires
        start <= end,
        end <= v@.len(),
    ensures
        r@ == v@.subrange(start as int, end as int),
{
    let mut r: Vec<u8> = Vec::new();
    let mut i: usize = start;
    proof {
        assert(r@ =~= v@.subrange(start as int, start as int));
    }
    while i < end
        invariant
            start <= i <= end,
            end <= v@.len(),
            r@ == v@.subrange(start as int, i as int),
        decreases end - i,
    {
        r.push(v[i]);
        i = i + 1;
        proof {
            assert(r@ =~= v@.subrange(start as int, i as int));
        }
    }
    r
}

/// Removes the first `k` bytes of `v` and returns them, preserving order.
fn split_front(v: &mut Vec<u8>, k: usize) -> (front: Vec<u8>)
    requires
        k <= old(v)@.len(),
    ensures
        front@ == old(v)@.subrange(0, k as int),
        final(v)@ == old(v)@.skip(k as int),
{
    let front = copy_range(v, 0, k);
    let mut rest: Vec<u8> = Vec::new();
    let mut i: usize = k;
    proof {
        assert(rest@ =~= v@.subrange(k as int, k as int));
    }
    while i < v.len()
        invariant
            k <= i <= v@.len(),
            v@ == old(v)@,
            rest@ == v@.subrange(k as int, i as int),
        decreases v@.len() - i,
    {
        rest.push(v[i]);
        i = i + 1;
        proof {
            assert(rest@ =~= v@.subrange(k as int, i as int));
        }
    }
    *v = rest;
    proof {
        assert(v@ =~= old(v)@.skip(k as int));
    }
    front
}

impl Data_Checker {
    /// A fresh engine: empty buffer, awaiting a sync marker.
    pub fn new() -> (r: Data_Checker)
        ensures
            r@ == init_model(),
    {
        let r = Data_Checker {
            raw_data: Vec::new(),
            parsestate: FrameState::AwaitingHeader,
            pkgtype: PkgType::Nonsense,
            len: 0,
        };
        proof {
            assert(r@ =~= init_model());
        }
        r
    }

    /// Appends one incoming chunk to the accumulation buffer, then drains as
    /// many complete, twice-checksummed frames as the buffer allows; the
    /// returned packets are exactly the emissions of the model's `drain`, in
    /// order, and the new state is the model `drain` leaves behind.
    pub fn push_bytes(&mut self, data: Vec<u8>) -> (out: Vec<(PkgType, Vec<u8>)>)
        ensures
            final(self)@ == feed(old(self)@, data@).0,
            views_of(out@) == feed(old(self)@, data@).1,
    {
        let ghost m0 = app_bytes(self@, data@);
        let mut data = data;
        self.raw_data.append(&mut data);
        proof {
            assert(self@ =~= m0);
        }
        let mut out: Vec<(PkgType, Vec<u8>)> = Vec::new();
        proof {
            assert(views_of(out@) =~= Seq::<(PkgType, Seq<u8>)>::empty());
        }
        loop
            invariant
                drain(m0).0 == drain(self@).0,
                drain(m0).1 == views_of(out@) + drain(self@).1,
            ensures
                drain(m0).0 == self@,
                drain(m0).1 == views_of(out@),
            decreases self.raw_data@.len(), state_rank(self.parsestate),
        {
            let ghost m_pre = self@;
            match self.parsestate {
                FrameState::AwaitingHeader => {
                    if self.raw_data.len() < 2 {
                        proof {
                            lemma_drain_step(m_pre);
                            assert(views_of(out@) + drain(self@).1 =~= views_of(out@));
                        }
                        break;
                    }
                    if self.raw_data[0] == SYNC0 && self.raw_data[1] == SYNC1 {
                        self.parsestate = FrameState::HeaderPending;
                    } else {
                        self.parsestate = FrameState::AwaitingHeader;
                    }
                    self.raw_data.remove(0);
                    proof {
                        assert(self.raw_data@ =~= m_pre.buf.skip(1));
                        let (m2, e) = step(m_pre).unwrap();
                        assert(self@ =~= m2);
                        lemma_drain_step(m_pre);
                        assert(views_of(out@) + drain(m_pre).1 =~= views_of(out@) + drain(self@).1);
                    }
                }
                FrameState::HeaderPending => {
                    if self.raw_data.len() < 5 {
                        proof {
                            lemma_drain_step(m_pre);
                            assert(views_of(out@) + drain(self@).1 =~= views_of(out@));
                        }
                        break;
                    }
                    let hdr = copy_range(&self.raw_data, 0, 5);
                    let head_res = crc8_check(&hdr);
                    let mut advanced = false;
                    if head_res == 0x00 {
                        match pkg_type_from_byte(self.raw_data[1]) {
                            Some(t) => {
                                self.pkgtype = t;
                                self.len = self.raw_data[2];
                                self.parsestate = FrameState::PayloadPending;
                            }
                            None => {
                                self.parsestate = FrameState::AwaitingHeader;
                                self.raw_data.remove(0);
                                advanced = true;
                            }
                        }
                    } else {
                        self.parsestate = FrameState::AwaitingHeader;
                        self.raw_data.remove(0);
                        advanced = true;
                    }
                    proof {
                        if advanced {
                            assert(self.raw_data@ =~= m_pre.buf.skip(1));
                        }
                        let (m2, e) = step(m_pre).unwrap();
                        assert(self@ =~= m2);
                        lemma_drain_step(m_pre);
                        assert(views_of(out@) + drain(m_pre).1 =~= views_of(out@) + drain(self@).1);
                    }
                }
                FrameState::PayloadPending => {
                    let pkg_len = self.len as usize;
                    if self.raw_data.len() < pkg_len + 8 {
                        proof {
                            lemma_drain_step(m_pre);
                            assert(views_of(out@) + drain(self@).1 =~= views_of(out@));
                        }
                        break;
                    }
                    let mut cat = copy_range(&self.raw_data, 7, pkg_len + 7);
                    let mut trailer = copy_range(&self.raw_data, 5, 7);
                    cat.append(&mut trailer);
                    let crc16 = crc16_check(&cat);
                    if crc16 == 0 {
                        let full_pkg = split_front(&mut self.raw_data, pkg_len + 7);
                        self.parsestate = FrameState::AwaitingHeader;
                        let ghost old_out = out@;
                        out.push((self.pkgtype, full_pkg));
                        proof {
                            let (m2, e) = step(m_pre).unwrap();
                            assert(self@ =~= m2);
                            assert(views_of(out@) =~= views_of(old_out) + opt_emit(e));
                            lemma_drain_step(m_pre);
                            assert(views_of(old_out) + drain(m_pre).1 =~= views_of(out@) + drain(self@).1);
                        }
                    } else {
                        self.parsestate = FrameState::AwaitingHeader;
                        self.raw_data.remove(0);
                        proof {
                            assert(self.raw_data@ =~= m_pre.buf.skip(1));
                            let (m2, e) = step(m_pre).unwrap();
                            assert(self@ =~= m2);
                            lemma_drain_step(m_pre);
                            assert(views_of(out@) + drain(m_pre).1 =~= views_of(out@) + drain(self@).1);
                        }
                    }
                }
            }
        }
        out
    }
}

} // verus!
