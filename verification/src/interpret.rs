use vstd::prelude::*;
use crate::PkgType;

verus! {

/// Byte size of the payload of an AHRS frame: ten 32-bit fields and one
/// 64-bit timestamp.
pub const AHRS_PAYLOAD_LEN: usize = 48;

/// Full length of a validated AHRS frame as the decoder hands it over: the
/// retained marker byte and four more header bytes, the two checksum bytes,
/// then the payload.
pub const AHRS_FRAME_LEN: usize = AHRS_PAYLOAD_LEN + 7;

/// One AHRS measurement. Each 32-bit field holds, bit for bit, the
/// little-endian word the device sent (the bit pattern of one of its 32-bit
/// floats); the timestamp is the little-endian 64-bit word that follows them.
#[derive(Clone, Copy, Debug, PartialEq, Eq, Structural)]
pub struct AhrsRecord {
    pub roll_speed: u32,
    pub pitch_speed: u32,
    pub heading_speed: u32,
    pub roll: u32,
    pub pitch: u32,
    pub heading: u32,
    pub q1: u32,
    pub q2: u32,
    pub q3: u32,
    pub q4: u32,
    pub time_stamp: u64,
}

/// The little-endian 32-bit word at offset `i` of `s`.
pub open spec fn le_u32_at(s: Seq<u8>, i: int) -> u32
    recommends
        0 <= i,
        i + 4 <= s.len(),
{
    ((s[i] as int) + (s[i + 1] as int) * 0x100 + (s[i + 2] as int) * 0x10000 + (s[i + 3] as int)
        * 0x1000000) as u32
}

/// The little-endian 64-bit word at offset `i` of `s`.
pub open spec fn le_u64_at(s: Seq<u8>, i: int) -> u64
    recommends
        0 <= i,
        i + 8 <= s.len(),
{
    ((s[i] as int) + (s[i + 1] as int) * 0x100 + (s[i + 2] as int) * 0x10000 + (s[i + 3] as int)
        * 0x1000000 + (s[i + 4] as int) * 0x100000000 + (s[i + 5] as int) * 0x10000000000 + (s[i
        + 6] as int) * 0x1000000000000 + (s[i + 7] as int) * 0x100000000000000) as u64
}

/// The record a 48-byte AHRS payload denotes: angular rates, orientation
/// angles, orientation quaternion, timestamp, in wire order.
pub open spec fn ahrs_of(p: Seq<u8>) -> AhrsRecord
    recommends
        p.len() == 48,
{
    AhrsRecord {
        roll_speed: le_u32_at(p, 0),
        pitch_speed: le_u32_at(p, 4),
        heading_speed: le_u32_at(p, 8),
        roll: le_u32_at(p, 12),
        pitch: le_u32_at(p, 16),
        heading: le_u32_at(p, 20),
        q1: le_u32_at(p, 24),
        q2: le_u32_at(p, 28),
        q3: le_u32_at(p, 32),
        q4: le_u32_at(p, 36),
        time_stamp: le_u64_at(p, 40),
    }
}

/// Reads the little-endian 32-bit word at offset `i` of `v`.
fn read_le_u32(v: &Vec<u8>, i: usize) -> (r: u32)
    requires
        i + 4 <= v@.len(),
    ensures
        r == le_u32_at(v@, i as int),
{
    let _n: usize = v.len();  // names the length as a usize, bounding the index sums below
    (v[i] as u32) + (v[i + 1] as u32) * 0x100 + (v[i + 2] as u32) * 0x10000 + (v[i + 3] as u32)
        * 0x1000000
}

/// Reads the little-endian 64-bit word at offset `i` of `v`.
fn read_le_u64(v: &Vec<u8>, i: usize) -> (r: u64)
    requires
        i + 8 <= v@.len(),
    ensures
        r == le_u64_at(v@, i as int),
{
    let _n: usize = v.len();  // names the length as a usize, bounding the index sums below
    (v[i] as u64) + (v[i + 1] as u64) * 0x100 + (v[i + 2] as u64) * 0x10000 + (v[i + 3] as u64)
        * 0x1000000 + (v[i + 4] as u64) * 0x100000000 + (v[i + 5] as u64) * 0x10000000000 + (v[i
        + 6] as u64) * 0x1000000000000 + (v[i + 7] as u64) * 0x100000000000000
}

/// What the interpreter did with one validated packet.
#[derive(Clone, Copy, Debug, PartialEq, Eq, Structural)]
pub enum Interpretation {
    /// An AHRS packet of the right size, decoded field by field.
    Ahrs(AhrsRecord),
    /// A known type with no decoding defined yet: accepted and discarded.
    Accepted,
    /// An AHRS packet whose payload is not exactly the record's size: the
    /// packet is dropped and a diagnostic is owed.
    SizeMismatch,
}

/// The packet-interpretation stage: dispatches validated packets on their
/// declared type and decodes the payloads of the types it knows.
#[allow(non_camel_case_types)]
pub struct Data_parser {}

impl Data_parser {
    /// A fresh interpreter.
    pub fn new() -> (r: Data_parser) {
        Data_parser {  }
    }

    /// Decodes one validated packet. An AHRS frame of exactly the expected
    /// size yields the record its payload spells, bit for bit; a wrongly
    /// sized AHRS frame is reported as a size mismatch; every other type is
    /// accepted and discarded.
    pub fn interpret(&self, ty: PkgType, pkg: &Vec<u8>) -> (r: Interpretation)
        ensures
            (match r {
                Interpretation::Ahrs(rec) => ty == PkgType::AHRS && pkg@.len() == 55 && rec
                    == ahrs_of(pkg@.subrange(7, 55)),
                Interpretation::SizeMismatch => ty == PkgType::AHRS && pkg@.len() != 55,
                Interpretation::Accepted => ty != PkgType::AHRS,
            }),
    {
        match ty {
            PkgType::AHRS => {
                if pkg.len() == AHRS_FRAME_LEN {
                    let rec = AhrsRecord {
                        roll_speed: read_le_u32(pkg, 7),
                        pitch_speed: read_le_u32(pkg, 11),
                        heading_speed: read_le_u32(pkg, 15),
                        roll: read_le_u32(pkg, 19),
                        pitch: read_le_u32(pkg, 23),
                        heading: read_le_u32(pkg, 27),
                        q1: read_le_u32(pkg, 31),
                        q2: read_le_u32(pkg, 35),
                        q3: read_le_u32(pkg, 39),
                        q4: read_le_u32(pkg, 43),
                        time_stamp: read_le_u64(pkg, 47),
                    };
                    proof {
                        let p = pkg@.subrange(7, 55);
                        assert(forall|j: int| 0 <= j < 48 ==> p[j] == pkg@[7 + j]);
                        assert(rec == ahrs_of(p));
                    }
                    Interpretation::Ahrs(rec)
                } else {
                    Interpretation::SizeMismatch
                }
            }
            _ => Interpretation::Accepted,
        }
    }
}

} // verus!
