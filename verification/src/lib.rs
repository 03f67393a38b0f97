use vstd::prelude::*;

pub mod checksum;
pub mod decoder;
pub mod interpret;
pub mod laws;
pub mod receiver;

verus! {

/// The packet types the device declares in a frame header.
#[derive(Clone, Copy, Debug, PartialEq, Eq, Structural)]
pub enum PkgType {
    Nonsense,
    IMU,
    AHRS,
    InsGps,
    Raw,
}

/// The wire code of each packet type.
pub open spec fn type_code(t: PkgType) -> u8 {
    match t {
        PkgType::Nonsense => 0x00,
        PkgType::IMU => 0x40,
        PkgType::AHRS => 0x41,
        PkgType::InsGps => 0x42,
        PkgType::Raw => 0x58,
    }
}

/// Whether a declared type byte maps to a known packet type.
pub open spec fn known_type(b: u8) -> bool {
    b == 0x00 || b == 0x40 || b == 0x41 || b == 0x42 || b == 0x58
}

/// The packet type a known type byte maps to.
pub open spec fn type_of_byte(b: u8) -> PkgType {
    if b == 0x40 {
        PkgType::IMU
    } else if b == 0x41 {
        PkgType::AHRS
    } else if b == 0x42 {
        PkgType::InsGps
    } else if b == 0x58 {
        PkgType::Raw
    } else {
        PkgType::Nonsense
    }
}

/// Maps a declared type byte to its packet type; an unrecognized byte is an
/// error condition, not a variant.
pub fn pkg_type_from_byte(b: u8) -> (r: Option<PkgType>)
    ensures
        (match r {
            Some(t) => known_type(b) && t == type_of_byte(b) && type_code(t) == b,
            None => !known_type(b),
        }),
{
    if b == 0x00 {
        Some(PkgType::Nonsense)
    } else if b == 0x40 {
        Some(PkgType::IMU)
    } else if b == 0x41 {
        Some(PkgType::AHRS)
    } else if b == 0x42 {
        Some(PkgType::InsGps)
    } else if b == 0x58 {
        Some(PkgType::Raw)
    } else {
        None
    }
}

} // verus!
