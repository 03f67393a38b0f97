use vstd::prelude::*;

verus! {

/// The CRC-8 (polynomial 0x31, init 0x00, xorout 0x00, reflected) of a byte
/// sequence; a header is valid when this checksum over its 5 bytes is 0.
pub uninterp spec fn crc8_of(data: Seq<u8>) -> u8;

/// The CRC-16/XMODEM (polynomial 0x1021, init 0x0000, xorout 0x0000, not
/// reflected) of a byte sequence; a payload is valid when this checksum over
/// the payload bytes followed by the two trailer bytes is 0.
pub uninterp spec fn crc16_of(data: Seq<u8>) -> u16;

/// Relies on crc_all::Crc::<u8>::update, run once from a fresh
/// Crc::<u8>::new(0x31, 8, 0x00, 0x00, true): the result depends on the
/// bytes alone.
#[verifier::external_body]
pub(crate) fn crc8_check(data: &Vec<u8>) -> (r: u8)
    ensures
        r == crc8_of(data@),
{
    let mut crc = crc_all::Crc::<u8>::new(0x31, 8, 0x00, 0x00, true);
    crc.update(data.as_slice())
}

/// Relies on crc_all::Crc::<u16>::update, run once from a fresh
/// Crc::<u16>::new(0x1021, 16, 0x0000, 0x0000, false): the result depends on
/// the bytes alone.
#[verifier::external_body]
pub(crate) fn crc16_check(data: &Vec<u8>) -> (r: u16)
    ensures
        r == crc16_of(data@),
{
    let mut crc = crc_all::Crc::<u16>::new(0x1021, 16, 0x0000, 0x0000, false);
    crc.update(data.as_slice())
}

} // verus!
