use ahrs_stream::decoder::Data_Checker;
use ahrs_stream::{pkg_type_from_byte, PkgType};

fn crc8(data: &[u8]) -> u8 {
    let mut crc = crc_all::Crc::<u8>::new(0x31, 8, 0x00, 0x00, true);
    crc.update(data)
}

fn crc16(data: &[u8]) -> u16 {
    let mut crc = crc_all::Crc::<u16>::new(0x1021, 16, 0x0000, 0x0000, false);
    crc.update(data)
}

/// Builds one well-formed wire frame: marker, type, length, reserved byte,
/// a CRC-8 byte that makes the five-byte header region check out, the two
/// trailer bytes that make the payload check out, then the payload.
fn build_frame(ty: u8, payload: &[u8]) -> Vec<u8> {
    let len = payload.len() as u8;
    let reserved = 0x07u8;
    let mut c8 = 0u8;
    let mut found = false;
    for c in 0..=255u8 {
        if crc8(&[0xFC, ty, len, reserved, c]) == 0 {
            c8 = c;
            found = true;
            break;
        }
    }
    assert!(found, "no CRC-8 byte closes this header");
    let mut trailer = [0u8; 2];
    let mut found_t = false;
    'outer: for a in 0..=255u8 {
        for b in 0..=255u8 {
            let mut v = payload.to_vec();
            v.push(a);
            v.push(b);
            if crc16(&v) == 0 {
                trailer = [a, b];
                found_t = true;
                break 'outer;
            }
        }
    }
    assert!(found_t, "no CRC-16 trailer closes this payload");
    let mut f = vec![0xFD, 0xFC, ty, len, reserved, c8, trailer[0], trailer[1]];
    f.extend_from_slice(payload);
    f
}

#[test]
fn one_frame_whole() {
    let payload: Vec<u8> = (0..48u8).collect();
    let frame = build_frame(0x41, &payload);
    let mut stream = frame.clone();
    stream.push(0xAA); // the decoder waits for one byte past the frame
    let mut checker = Data_Checker::new();
    let out = checker.push_bytes(stream);
    assert_eq!(out.len(), 1);
    assert_eq!(out[0].0, PkgType::AHRS);
    assert_eq!(out[0].1, frame[1..].to_vec());
}

#[test]
fn no_spare_byte_no_emission_yet() {
    let frame = build_frame(0x41, &[1, 2, 3, 4]);
    let mut checker = Data_Checker::new();
    let out = checker.push_bytes(frame.clone());
    assert_eq!(out.len(), 0);
    let out2 = checker.push_bytes(vec![0x00]);
    assert_eq!(out2.len(), 1);
    assert_eq!(out2[0].1, frame[1..].to_vec());
}

#[test]
fn resync_through_noise() {
    let payload: Vec<u8> = (100..148u8).collect();
    let frame = build_frame(0x41, &payload);
    let mut stream = vec![0x01, 0xFD, 0x33, 0xFC, 0x55];
    stream.extend_from_slice(&frame);
    stream.push(0x00);
    let mut checker = Data_Checker::new();
    let out = checker.push_bytes(stream);
    assert_eq!(out.len(), 1);
    assert_eq!(out[0].0, PkgType::AHRS);
    assert_eq!(out[0].1, frame[1..].to_vec());
}

#[test]
fn chunked_delivery_same_frame() {
    let payload: Vec<u8> = (0..16u8).map(|b| b.wrapping_mul(7)).collect();
    let frame = build_frame(0x40, &payload);
    let mut stream = vec![0x10, 0x20];
    stream.extend_from_slice(&frame);
    stream.push(0x99);
    let mut whole = Data_Checker::new();
    let whole_out = whole.push_bytes(stream.clone());
    let mut bytewise = Data_Checker::new();
    let mut chunked_out = Vec::new();
    for b in &stream {
        chunked_out.extend(bytewise.push_bytes(vec![*b]));
    }
    assert_eq!(whole_out.len(), 1);
    assert_eq!(chunked_out.len(), 1);
    assert_eq!(whole_out[0].0, chunked_out[0].0);
    assert_eq!(whole_out[0].1, chunked_out[0].1);
}

#[test]
fn header_bit_flip_rejected() {
    let payload: Vec<u8> = (0..8u8).collect();
    let frame = build_frame(0x41, &payload);
    for bit in 0..8 {
        for pos in 1..6 {
            let mut corrupted = frame.clone();
            corrupted[pos] ^= 1 << bit;
            if crc8(&corrupted[1..6]) == 0 {
                continue; // coincidental re-pass
            }
            corrupted.push(0x00);
            let mut checker = Data_Checker::new();
            let out = checker.push_bytes(corrupted);
            assert_eq!(out.len(), 0);
        }
    }
}

#[test]
fn payload_bit_flip_rejected() {
    let payload: Vec<u8> = (0..8u8).collect();
    let frame = build_frame(0x41, &payload);
    for pos in 6..frame.len() {
        let mut corrupted = frame.clone();
        corrupted[pos] ^= 0x01;
        corrupted.push(0x00);
        let mut checker = Data_Checker::new();
        let out = checker.push_bytes(corrupted);
        assert_eq!(out.len(), 0);
    }
}

#[test]
fn embedded_marker_in_payload() {
    let mut payload: Vec<u8> = (0..24u8).collect();
    payload[10] = 0xFD;
    payload[11] = 0xFC;
    let frame = build_frame(0x41, &payload);
    let mut stream = frame.clone();
    stream.push(0x00);
    let mut checker = Data_Checker::new();
    let out = checker.push_bytes(stream);
    assert_eq!(out.len(), 1);
    assert_eq!(out[0].1, frame[1..].to_vec());
}

#[test]
fn spurious_marker_bad_header_skipped() {
    // A marker whose header region fails the CRC-8 check draws no frame.
    let frame = build_frame(0x41, &[9, 9, 9, 9]);
    let mut stream = vec![0xFD, 0xFC, 0x41, 0x04, 0x00, 0x00];
    assert_ne!(crc8(&stream[1..6]), 0);
    stream.extend_from_slice(&frame);
    stream.push(0x00);
    let mut checker = Data_Checker::new();
    let out = checker.push_bytes(stream);
    assert_eq!(out.len(), 1);
    assert_eq!(out[0].1, frame[1..].to_vec());
}

#[test]
fn unknown_type_rejected() {
    // Both checksums pass, but 0x99 names no packet type.
    let frame = build_frame(0x99, &[1, 2, 3]);
    let mut stream = frame;
    stream.push(0x00);
    let mut checker = Data_Checker::new();
    let out = checker.push_bytes(stream);
    assert_eq!(out.len(), 0);
}

#[test]
fn every_known_type_accepted() {
    for (code, ty) in [
        (0x00u8, PkgType::Nonsense),
        (0x40, PkgType::IMU),
        (0x41, PkgType::AHRS),
        (0x42, PkgType::InsGps),
        (0x58, PkgType::Raw),
    ] {
        let frame = build_frame(code, &[5, 6, 7]);
        let mut stream = frame.clone();
        stream.push(0x00);
        let mut checker = Data_Checker::new();
        let out = checker.push_bytes(stream);
        assert_eq!(out.len(), 1);
        assert_eq!(out[0].0, ty);
    }
}

#[test]
fn zero_length_payload_frame() {
    let frame = build_frame(0x58, &[]);
    assert_eq!(frame.len(), 8);
    let mut stream = frame.clone();
    stream.push(0x42);
    let mut checker = Data_Checker::new();
    let out = checker.push_bytes(stream);
    assert_eq!(out.len(), 1);
    assert_eq!(out[0].0, PkgType::Raw);
    assert_eq!(out[0].1, frame[1..].to_vec());
}

#[test]
fn two_frames_in_one_chunk() {
    let f1 = build_frame(0x41, &(0..48u8).collect::<Vec<u8>>());
    let f2 = build_frame(0x40, &[1, 1, 2, 3, 5, 8]);
    let mut stream = f1.clone();
    stream.extend_from_slice(&f2);
    stream.push(0x00);
    let mut checker = Data_Checker::new();
    let out = checker.push_bytes(stream);
    assert_eq!(out.len(), 2);
    assert_eq!(out[0].0, PkgType::AHRS);
    assert_eq!(out[0].1, f1[1..].to_vec());
    assert_eq!(out[1].0, PkgType::IMU);
    assert_eq!(out[1].1, f2[1..].to_vec());
}

#[test]
fn split_header_across_chunks() {
    let frame = build_frame(0x42, &[7, 7, 7, 7, 7, 7, 7]);
    let mut checker = Data_Checker::new();
    let out1 = checker.push_bytes(frame[..3].to_vec());
    assert_eq!(out1.len(), 0);
    let out2 = checker.push_bytes(frame[3..].to_vec());
    assert_eq!(out2.len(), 0);
    let out3 = checker.push_bytes(vec![0xFF]);
    assert_eq!(out3.len(), 1);
    assert_eq!(out3[0].1, frame[1..].to_vec());
}

#[test]
fn type_byte_mapping() {
    assert_eq!(pkg_type_from_byte(0x00), Some(PkgType::Nonsense));
    assert_eq!(pkg_type_from_byte(0x40), Some(PkgType::IMU));
    assert_eq!(pkg_type_from_byte(0x41), Some(PkgType::AHRS));
    assert_eq!(pkg_type_from_byte(0x42), Some(PkgType::InsGps));
    assert_eq!(pkg_type_from_byte(0x58), Some(PkgType::Raw));
    assert_eq!(pkg_type_from_byte(0x43), None);
    assert_eq!(pkg_type_from_byte(0xFD), None);
}
