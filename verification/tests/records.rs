use ahrs_stream::decoder::Data_Checker;
use ahrs_stream::interpret::{Data_parser, Interpretation, AHRS_FRAME_LEN};
use ahrs_stream::PkgType;

fn crc8(data: &[u8]) -> u8 {
    let mut crc = crc_all::Crc::<u8>::new(0x31, 8, 0x00, 0x00, true);
    crc.update(data)
}

fn crc16(data: &[u8]) -> u16 {
    let mut crc = crc_all::Crc::<u16>::new(0x1021, 16, 0x0000, 0x0000, false);
    crc.update(data)
}

fn build_frame(ty: u8, payload: &[u8]) -> Vec<u8> {
    let len = payload.len() as u8;
    let reserved = 0x07u8;
    let mut c8 = 0u8;
    let mut found = false;
    for c in 0..=255u8 {
        if crc8(&[0xFC, ty, len, reserved, c]) == 0 {
            c8 = c;
            found = true;
            break;
        }
    }
    assert!(found, "no CRC-8 byte closes this header");
    let mut trailer = [0u8; 2];
    let mut found_t = false;
    'outer: for a in 0..=255u8 {
        for b in 0..=255u8 {
            let mut v = payload.to_vec();
            v.push(a);
            v.push(b);
            if crc16(&v) == 0 {
                trailer = [a, b];
                found_t = true;
                break 'outer;
            }
        }
    }
    assert!(found_t, "no CRC-16 trailer closes this payload");
    let mut f = vec![0xFD, 0xFC, ty, len, reserved, c8, trailer[0], trailer[1]];
    f.extend_from_slice(payload);
    f
}

fn ahrs_payload(floats: &[f32; 10], time_stamp: u64) -> Vec<u8> {
    let mut p = Vec::new();
    for x in floats {
        p.extend_from_slice(&x.to_le_bytes());
    }
    p.extend_from_slice(&time_stamp.to_le_bytes());
    p
}

#[test]
fn ahrs_end_to_end_bit_for_bit() {
    let floats: [f32; 10] = [
        0.25, -1.5, 3.1415927, -0.0, 180.0, -90.5, 0.70710677, 0.0, -0.70710677, 1.0,
    ];
    let time_stamp: u64 = 0x0123_4567_89AB_CDEF;
    let payload = ahrs_payload(&floats, time_stamp);
    assert_eq!(payload.len(), 48);
    let frame = build_frame(0x41, &payload);
    let mut stream = frame;
    stream.push(0x00);

    let mut checker = Data_Checker::new();
    let out = checker.push_bytes(stream);
    assert_eq!(out.len(), 1);
    let (ty, pkg) = (out[0].0, out[0].1.clone());
    assert_eq!(ty, PkgType::AHRS);

    let parser = Data_parser::new();
    match parser.interpret(ty, &pkg) {
        Interpretation::Ahrs(rec) => {
            assert_eq!(rec.roll_speed, floats[0].to_bits());
            assert_eq!(rec.pitch_speed, floats[1].to_bits());
            assert_eq!(rec.heading_speed, floats[2].to_bits());
            assert_eq!(rec.roll, floats[3].to_bits());
            assert_eq!(rec.pitch, floats[4].to_bits());
            assert_eq!(rec.heading, floats[5].to_bits());
            assert_eq!(rec.q1, floats[6].to_bits());
            assert_eq!(rec.q2, floats[7].to_bits());
            assert_eq!(rec.q3, floats[8].to_bits());
            assert_eq!(rec.q4, floats[9].to_bits());
            assert_eq!(rec.time_stamp, time_stamp);
            assert_eq!(f32::from_bits(rec.pitch), 180.0);
        }
        other => panic!("expected a decoded AHRS record, got {:?}", other),
    }
}

#[test]
fn ahrs_frame_length_expected() {
    let payload = ahrs_payload(&[0.0; 10], 0);
    let frame = build_frame(0x41, &payload);
    assert_eq!(frame.len() - 1, AHRS_FRAME_LEN);
}

#[test]
fn ahrs_wrong_size_is_mismatch() {
    let frame = build_frame(0x41, &[1, 2, 3, 4]);
    let mut stream = frame;
    stream.push(0x00);
    let mut checker = Data_Checker::new();
    let out = checker.push_bytes(stream);
    assert_eq!(out.len(), 1);
    let parser = Data_parser::new();
    assert_eq!(
        parser.interpret(out[0].0, &out[0].1),
        Interpretation::SizeMismatch
    );
}

#[test]
fn other_types_accepted_and_discarded() {
    let parser = Data_parser::new();
    for code in [0x00u8, 0x40, 0x42, 0x58] {
        let frame = build_frame(code, &[9, 8, 7]);
        let mut stream = frame;
        stream.push(0x00);
        let mut checker = Data_Checker::new();
        let out = checker.push_bytes(stream);
        assert_eq!(out.len(), 1);
        assert_eq!(
            parser.interpret(out[0].0, &out[0].1),
            Interpretation::Accepted
        );
    }
}

#[test]
fn little_endian_field_order() {
    // One recognizable byte pattern per field position.
    let mut payload = vec![0u8; 48];
    payload[0] = 0x78;
    payload[1] = 0x56;
    payload[2] = 0x34;
    payload[3] = 0x12;
    payload[40] = 0x01;
    payload[47] = 0x80;
    let frame = build_frame(0x41, &payload);
    let mut stream = frame;
    stream.push(0x00);
    let mut checker = Data_Checker::new();
    let out = checker.push_bytes(stream);
    let parser = Data_parser::new();
    match parser.interpret(out[0].0, &out[0].1) {
        Interpretation::Ahrs(rec) => {
            assert_eq!(rec.roll_speed, 0x12345678);
            assert_eq!(rec.pitch_speed, 0);
            assert_eq!(rec.time_stamp, 0x8000_0000_0000_0001);
        }
        other => panic!("expected a decoded AHRS record, got {:?}", other),
    }
}
