use std::collections::VecDeque;

use rdm3600_rs::{
    ascii_encoded_to_value, decode, DecodeError, Error, Progress, Rdm6300, RfidTag, SerialRead,
};

type Line = VecDeque<SerialRead<u32>>;

const EXPECTED_ID: [u8; 5] = [0x14, 0x00, 0x8e, 0xc7, 0x93];

fn byte(b: u8) -> SerialRead<u32> {
    SerialRead::Byte(b)
}

fn many(bytes: &[u8]) -> Vec<SerialRead<u32>> {
    bytes.iter().map(|b| SerialRead::Byte(*b)).collect()
}

fn would_block() -> SerialRead<u32> {
    SerialRead::WouldBlock
}

fn line(parts: Vec<Vec<SerialRead<u32>>>) -> Line {
    parts.into_iter().flatten().collect()
}

fn frame(body: &[u8]) -> Vec<SerialRead<u32>> {
    let mut reads = vec![byte(0x02)];
    reads.extend(many(body));
    reads.push(byte(0x03));
    reads
}

/// One non-blocking read: feeds the decoder until it finishes or the line has no byte ready.
fn read(rdm: &mut Rdm6300<Line>) -> Progress<u32> {
    loop {
        let input = rdm.serial.pop_front().expect("the line has no more reads");
        match rdm.advance(input) {
            Progress::NeedByte => {}
            other => return other,
        }
    }
}

/// Reads until the line stops saying that no byte is ready.
fn block(rdm: &mut Rdm6300<Line>) -> Result<RfidTag, Error<u32>> {
    loop {
        match read(rdm) {
            Progress::WouldBlock => {}
            Progress::Done(r) => return r,
            Progress::NeedByte => unreachable!(),
        }
    }
}

fn done(p: Progress<u32>) -> Result<RfidTag, Error<u32>> {
    match p {
        Progress::Done(r) => r,
        _ => panic!("the read did not finish"),
    }
}

fn decode_error(r: Result<RfidTag, Error<u32>>) -> DecodeError {
    match r {
        Err(Error::DecodeError(e)) => e,
        other => panic!("expected a decode error, got {:?}", other),
    }
}

#[test]
fn ascii_decode() {
    let asd = ascii_encoded_to_value(0x43).unwrap();
    assert_eq!(asd, 12);
    let asd = ascii_encoded_to_value(0x31).unwrap();
    assert_eq!(asd, 1);
    let asd = ascii_encoded_to_value(b'0').unwrap();
    assert_eq!(asd, 0);
    let asd = ascii_encoded_to_value(b'A').unwrap();
    assert_eq!(asd, 10);
}

#[test]
fn example() {
    let asd = decode(&[
        0x31, 0x34, 0x30, 0x30, 0x38, 0x45, 0x43, 0x37, 0x39, 0x33, // CS
        0x43, 0x45,
    ])
    .unwrap();
    assert_eq!(asd.id, [0x14, 0x00, 0x8E, 0xC7, 0x93])
}

#[should_panic]
#[test]
fn example_invalid_checksum() {
    decode(&[
        0x31, 0x34, 0x30, 0x30, 0x38, 0x45, 0x43, 0x37, 0x39, 0x33, //CS
        0x43, 0x46,
    ])
    .unwrap();
}

#[test]
fn serial_happy() {
    let expectations = line(vec![vec![byte(0x02)], many(b"14008EC793CE"), vec![byte(0x03)]]);
    let mut rdm = Rdm6300::new(expectations);
    let rfid = done(read(&mut rdm)).unwrap();
    assert_eq!(rfid, RfidTag { id: [0x14, 0x00, 0x8e, 0xc7, 0x93] });
}

#[test]
fn serial_wrong_start_recover() {
    let expectations = line(vec![
        vec![byte(0x01)],
        vec![byte(0x02)],
        many(b"14008EC793CE"),
        vec![byte(0x03)],
    ]);
    let mut rdm = Rdm6300::new(expectations);
    done(read(&mut rdm)).expect_err("invalid start");
    let rfid = done(read(&mut rdm)).unwrap();
    assert_eq!(rfid, RfidTag { id: [0x14, 0x00, 0x8e, 0xc7, 0x93] });
}

#[test]
fn serial_wrong_checksum_fail() {
    let expectations = line(vec![vec![byte(0x02)], many(b"14008EC793CC"), vec![byte(0x03)]]);
    let mut rdm = Rdm6300::new(expectations);
    let err = done(read(&mut rdm)).expect_err("invalid checksum");
    match err {
        Error::DecodeError(DecodeError::InvalidChecksum) => (),
        _ => panic!("wrong error"),
    }
}

#[test]
fn serial_block_recover() {
    let expectations = line(vec![
        vec![byte(0x02)],
        vec![would_block()],
        many(b"14008EC"),
        vec![would_block()],
        many(b"793CE"),
        vec![would_block()],
        vec![byte(0x03)],
    ]);
    let mut rdm = Rdm6300::new(expectations);
    let rfid = block(&mut rdm).unwrap();
    assert_eq!(rfid, RfidTag { id: [0x14, 0x00, 0x8e, 0xc7, 0x93] });
}

fn interrupted_scan() -> Vec<SerialRead<u32>> {
    line(vec![
        vec![would_block()],
        vec![byte(0x02)],
        vec![would_block(), would_block(), would_block(), would_block()],
        many(b"14008EC"),
        vec![would_block(), would_block(), would_block()],
        many(b"793CE"),
        vec![would_block(), would_block(), would_block()],
        vec![byte(0x03)],
        vec![would_block()],
    ])
    .into_iter()
    .collect()
}

#[test]
fn serial_block_recover_2() {
    let expectations = line(vec![interrupted_scan(), interrupted_scan()]);
    let mut rdm = Rdm6300::new(expectations);
    let expected_rfid = RfidTag { id: [0x14, 0x00, 0x8e, 0xc7, 0x93] };
    let rfid = block(&mut rdm).unwrap();
    assert_eq!(rfid, expected_rfid);
    let rfid = block(&mut rdm).unwrap();
    assert_eq!(rfid, expected_rfid);
}

#[test]
fn uppercase_frame_round_trips() {
    let payload = [0x14u8, 0x00, 0x8E, 0xC7, 0x93];
    let checksum = payload.iter().fold(0u8, |acc, b| acc ^ b);
    assert_eq!(checksum, 0xCE);
    let mut text = String::new();
    for b in payload.iter().chain(std::iter::once(&checksum)) {
        text.push_str(&format!("{:02X}", b));
    }
    let mut rdm = Rdm6300::new(line(vec![frame(text.as_bytes())]));
    assert_eq!(done(read(&mut rdm)).unwrap().id, payload);
}

#[test]
fn lowercase_digits_decode() {
    let tag = decode(b"14008ec793ce").unwrap();
    assert_eq!(tag.id, EXPECTED_ID);
    assert_eq!(ascii_encoded_to_value(b'f'), Some(15));
    assert_eq!(ascii_encoded_to_value(b'F'), Some(15));
    assert_eq!(ascii_encoded_to_value(b'9'), Some(9));
}

#[test]
fn non_hex_bytes_have_no_value() {
    for b in [b'g', b'G', b'/', b':', b'@', b'`', b' ', 0x00, 0xff] {
        assert_eq!(ascii_encoded_to_value(b), None);
    }
}

#[test]
fn each_checksum_digit_flip_is_rejected() {
    for body in [b"14008EC793CF", b"14008EC793DE", b"14008EC793C0", b"14008EC7930E"] {
        assert_eq!(decode(body), Err(DecodeError::InvalidChecksum));
        let mut rdm = Rdm6300::new(line(vec![frame(body)]));
        assert_eq!(decode_error(done(read(&mut rdm))), DecodeError::InvalidChecksum);
    }
}

#[test]
fn non_hex_digit_is_invalid_data() {
    assert_eq!(decode(b"14008EC7G3CE"), Err(DecodeError::InvalidData));
    assert_eq!(decode(b"14008EC793CG"), Err(DecodeError::InvalidData));
    assert_eq!(decode(b" 4008EC793CE"), Err(DecodeError::InvalidData));
    let mut rdm = Rdm6300::new(line(vec![frame(b"14008EC793C "), frame(b"14008EC793CE")]));
    assert_eq!(decode_error(done(read(&mut rdm))), DecodeError::InvalidData);
    assert_eq!(done(read(&mut rdm)).unwrap().id, EXPECTED_ID);
}

#[test]
fn wrong_tail_discards_the_frame() {
    let mut bad = frame(b"14008EC793CE");
    bad.pop();
    bad.push(byte(0x02));
    let mut rdm = Rdm6300::new(line(vec![bad, frame(b"14008EC793CE")]));
    assert_eq!(decode_error(done(read(&mut rdm))), DecodeError::InvalidTail);
    assert_eq!(done(read(&mut rdm)).unwrap().id, EXPECTED_ID);
    assert!(rdm.serial.is_empty());
}

#[test]
fn each_stray_byte_is_one_invalid_head() {
    let mut rdm = Rdm6300::new(line(vec![many(&[0x01, 0x03, 0xff]), frame(b"14008EC793CE")]));
    for _ in 0..3 {
        assert_eq!(decode_error(done(read(&mut rdm))), DecodeError::InvalidHead);
    }
    assert_eq!(done(read(&mut rdm)).unwrap().id, EXPECTED_ID);
}

#[test]
fn not_ready_anywhere_gives_the_same_tag() {
    let plain = frame(b"14008EC793CE");
    for gap in 0..=plain.len() {
        let mut reads: Vec<SerialRead<u32>> = frame(b"14008EC793CE");
        reads.insert(gap, would_block());
        let mut rdm = Rdm6300::new(line(vec![reads]));
        let mut blocked = 0;
        let result = loop {
            match read(&mut rdm) {
                Progress::WouldBlock => blocked += 1,
                Progress::Done(r) => break r,
                Progress::NeedByte => unreachable!(),
            }
        };
        assert_eq!(result.unwrap().id, EXPECTED_ID);
        assert_eq!(blocked, if gap < plain.len() { 1 } else { 0 });
    }
}

#[test]
fn serial_fault_is_passed_on_and_keeps_progress() {
    let mut reads = frame(b"14008EC793CE");
    reads.insert(5, SerialRead::Fault(7));
    let mut rdm = Rdm6300::new(line(vec![reads]));
    match done(read(&mut rdm)) {
        Err(Error::SerialError(7)) => (),
        other => panic!("expected the serial error, got {:?}", other),
    }
    assert_eq!(done(read(&mut rdm)).unwrap().id, EXPECTED_ID);
}

#[test]
fn serial_error_converts_from_its_source() {
    match Error::<u32>::from(9) {
        Error::SerialError(9) => (),
        other => panic!("unexpected {:?}", other),
    }
}

#[test]
fn reset_abandons_a_partial_frame() {
    let mut reads = frame(b"14008EC793CE");
    reads.insert(6, would_block());
    reads.extend(frame(b"14008EC793CE"));
    let mut rdm = Rdm6300::new(line(vec![reads]));
    assert!(matches!(read(&mut rdm), Progress::WouldBlock));
    rdm.reset();
    // The rest of the first frame starts with a digit, not a head.
    assert_eq!(decode_error(done(read(&mut rdm))), DecodeError::InvalidHead);
}

#[test]
fn reset_twice_is_reset_once() {
    let mut rdm = Rdm6300::new(line(vec![many(&[0x02, b'1', b'4']), frame(b"14008EC793CE")]));
    let mut first = 0;
    while first < 3 {
        let input = rdm.serial.pop_front().unwrap();
        assert!(matches!(rdm.advance(input), Progress::NeedByte));
        first += 1;
    }
    rdm.reset();
    rdm.reset();
    assert_eq!(done(read(&mut rdm)).unwrap().id, EXPECTED_ID);
}

#[test]
fn two_frames_back_to_back() {
    let second = b"0102030405";
    let checksum = 0x01u8 ^ 0x02 ^ 0x03 ^ 0x04 ^ 0x05;
    let mut body = second.to_vec();
    body.extend(format!("{:02X}", checksum).bytes());
    let mut rdm = Rdm6300::new(line(vec![frame(b"14008EC793CE"), frame(&body)]));
    assert_eq!(done(read(&mut rdm)).unwrap().id, EXPECTED_ID);
    assert_eq!(done(read(&mut rdm)).unwrap().id, [0x01, 0x02, 0x03, 0x04, 0x05]);
    assert!(rdm.serial.is_empty());
}
