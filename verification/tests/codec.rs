use qemu_ipmi_relay::error::RelayError;
use qemu_ipmi_relay::vm_codec::{
    checksum, encode_command, encode_message, Decoder, Frame, IpmiMessage, VM_CMD_CHAR, VM_CMD_RESET,
    VM_CMD_VERSION, VM_ESCAPE_CHAR, VM_MSG_CHAR,
};

fn protocol(text: &str) -> Result<Frame, RelayError> {
    Err(RelayError::Protocol(text.to_string()))
}

fn request() -> IpmiMessage {
    IpmiMessage {
        sequence: 7,
        netfn_lun: 0x18,
        command: 0x02,
        data: vec![0xa0, 0xa1, 0xaa, 0x55],
    }
}

#[test]
fn round_trip_escapes_and_checksum() {
    let expected = IpmiMessage {
        sequence: 7,
        netfn_lun: 0x18,
        command: 0x02,
        data: vec![0xa0, 0xa1, 0xaa, 0x55],
    };
    let encoded = encode_message(&expected);
    let mut decoder = Decoder::new(303);
    let frames = decoder
        .push(&encoded)
        .into_iter()
        .collect::<Result<Vec<_>, RelayError>>()
        .unwrap();
    assert_eq!(frames, vec![Frame::Message(expected)]);
}

#[test]
fn handles_split_and_multiple_frames() {
    let first = encode_command(&[VM_CMD_VERSION, 1]);
    let second = encode_command(&[VM_CMD_RESET]);
    let mut decoder = Decoder::new(303);
    assert!(decoder.push(&first[..1]).is_empty());
    let remainder = first[1..]
        .iter()
        .chain(second.iter())
        .copied()
        .collect::<Vec<_>>();
    let frames = decoder
        .push(&remainder)
        .into_iter()
        .collect::<Result<Vec<_>, RelayError>>()
        .unwrap();
    assert_eq!(
        frames,
        vec![
            Frame::Command(vec![VM_CMD_VERSION, 1]),
            Frame::Command(vec![VM_CMD_RESET])
        ]
    );
}

#[test]
fn rejects_bad_checksum() {
    let mut decoder = Decoder::new(303);
    let mut frame = encode_message(&IpmiMessage {
        sequence: 1,
        netfn_lun: 0,
        command: 1,
        data: vec![],
    });
    frame[0] ^= 1;
    assert!(decoder.push(&frame).into_iter().next().unwrap().is_err());
}

#[test]
fn encodes_exact_bytes() {
    // 7 + 0x18 + 2 + 0xa0 + 0xa1 + 0xaa + 0x55 is 0x261, so the check byte is 0x9f.
    assert_eq!(
        encode_message(&request()),
        vec![7, 0x18, 2, 0xaa, 0xb0, 0xaa, 0xb1, 0xaa, 0xba, 0x55, 0x9f, 0xa0]
    );
    assert_eq!(
        encode_command(&[0xa0, 0x04]),
        vec![0xaa, 0xb0, 0x04, 0xa1]
    );
    assert_eq!(encode_command(&[]), vec![VM_CMD_CHAR]);
}

#[test]
fn escapes_the_check_byte() {
    let message = IpmiMessage {
        sequence: 0x60,
        netfn_lun: 0,
        command: 0,
        data: vec![],
    };
    let line = encode_message(&message);
    assert_eq!(line, vec![0x60, 0, 0, 0xaa, 0xb0, 0xa0]);
    assert_eq!(
        Decoder::new(303).push(&line),
        vec![Ok(Frame::Message(message))]
    );
}

#[test]
fn pieces_do_not_matter() {
    let mut line = encode_message(&request());
    line.extend(encode_command(&[VM_CMD_RESET]));
    let whole = Decoder::new(303).push(&line);
    assert_eq!(whole.len(), 2);
    for cut in 0..line.len() {
        let mut decoder = Decoder::new(303);
        let mut pieces = decoder.push(&line[..cut]);
        pieces.extend(decoder.push(&line[cut..]));
        assert_eq!(pieces, whole);
    }
    let mut decoder = Decoder::new(303);
    let mut single = Vec::new();
    for byte in &line {
        single.extend(decoder.push(&[*byte]));
    }
    assert_eq!(single, whole);
}

#[test]
fn refuses_short_messages() {
    assert_eq!(
        Decoder::new(303).push(&[1, 2, 3, VM_MSG_CHAR]),
        vec![protocol("IPMI message is too short")]
    );
}

#[test]
fn refuses_wrong_checksums() {
    assert_eq!(
        Decoder::new(303).push(&[1, 2, 3, 4, VM_MSG_CHAR]),
        vec![protocol("IPMI message checksum mismatch")]
    );
    assert_eq!(
        Decoder::new(303).push(&[1, 2, 3, 0xfa, VM_MSG_CHAR]),
        vec![Ok(Frame::Message(IpmiMessage {
            sequence: 1,
            netfn_lun: 2,
            command: 3,
            data: vec![],
        }))]
    );
}

#[test]
fn every_changed_byte_is_detected() {
    let payload = [9u8, 0x18, 1, 0x20, 0xbe];
    for position in 0..payload.len() {
        for byte in 0..=255u8 {
            let reserved = byte == VM_MSG_CHAR || byte == VM_CMD_CHAR || byte == VM_ESCAPE_CHAR;
            if reserved || byte == payload[position] {
                continue;
            }
            let mut line = payload.to_vec();
            line[position] = byte;
            line.push(VM_MSG_CHAR);
            assert_eq!(
                Decoder::new(303).push(&line),
                vec![protocol("IPMI message checksum mismatch")]
            );
        }
    }
}

#[test]
fn refuses_a_dangling_escape() {
    let mut decoder = Decoder::new(303);
    assert_eq!(
        decoder.push(&[1, VM_ESCAPE_CHAR, VM_CMD_CHAR]),
        vec![protocol("frame ended after escape byte")]
    );
    assert_eq!(
        decoder.push(&[VM_ESCAPE_CHAR, VM_ESCAPE_CHAR, VM_MSG_CHAR]),
        vec![protocol("frame ended after escape byte")]
    );
}

#[test]
fn repeated_escapes_count_once() {
    assert_eq!(
        Decoder::new(303).push(&[VM_ESCAPE_CHAR, VM_ESCAPE_CHAR, 0xb0, VM_CMD_CHAR]),
        vec![Ok(Frame::Command(vec![0xa0]))]
    );
}

#[test]
fn refuses_oversized_frames_and_recovers() {
    let mut decoder = Decoder::new(2);
    assert_eq!(
        decoder.push(&[1, 2, 3, 4, VM_CMD_CHAR, 5, VM_CMD_CHAR]),
        vec![
            protocol("frame exceeds max_frame_size"),
            Ok(Frame::Command(vec![5]))
        ]
    );
    assert_eq!(
        decoder.push(&[1, 2, VM_CMD_CHAR]),
        vec![Ok(Frame::Command(vec![1, 2]))]
    );
    assert_eq!(
        decoder.push(&[1, 2, 3, VM_ESCAPE_CHAR, VM_CMD_CHAR]),
        vec![protocol("frame exceeds max_frame_size")]
    );
    assert_eq!(
        decoder.push(&[1, 2, VM_ESCAPE_CHAR, VM_CMD_CHAR]),
        vec![protocol("frame ended after escape byte")]
    );
}

#[test]
fn takes_a_message_of_exactly_the_limit() {
    let line = encode_message(&request());
    assert_eq!(
        Decoder::new(8).push(&line),
        vec![Ok(Frame::Message(request()))]
    );
    assert_eq!(
        Decoder::new(7).push(&line),
        vec![protocol("frame exceeds max_frame_size")]
    );
}

#[test]
fn passes_over_empty_frames() {
    let mut decoder = Decoder::new(303);
    assert!(decoder.push(&[VM_MSG_CHAR, VM_CMD_CHAR]).is_empty());
    assert_eq!(
        decoder.push(&encode_message(&request())),
        vec![Ok(Frame::Message(request()))]
    );
}

#[test]
fn checksums_add_up() {
    let (first, second) = ([200u8, 100, 7], [250u8, 3]);
    assert_eq!(checksum(&[]), 0);
    assert_eq!(checksum(&first), 51);
    assert_eq!(checksum(&second), 253);
    let both = [&first[..], &second[..]].concat();
    let swapped = [&second[..], &first[..]].concat();
    assert_eq!(checksum(&both), 48);
    assert_eq!(checksum(&both), checksum(&first).wrapping_add(checksum(&second)));
    assert_eq!(checksum(&swapped), checksum(&both));
    let mut balanced = first.to_vec();
    balanced.push(checksum(&first).wrapping_neg());
    assert_eq!(checksum(&balanced), 0);
}

#[test]
fn a_reset_decoder_is_as_new() {
    for unfinished in [
        vec![1, 2],
        vec![1, VM_ESCAPE_CHAR],
        vec![1, 2, 3, 4, 5, 6, 7, 8, 9],
    ] {
        let mut decoder = Decoder::new(8);
        assert!(decoder.push(&unfinished).is_empty());
        decoder.reset();
        decoder.reset();
        assert_eq!(
            decoder.push(&encode_message(&request())),
            vec![Ok(Frame::Message(request()))]
        );
    }
}
