use nis::codec::{decode_instructions, encode_instructions, Line};

fn sample_lines() -> Vec<Line> {
    vec![
        Line { instruction: 15, arg1: 1, arg1IsReg: false, arg2: 0, arg2IsReg: false },
        Line { instruction: 24, arg1: 8, arg1IsReg: true, arg2: 3, arg2IsReg: false },
        Line { instruction: 2, arg1: 0, arg1IsReg: true, arg2: 1, arg2IsReg: true },
        Line {
            instruction: 23,
            arg1: u64::MAX,
            arg1IsReg: false,
            arg2: 0x0123456789abcdef,
            arg2IsReg: true,
        },
    ]
}

#[test]
fn record_layout_is_fixed_18_bytes() {
    let lines = vec![Line {
        instruction: 24,
        arg1: 1,
        arg1IsReg: true,
        arg2: 0x0102030405060708,
        arg2IsReg: false,
    }];
    let bytes = encode_instructions(&lines);
    assert_eq!(bytes.len(), 18);
    // opcode
    assert_eq!(bytes[0], 24);
    // arg1 little-endian
    assert_eq!(&bytes[1..9], &[1, 0, 0, 0, 0, 0, 0, 0]);
    // arg2 little-endian
    assert_eq!(&bytes[9..17], &[8, 7, 6, 5, 4, 3, 2, 1]);
    // flags: bit 0 for arg1, bit 1 for arg2
    assert_eq!(bytes[17], 1);
}

#[test]
fn flags_byte_packs_both_bits() {
    let lines = vec![Line { instruction: 2, arg1: 0, arg1IsReg: true, arg2: 1, arg2IsReg: true }];
    let bytes = encode_instructions(&lines);
    assert_eq!(bytes[17], 3);
}

#[test]
fn decode_inverts_encode() {
    let lines = sample_lines();
    let bytes = encode_instructions(&lines);
    assert_eq!(bytes.len(), 18 * lines.len());
    let back = decode_instructions(&bytes).expect("whole records decode");
    assert_eq!(back, lines);
}

#[test]
fn empty_image_decodes_to_no_instructions() {
    let back = decode_instructions(&Vec::new()).expect("empty image is fine");
    assert_eq!(back, Vec::new());
}

#[test]
fn partial_trailing_record_is_fatal() {
    let lines = sample_lines();
    let mut bytes = encode_instructions(&lines);
    bytes.pop();
    assert!(decode_instructions(&bytes).is_none());
}

#[test]
fn reserved_flag_bits_are_ignored() {
    let lines = vec![Line { instruction: 1, arg1: 0, arg1IsReg: false, arg2: 1, arg2IsReg: true }];
    let mut bytes = encode_instructions(&lines);
    bytes[17] |= 0xfc;
    let back = decode_instructions(&bytes).unwrap();
    assert_eq!(back, lines);
}
