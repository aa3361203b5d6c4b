use freedsp::bytes::{read_le_i32, same_bytes, to_le_bytes};
use freedsp::frame::{
    build_frame, decode_gain24, encode_gain24, CMD_MODE, CMD_READ, FLAG_READ, FLAG_WRITE, FRAME_LEN,
    MOONDROP_VID, REPORT_ID,
};

#[test]
fn little_endian_words() {
    assert_eq!(to_le_bytes(0), [0, 0, 0, 0]);
    assert_eq!(to_le_bytes(0x1234_5678), [0x78, 0x56, 0x34, 0x12]);
    assert_eq!(to_le_bytes(-1), [0xff, 0xff, 0xff, 0xff]);
    assert_eq!(to_le_bytes(-2), [0xfe, 0xff, 0xff, 0xff]);
    assert_eq!(to_le_bytes(i32::MIN), [0, 0, 0, 0x80]);
    assert_eq!(to_le_bytes(i32::MAX), [0xff, 0xff, 0xff, 0x7f]);
    assert_eq!(read_le_i32(&[9, 0x78, 0x56, 0x34, 0x12, 9], 1), 0x1234_5678);
    assert_eq!(read_le_i32(&[0, 0, 0, 0x80], 0), i32::MIN);
}

#[test]
fn words_agree_with_the_machine() {
    for v in [0, 1, -1, 255, 256, -256, 65535, 1 << 24, i32::MIN, i32::MAX, -123456789] {
        assert_eq!(to_le_bytes(v), v.to_le_bytes());
        assert_eq!(read_le_i32(&v.to_le_bytes(), 0), v);
    }
}

#[test]
fn byte_strings_compare() {
    assert!(same_bytes(b"", b""));
    assert!(same_bytes(b"abc", b"abc"));
    assert!(!same_bytes(b"abc", b"abd"));
    assert!(!same_bytes(b"abc", b"ab"));
}

#[test]
fn constants_of_the_protocol() {
    assert_eq!(MOONDROP_VID, 0x35D8);
    assert_eq!(FRAME_LEN, 62);
    assert_eq!(REPORT_ID, 1);
}

#[test]
fn frame_that_asks_for_the_mode() {
    let f = build_frame(CMD_MODE, FLAG_READ, &[0x5a]);
    let mut want = [0u8; 62];
    want[..14].copy_from_slice(&[
        0x01, 0, 0x0d, 0, 0x5a, 0x01, 0, 0x23, 0x2d, 0xb3, 0x5a, 0, 0, 0,
    ]);
    assert_eq!(f, want);
}

#[test]
fn frame_without_words() {
    let f = build_frame(CMD_READ, FLAG_WRITE, &[]);
    assert_eq!(f[..10], [0x01, 0, 0x0d, 0, 0xdd, 0x00, 0, 0x23, 0x2d, 0xb3]);
    assert!(f[10..].iter().all(|b| *b == 0));
}

#[test]
fn frame_filled_to_the_end() {
    let words: Vec<i32> = (0..13).map(|k| -k).collect();
    let f = build_frame(7, 8, &words);
    for (k, w) in words.iter().enumerate() {
        assert_eq!(read_le_i32(&f, 10 + 4 * k), *w);
    }
    assert_eq!(f[58..62], (-12i32).to_le_bytes());
}

#[test]
fn frames_differ_where_their_words_do() {
    assert_ne!(build_frame(1, 0, &[5, 6]), build_frame(1, 0, &[6, 5]));
    assert_ne!(build_frame(1, 0, &[5]), build_frame(1, 1, &[5]));
    assert_ne!(build_frame(1, 0, &[5]), build_frame(2, 0, &[5]));
}

#[test]
fn gains_as_words() {
    assert_eq!(encode_gain24(0), 0);
    assert_eq!(encode_gain24(6), 6);
    assert_eq!(encode_gain24(-1), 0xff_ffff);
    assert_eq!(encode_gain24(-12), 0xff_fff4);
    assert_eq!(encode_gain24(i32::MAX), i32::MAX);
    assert_eq!(encode_gain24(i32::MIN), i32::MIN + 0x100_0000);
}

#[test]
fn gains_read_back() {
    for g in [0, 1, -1, 12, -12, 0x7f_ffff, -0x80_0000] {
        let w = to_le_bytes(encode_gain24(g));
        assert_eq!(decode_gain24(&w, 0), g);
    }
    // One beyond the range comes back modulo 2^24.
    assert_eq!(decode_gain24(&to_le_bytes(encode_gain24(0x80_0000)), 0), -0x80_0000);
}
