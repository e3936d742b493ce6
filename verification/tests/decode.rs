use noise_hex::hex::parse_hex;
use noise_hex::{decode, encode, encode_from, DecodeError, NoiseSource};

#[test]
fn decode_one_byte_without_noise() {
    assert_eq!(decode(b"000410"), Ok(vec![0x41]));
}

#[test]
fn decode_the_key_alone() {
    assert_eq!(decode(b"05"), Ok(vec![]));
    assert_eq!(decode(b"00"), Ok(vec![]));
    assert_eq!(decode(b"ff"), Ok(vec![]));
}

#[test]
fn decode_passes_over_what_is_left_behind_the_last_slot() {
    assert_eq!(decode(b"0505"), Ok(vec![]));
    assert_eq!(decode(b"0zz5"), Ok(vec![]));
    assert_eq!(decode(b"00a0b4c1d?1"), Ok(vec![0x41]));
}

#[test]
fn decode_skips_the_noise_unread() {
    assert_eq!(decode(b"0010243141"), Ok(vec![0x41]));
    assert_eq!(decode(b"00?0!4#1$1"), Ok(vec![0x41]));
    assert_eq!(decode(b"00zz0zz4zz2zz2"), Ok(vec![0x42]));
}

#[test]
fn decode_takes_upper_case_digits() {
    assert_eq!(decode(b"0004A0"), Ok(vec![0x4a]));
    assert_eq!(decode(b"000Ff0"), Ok(vec![0xff]));
    assert_eq!(decode(b"AB"), Ok(vec![]));
    assert_eq!(decode(b"0a0b0c4d1eA"), Ok(vec![]));
}

#[test]
fn decode_drops_the_high_half_of_a_quartet() {
    assert_eq!(decode(b"0ff410"), Ok(vec![0x41]));
    assert_eq!(decode(b"0123456780"), Ok(vec![0x34, 0x78]));
}

#[test]
fn decode_several_bytes() {
    assert_eq!(decode(b"00000007f00ff0"), Ok(vec![0x00, 0x7f, 0xff]));
}

#[test]
fn a_stream_of_one_digit_has_no_key() {
    assert_eq!(decode(b"0"), Err(DecodeError::MalformedKey));
    assert_eq!(decode(b"f"), Err(DecodeError::MalformedKey));
}

#[test]
fn an_empty_stream_has_no_key() {
    assert_eq!(decode(b""), Err(DecodeError::MalformedKey));
}

#[test]
fn key_positions_must_hold_hex_digits() {
    assert_eq!(decode(b"g0"), Err(DecodeError::MalformedKey));
    assert_eq!(decode(b"0g"), Err(DecodeError::MalformedKey));
    assert_eq!(decode(b"x00410"), Err(DecodeError::MalformedKey));
    assert_eq!(decode(b"00041 "), Err(DecodeError::MalformedKey));
    assert_eq!(decode(b"+5"), Err(DecodeError::MalformedKey));
    assert_eq!(decode(b"-5"), Err(DecodeError::MalformedKey));
}

#[test]
fn a_radix_marker_is_no_key() {
    assert_eq!(decode(b"0x"), Err(DecodeError::MalformedKey));
    assert_eq!(decode(b"0X"), Err(DecodeError::MalformedKey));
    assert_eq!(decode(b"00041x"), Err(DecodeError::MalformedKey));
}

#[test]
fn slots_must_come_in_fours() {
    assert_eq!(decode(b"0000"), Err(DecodeError::TruncatedStream));
    assert_eq!(decode(b"00410"), Err(DecodeError::TruncatedStream));
    assert_eq!(decode(b"0004100"), Err(DecodeError::TruncatedStream));
    assert_eq!(decode(b"00a0b4c1"), Err(DecodeError::TruncatedStream));
}

#[test]
fn the_last_digit_belongs_to_the_key() {
    // The key here is 0x01: two digits to a slot, and two slots only.
    assert_eq!(decode(b"000041"), Err(DecodeError::TruncatedStream));
}

#[test]
fn data_positions_must_hold_hex_digits() {
    assert_eq!(decode(b"0004g0"), Err(DecodeError::InvalidHexDigit));
    assert_eq!(decode(b"0g0410"), Err(DecodeError::InvalidHexDigit));
    assert_eq!(decode(b"00 410"), Err(DecodeError::InvalidHexDigit));
    assert_eq!(decode(b"0004100z10"), Err(DecodeError::InvalidHexDigit));
    assert_eq!(decode(b"00a0b4cgd1"), Err(DecodeError::InvalidHexDigit));
}

#[test]
fn a_radix_marker_is_no_data() {
    assert_eq!(decode(b"00x410"), Err(DecodeError::InvalidHexDigit));
    assert_eq!(decode(b"00X410"), Err(DecodeError::InvalidHexDigit));
    assert_eq!(decode(b"00axb4c1d1"), Err(DecodeError::InvalidHexDigit));
}

#[test]
fn truncation_is_found_before_bad_digits() {
    assert_eq!(decode(b"0zzz0"), Err(DecodeError::TruncatedStream));
}

#[test]
fn round_trip() {
    let samples: Vec<Vec<u8>> = vec![
        vec![],
        vec![0],
        vec![0x41],
        vec![0xff, 0xfe, 0x80, 0x00],
        b"hello, world".to_vec(),
        (0..=255u8).collect(),
    ];
    for key in [0u8, 1, 3, 255] {
        for bytes in &samples {
            assert_eq!(decode(&encode(bytes, key)), Ok(bytes.clone()));
        }
    }
}

#[test]
fn round_trip_under_every_key() {
    let bytes = [0x30u8, 0x78, 0x9a, 0x0f];
    for key in 0..=255u8 {
        assert_eq!(decode(&encode(&bytes, key)), Ok(bytes.to_vec()));
    }
}

#[test]
fn noise_does_not_change_what_is_decoded() {
    let bytes = [0xdeu8, 0xad, 0xbe, 0xef];
    let key = 3u8;
    let low = [0u8; 48];
    let high = [15u8; 48];
    let first = encode_from(&bytes, key, &mut NoiseSource::given(&low));
    let second = encode_from(&bytes, key, &mut NoiseSource::given(&high));
    assert_ne!(first, second);
    assert_eq!(decode(&first), Ok(bytes.to_vec()));
    assert_eq!(decode(&second), Ok(bytes.to_vec()));
}

#[test]
fn replacing_the_noise_keeps_the_bytes() {
    let bytes = b"noise".to_vec();
    let key = 2u8;
    let stride = key as usize + 1;
    let mut stream = encode(&bytes, key);
    let last = stream.len() - 1;
    for p in 1..last {
        if (p - 1) % stride != 0 {
            stream[p] = b"0123456789abcdef"[(p * 7) % 16];
        }
    }
    assert_eq!(decode(&stream), Ok(bytes));
}

#[test]
fn parse_hex_reads_two_digits_to_a_byte() {
    assert_eq!(parse_hex(b"0041"), Some(vec![0x00, 0x41]));
    assert_eq!(parse_hex(b"fF"), Some(vec![0xff]));
    assert_eq!(parse_hex(b"0123456789abcdefABCDEF"), Some(vec![
        0x01, 0x23, 0x45, 0x67, 0x89, 0xab, 0xcd, 0xef, 0xab, 0xcd, 0xef,
    ]));
    assert_eq!(parse_hex(b""), Some(vec![]));
}

#[test]
fn parse_hex_takes_digits_only() {
    assert_eq!(parse_hex(b"0x41"), None);
    assert_eq!(parse_hex(b"0X41"), None);
    assert_eq!(parse_hex(b"0x"), None);
    assert_eq!(parse_hex(b"123"), None);
    assert_eq!(parse_hex(b"0"), None);
    assert_eq!(parse_hex(b"zz"), None);
    assert_eq!(parse_hex(b"4g"), None);
    assert_eq!(parse_hex(b"0x1"), None);
}
