use noise_hex::digits::hex_digit;
use noise_hex::{decode, encode, encode_from, NoiseSource};

fn is_lower_hex(c: u8) -> bool {
    c.is_ascii_digit() || (b'a'..=b'f').contains(&c)
}

#[test]
fn encode_one_byte_without_noise() {
    assert_eq!(encode(&[0x41], 0), b"000410".to_vec());
}

#[test]
fn encode_nothing_gives_the_key_alone() {
    assert_eq!(encode(&[], 5), b"05".to_vec());
    assert_eq!(encode(&[], 0), b"00".to_vec());
    assert_eq!(encode(&[], 255), b"ff".to_vec());
    assert_eq!(encode(&[], 0xab), b"ab".to_vec());
}

#[test]
fn encode_without_noise_is_a_hex_dump() {
    assert_eq!(encode(&[0x00, 0x7f, 0xff], 0), b"00000007f00ff0".to_vec());
    assert_eq!(encode(b"Hi", 0), b"0004800690".to_vec());
}

#[test]
fn encode_with_given_noise() {
    let noise = [1u8, 2, 3, 4];
    let mut source = NoiseSource::given(&noise);
    let stream = encode_from(&[0x41], 1, &mut source);
    assert_eq!(stream, b"0010243141".to_vec());
}

#[test]
fn encode_with_given_noise_writes_letters_in_lower_case() {
    let noise = [10u8, 11, 12, 13, 14, 15, 0, 9];
    let mut source = NoiseSource::given(&noise);
    let stream = encode_from(&[0xc3], 2, &mut source);
    assert_eq!(stream, b"00ab0cdcef3092".to_vec());
}

#[test]
fn encode_from_leaves_the_source_behind_what_it_took() {
    let noise = [1u8, 2, 3, 4, 5, 6, 7, 8, 9];
    let mut source = NoiseSource::given(&noise);
    let first = encode_from(&[0x41], 1, &mut source);
    let second = encode_from(&[0x42], 1, &mut source);
    assert_eq!(first, b"0010243141".to_vec());
    assert_eq!(second, b"0050647281".to_vec());
    assert_eq!(source.draw(), 9);
}

#[test]
fn encode_from_takes_no_noise_under_key_zero() {
    let noise = [7u8];
    let mut source = NoiseSource::given(&noise);
    assert_eq!(encode_from(&[0x41, 0x42], 0, &mut source), b"0004100420".to_vec());
    assert_eq!(source.draw(), 7);
}

#[test]
fn encode_from_a_random_source() {
    let mut source = NoiseSource::random();
    let stream = encode_from(&[0x41], 3, &mut source);
    assert_eq!(stream.len(), 2 + 4 * 4);
    assert_eq!(decode(&stream), Ok(vec![0x41]));
}

#[test]
fn length_of_the_stream() {
    for key in [0u8, 1, 2, 3, 16, 200, 255] {
        for count in [0usize, 1, 2, 7, 33] {
            let bytes: Vec<u8> = (0..count).map(|i| (i * 37 + 5) as u8).collect();
            let stream = encode(&bytes, key);
            assert_eq!(stream.len(), 2 + count * 4 * (key as usize + 1));
        }
    }
}

#[test]
fn key_digits_stand_first_and_last() {
    for key in [0u8, 1, 9, 10, 15, 16, 0x5a, 0xf0, 255] {
        let stream = encode(&[1, 2, 3], key);
        assert_eq!(stream[0], hex_digit(key / 16));
        assert_eq!(stream[stream.len() - 1], hex_digit(key % 16));
    }
}

#[test]
fn data_digits_stand_one_stride_apart() {
    let bytes = [0x00u8, 0x41, 0x9c, 0xff];
    for key in [0u8, 1, 3, 255] {
        let stride = key as usize + 1;
        let stream = encode(&bytes, key);
        for (i, byte) in bytes.iter().enumerate() {
            let at = 1 + 4 * i * stride;
            assert_eq!(stream[at], b'0');
            assert_eq!(stream[at + stride], b'0');
            assert_eq!(stream[at + 2 * stride], hex_digit(byte / 16));
            assert_eq!(stream[at + 3 * stride], hex_digit(byte % 16));
        }
    }
}

#[test]
fn every_digit_of_a_stream_is_lower_case_hex() {
    let bytes: Vec<u8> = (0..=255u8).collect();
    let stream = encode(&bytes, 7);
    assert!(stream.iter().all(|c| is_lower_hex(*c)));
}

#[test]
fn key_255_has_a_stride_of_256() {
    let stream = encode(&[0xab, 0xcd], 255);
    assert_eq!(stream.len(), 2 + 2 * 4 * 256);
    assert_eq!(stream[0], b'f');
    assert_eq!(stream[stream.len() - 1], b'f');
    assert_eq!(stream[1 + 2 * 256], b'a');
    assert_eq!(stream[1 + 3 * 256], b'b');
    assert_eq!(stream[1 + 6 * 256], b'c');
    assert_eq!(stream[1 + 7 * 256], b'd');
    assert_eq!(decode(&stream), Ok(vec![0xab, 0xcd]));
}

#[test]
fn hex_digit_of_each_nibble() {
    let digits: Vec<u8> = (0..16u8).map(hex_digit).collect();
    assert_eq!(digits, b"0123456789abcdef".to_vec());
}

#[test]
fn a_given_source_hands_out_its_nibbles_in_order() {
    let noise = [3u8, 0, 15];
    let mut source = NoiseSource::given(&noise);
    assert_eq!(source.draw(), 3);
    assert_eq!(source.draw(), 0);
    assert_eq!(source.draw(), 15);
}

#[test]
fn a_random_source_hands_out_nibbles() {
    let mut source = NoiseSource::random();
    for _ in 0..1000 {
        assert!(source.draw() < 16);
    }
}
