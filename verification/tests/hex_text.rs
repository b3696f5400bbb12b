use webhook_ingest::hex::{decode, encode};

#[test]
fn encode_writes_two_lower_case_digits_per_byte() {
    assert_eq!(encode(&[]), b"".to_vec());
    assert_eq!(encode(&[0x00]), b"00".to_vec());
    assert_eq!(encode(&[0x0f, 0xf0, 0xff]), b"0ff0ff".to_vec());
    assert_eq!(encode(&[0xde, 0xad, 0xbe, 0xef]), b"deadbeef".to_vec());
    assert_eq!(encode(&[0x09, 0x0a, 0x19, 0x9a]), b"090a199a".to_vec());
}

#[test]
fn decode_reads_either_case() {
    assert_eq!(decode(b""), Some(vec![]));
    assert_eq!(decode(b"00"), Some(vec![0x00]));
    assert_eq!(decode(b"deadBEEF"), Some(vec![0xde, 0xad, 0xbe, 0xef]));
    assert_eq!(decode(b"09afAF"), Some(vec![0x09, 0xaf, 0xaf]));
}

#[test]
fn decode_refuses_what_is_not_hexadecimal() {
    assert_eq!(decode(b"0"), None);
    assert_eq!(decode(b"abc"), None);
    assert_eq!(decode(b"0g"), None);
    assert_eq!(decode(b"g0"), None);
    assert_eq!(decode(b"0x10"), None);
    assert_eq!(decode(b" 00"), None);
    assert_eq!(decode(b"/0"), None);
    assert_eq!(decode(b":0"), None);
    assert_eq!(decode(b"@0"), None);
    assert_eq!(decode(b"G0"), None);
    assert_eq!(decode(b"`0"), None);
    assert_eq!(decode(&[0xc3, 0xa9]), None);
}

#[test]
fn every_byte_survives_encoding_and_decoding() {
    let all: Vec<u8> = (0..=255u8).collect();
    let text = encode(&all);
    assert_eq!(text.len(), 512);
    assert_eq!(decode(&text), Some(all));
}

#[test]
fn encode_and_decode_agree_with_the_hex_crate() {
    let all: Vec<u8> = (0..=255u8).collect();
    assert_eq!(encode(&all), hex::encode(&all).into_bytes());
    for a in 0..=255u8 {
        for b in [b'0', b'9', b'a', b'f', b'A', b'F', b'g', b'/', b':'] {
            let text = [a, b];
            assert_eq!(decode(&text), hex::decode(text).ok());
        }
    }
    assert_eq!(decode(b"abc"), hex::decode("abc").ok());
}
