use libzmq::z85::{decode, decoded_len, encode, encoded_len};

#[test]
fn encodes_rfc32_test_vector() {
    let data = [0x86, 0x4F, 0xD2, 0x6F, 0xB5, 0x59, 0xF7, 0x5B];
    let mut out = [0u8; 11];
    assert!(encode(&data, &mut out));
    assert_eq!(&out, b"HelloWorld\0");
}

#[test]
fn decodes_rfc32_test_vector() {
    let mut out = [0u8; 8];
    assert!(decode(b"HelloWorld", &mut out));
    assert_eq!(out, [0x86, 0x4F, 0xD2, 0x6F, 0xB5, 0x59, 0xF7, 0x5B]);
}

#[test]
fn rejects_invalid_lengths_and_values() {
    let mut encoded = [0u8; 64];
    assert!(!encode(&[1, 2, 3], &mut encoded));

    let mut decoded = [0u8; 8];
    assert!(!decode(b"0", &mut decoded));
    assert!(!decode(b"01234567", &mut decoded));
    assert!(!decode(b"#####", &mut decoded));
    assert!(!decode(b"%nSc1", &mut decoded));
    assert!(!decode(b"####\x7f", &mut decoded));
    assert!(!decode(b"####\x1f", &mut decoded));
}

#[test]
fn roundtrips_min_and_max_words() {
    for data in [[0u8; 4], [0xffu8; 4]] {
        let mut encoded = [0u8; 6];
        let mut decoded = [0u8; 4];
        assert!(encode(&data, &mut encoded));
        assert!(decode(&encoded[..5], &mut decoded));
        assert_eq!(decoded, data);
    }
}

#[test]
fn lengths_follow_the_four_to_five_ratio() {
    assert_eq!(encoded_len(0), Some(0));
    assert_eq!(encoded_len(8), Some(10));
    assert_eq!(encoded_len(6), None);
    assert_eq!(decoded_len(b"HelloWorld"), Some(8));
    assert_eq!(decoded_len(b""), None);
    assert_eq!(decoded_len(b"Hello1"), None);
}

#[test]
fn encode_of_nothing_writes_only_the_terminator() {
    let mut out = [7u8; 3];
    assert!(encode(&[], &mut out));
    assert_eq!(out, [0, 7, 7]);
}

#[test]
fn encode_refuses_a_short_destination_and_leaves_it_alone() {
    let data = [0x86, 0x4F, 0xD2, 0x6F];
    let mut out = [9u8; 5];
    assert!(!encode(&data, &mut out));
    assert_eq!(out, [9u8; 5]);
}

#[test]
fn encode_leaves_bytes_after_the_terminator() {
    let data = [0x86, 0x4F, 0xD2, 0x6F];
    let mut out = [9u8; 8];
    assert!(encode(&data, &mut out));
    assert_eq!(&out, b"Hello\0\x09\x09");
}

#[test]
fn decode_refuses_a_short_destination() {
    let mut out = [5u8; 7];
    assert!(!decode(b"HelloWorld", &mut out));
    assert_eq!(out, [5u8; 7]);
}

#[test]
fn decode_failure_keeps_the_words_before_the_bad_group() {
    let mut out = [5u8; 9];
    assert!(!decode(b"Hello\"orld", &mut out));
    assert_eq!(out, [0x86, 0x4F, 0xD2, 0x6F, 5, 5, 5, 5, 5]);
}

#[test]
fn decode_rejects_a_group_one_past_the_largest_word() {
    let mut out = [0u8; 4];
    assert!(decode(b"%nSc0", &mut out));
    assert_eq!(out, [0xff; 4]);
    assert!(!decode(b"%nSc1", &mut out));
}

#[test]
fn roundtrips_every_alphabet_character() {
    let alphabet: &[u8] =
        b"0123456789abcdefghijklmnopqrstuvwxyzABCDEFGHIJKLMNOPQRSTUVWXYZ.-:+=^!/*?&<>()[]{}@%$#";
    for &c in alphabet {
        let text = [b'0', b'0', b'0', b'0', c];
        let mut bytes = [0u8; 4];
        assert!(decode(&text, &mut bytes));
        let mut back = [0u8; 6];
        assert!(encode(&bytes, &mut back));
        assert_eq!(&back[..5], &text);
        assert_eq!(back[5], 0);
    }
}

#[test]
fn roundtrips_a_varied_buffer() {
    let data: Vec<u8> = (0u8..64).map(|i| i.wrapping_mul(37).wrapping_add(11)).collect();
    let mut text = vec![1u8; 81];
    assert!(encode(&data, &mut text));
    assert_eq!(text[80], 0);
    let mut back = vec![0u8; 64];
    assert!(decode(&text[..80], &mut back));
    assert_eq!(back, data);
}
