use orbit::digest::{decode_hex, encode_hex, Sha256Hash, Uuid};

#[test]
fn hex_writes_two_digits_a_byte() {
    let text: String = encode_hex(&vec![0x00, 0x0f, 0xa5, 0xff]).into_iter().collect();
    assert_eq!(text, "000fa5ff");
}

#[test]
fn hex_reads_either_case() {
    let chars: Vec<char> = "000Fa5fF".chars().collect();
    assert_eq!(decode_hex(&chars), Some(vec![0x00, 0x0f, 0xa5, 0xff]));
    assert_eq!(decode_hex(&"abc".chars().collect()), None);
    assert_eq!(decode_hex(&"ag".chars().collect()), None);
    assert_eq!(decode_hex(&Vec::new()), Some(Vec::new()));
}

#[test]
fn checksum_has_64_digits() {
    let zero = Sha256Hash::new();
    assert_eq!(zero.to_string(), "0".repeat(64));
    assert_eq!(Sha256Hash::from_str(&"0".repeat(64)), Some(zero));
    assert_eq!(Sha256Hash::from_str(&"0".repeat(63)), None);
    assert_eq!(Sha256Hash::from_str(&"0".repeat(66)), None);
    assert_eq!(Sha256Hash::from_str(&"g".repeat(64)), None);
    assert!(Sha256Hash::from_bytes(vec![1; 31]).is_none());
}

#[test]
fn checksum_is_read_back() {
    let bytes: Vec<u8> = (0..32).map(|i| (i * 7 + 3) as u8).collect();
    let sum = Sha256Hash::from_bytes(bytes.clone()).unwrap();
    let text = sum.to_string();
    assert_eq!(text.len(), 64);
    assert!(text.starts_with("030a11181f"));
    assert_eq!(Sha256Hash::from_str(&text), Some(sum.clone()));
    assert_eq!(Sha256Hash::from_str(&text.to_uppercase()), Some(sum.clone()));
    assert_eq!(sum.as_bytes(), &bytes);
    assert!(sum.equals(&sum.clone()));
    assert!(!sum.equals(&Sha256Hash::new()));
}

#[test]
fn uuid_has_hyphens() {
    assert_eq!(Uuid::nil().to_string(), "00000000-0000-0000-0000-000000000000");
    let bytes: Vec<u8> = (0..16).map(|i| (i * 17) as u8).collect();
    let uuid = Uuid::from_bytes(bytes).unwrap();
    assert_eq!(uuid.to_string(), "00112233-4455-6677-8899-aabbccddeeff");
    assert_eq!(Uuid::from_str("00112233-4455-6677-8899-AABBCCDDEEFF"), Some(uuid));
}

#[test]
fn uuid_refuses_other_texts() {
    for text in [
        "",
        "00112233445566778899aabbccddeeff",
        "00112233-4455-6677-8899-aabbccddeef",
        "00112233-4455-6677-8899-aabbccddeeffa",
        "00112233+4455-6677-8899-aabbccddeeff",
        "0011223-34455-6677-8899-aabbccddeeff",
        "00112233-4455-6677-8899-aabbccddeegg",
    ] {
        assert_eq!(Uuid::from_str(text), None);
    }
    assert!(Uuid::from_bytes(vec![0; 15]).is_none());
}
