use hashattr::hex::hex_string;

#[test]
fn every_byte_is_two_lower_case_digits() {
    assert_eq!(hex_string(&[]), "");
    assert_eq!(hex_string(&[0x00]), "00");
    assert_eq!(hex_string(&[0x0a, 0xb0, 0xff, 0x7f]), "0ab0ff7f");
    assert_eq!(hex_string(b"dummy"), "64756d6d79");
}

#[test]
fn hex_matches_std_formatting() {
    let bytes: Vec<u8> = (0..=255u8).collect();
    let expected: String = bytes.iter().map(|b| format!("{:02x}", b)).collect();
    assert_eq!(hex_string(&bytes), expected);
    assert_eq!(hex_string(&bytes).len(), 512);
}

#[test]
fn hex_of_joined_bytes_is_joined_hex() {
    let a = [0x12u8, 0x34];
    let b = [0xabu8];
    let joined = [0x12u8, 0x34, 0xab];
    assert_eq!(hex_string(&joined), format!("{}{}", hex_string(&a), hex_string(&b)));
}

#[test]
fn different_bytes_give_different_hex() {
    assert_ne!(hex_string(&[0x01, 0x10]), hex_string(&[0x11, 0x00]));
    assert_ne!(hex_string(&[0x00]), hex_string(&[0x00, 0x00]));
}
