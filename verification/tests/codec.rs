use minidb::errors::ErrorKind;
use minidb::row::{decode, decode_checked, encode, Row, ROW_SIZE};

fn row(id: i32, username: &str, email: &str) -> Row {
    Row { id, username: username.as_bytes().to_vec(), email: email.as_bytes().to_vec() }
}

#[test]
fn round_trip_plain_row() {
    let r = row(7, "alice", "alice@example.com");
    let bytes = encode(&r).unwrap();
    assert_eq!(bytes.len(), ROW_SIZE);
    let back = decode(&bytes);
    assert_eq!(back.id, 7);
    assert_eq!(back.username, b"alice".to_vec());
    assert_eq!(back.email, b"alice@example.com".to_vec());
}

#[test]
fn round_trip_negative_id() {
    let r = row(-2147483648, "u", "e");
    let bytes = encode(&r).unwrap();
    let back = decode(&bytes);
    assert_eq!(back.id, -2147483648);
    let r2 = row(2147483647, "u", "e");
    let back2 = decode(&encode(&r2).unwrap());
    assert_eq!(back2.id, 2147483647);
}

#[test]
fn round_trip_empty_fields() {
    let r = row(0, "", "");
    let back = decode(&encode(&r).unwrap());
    assert_eq!(back.id, 0);
    assert!(back.username.is_empty());
    assert!(back.email.is_empty());
}

#[test]
fn round_trip_keeps_interior_zero_byte() {
    let r = Row { id: 1, username: b"a\0b".to_vec(), email: b"e".to_vec() };
    let back = decode(&encode(&r).unwrap());
    assert_eq!(back.username, b"a\0b".to_vec());
}

#[test]
fn trailing_zero_byte_is_trimmed() {
    // A trailing zero byte cannot be told apart from padding, so it is lost.
    let r = Row { id: 1, username: b"a\0".to_vec(), email: b"e".to_vec() };
    let back = decode(&encode(&r).unwrap());
    assert_eq!(back.username, b"a".to_vec());
}

#[test]
fn username_boundary_32_bytes() {
    let name = "x".repeat(32);
    let r = row(1, &name, "e");
    let back = decode(&encode(&r).unwrap());
    assert_eq!(back.username, name.as_bytes().to_vec());
}

#[test]
fn username_33_bytes_fails_field_too_long() {
    let name = "x".repeat(33);
    let r = row(1, &name, "e");
    assert_eq!(encode(&r), Err(ErrorKind::FieldTooLong));
}

#[test]
fn email_boundary_255_bytes() {
    let mail = "m".repeat(255);
    let r = row(1, "u", &mail);
    let back = decode(&encode(&r).unwrap());
    assert_eq!(back.email, mail.as_bytes().to_vec());
    let too_long = "m".repeat(256);
    assert_eq!(encode(&row(1, "u", &too_long)), Err(ErrorKind::FieldTooLong));
}

#[test]
fn layout_is_little_endian_id_then_padded_fields() {
    let r = row(0x01020304, "ab", "c");
    let bytes = encode(&r).unwrap();
    assert_eq!(&bytes[0..4], &[0x04, 0x03, 0x02, 0x01]);
    assert_eq!(&bytes[4..6], b"ab");
    assert!(bytes[6..36].iter().all(|&b| b == 0));
    assert_eq!(bytes[36], b'c');
    assert!(bytes[37..291].iter().all(|&b| b == 0));
}

#[test]
fn negative_id_encodes_as_twos_complement_little_endian() {
    let r = row(-1, "u", "e");
    let bytes = encode(&r).unwrap();
    assert_eq!(&bytes[0..4], &[0xff, 0xff, 0xff, 0xff]);
}

#[test]
fn decode_checked_rejects_wrong_length() {
    let short = vec![0u8; ROW_SIZE - 1];
    assert!(matches!(decode_checked(&short), Err(ErrorKind::StorageCorruption)));
    let long = vec![0u8; ROW_SIZE + 1];
    assert!(matches!(decode_checked(&long), Err(ErrorKind::StorageCorruption)));
    let exact = vec![0u8; ROW_SIZE];
    let r = decode_checked(&exact).unwrap();
    assert_eq!(r.id, 0);
    assert!(r.username.is_empty());
}
