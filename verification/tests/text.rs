use object_id::{Error, HexError, ObjectId};

#[test]
fn to_string_is_lower_case_hex() {
    let id = ObjectId::from_parts(0x507f1f77, [0xbc, 0xf8, 0x6c, 0xd7, 0x99], 0x439011);
    assert_eq!(id.to_string(), "507f1f77bcf86cd799439011");
    let id = ObjectId::from_parts(0x0a0b0c0d, [0x00, 0x01, 0xfe, 0xff, 0x10], 0x00abcd);
    assert_eq!(id.to_string(), "0a0b0c0d0001feff1000abcd");
}

#[test]
fn to_string_agrees_with_the_hex_crate() {
    let id = ObjectId::from_parts(1_700_000_000, [9, 8, 7, 6, 5], 77);
    assert_eq!(id.to_string(), hex::encode(id.to_bytes()));
    assert_eq!(id.to_string().len(), 24);
}

#[test]
fn parse_gives_the_fields_of_the_text() {
    let id = ObjectId::from_string("507f1f77bcf86cd799439011".to_string()).unwrap();
    assert_eq!(
        id.to_bytes(),
        [0x50, 0x7f, 0x1f, 0x77, 0xbc, 0xf8, 0x6c, 0xd7, 0x99, 0x43, 0x90, 0x11]
    );
    assert_eq!(id.timestamp(), 0x507f1f77);
    assert_eq!(id.machine_id(), 0xbc_f86c_d799);
    assert_eq!(id.counter(), 0x439011);
}

#[test]
fn parse_then_encode_gives_the_text_back() {
    let text = "507f1f77bcf86cd799439011";
    let id = ObjectId::from_string(text.to_string()).unwrap();
    assert_eq!(id.to_string(), text);
}

#[test]
fn encode_then_parse_gives_the_identifier_back() {
    for id in [
        ObjectId::from_parts(0, [0; 5], 0),
        ObjectId::from_parts(-1, [0xff; 5], 0xFF_FFFF),
        ObjectId::from_parts(0x12345678, [0xa1, 0xb2, 0xc3, 0xd4, 0xe5], 0xc0ffee),
    ] {
        assert_eq!(ObjectId::try_from(id.to_string()), Ok(id));
        assert_eq!(ObjectId::from_string(id.to_string()), Ok(id));
    }
}

#[test]
fn parse_accepts_upper_and_mixed_case() {
    let lower = ObjectId::from_string("507f1f77bcf86cd799439011".to_string()).unwrap();
    let upper = ObjectId::from_string("507F1F77BCF86CD799439011".to_string()).unwrap();
    let mixed = ObjectId::from_string("507f1F77bCf86cD799439011".to_string()).unwrap();
    assert_eq!(lower, upper);
    assert_eq!(lower, mixed);
    assert_eq!(upper.to_string(), "507f1f77bcf86cd799439011");
}

#[test]
fn parse_rejects_22_characters() {
    let res = ObjectId::try_from("507f1f77bcf86cd7994390".to_string());
    assert_eq!(res, Err(Error::InvalidHexIdLength(11)));
}

#[test]
fn parse_rejects_26_characters() {
    let res = ObjectId::try_from("507f1f77bcf86cd79943901122".to_string());
    assert_eq!(res, Err(Error::InvalidHexIdLength(13)));
}

#[test]
fn parse_rejects_the_empty_text() {
    let res = ObjectId::try_from(String::new());
    assert_eq!(res, Err(Error::InvalidHexIdLength(0)));
}

#[test]
fn parse_rejects_a_character_that_is_no_digit() {
    let res = ObjectId::try_from("507f1f77bcf86cd79943901g".to_string());
    assert!(matches!(res, Err(Error::InvalidHexString(_))));
    assert_eq!(
        res,
        Err(Error::InvalidHexString(HexError::InvalidHexCharacter { c: 'g', index: 23 }))
    );
}

#[test]
fn parse_reports_the_first_bad_character() {
    let res = ObjectId::from_string("50zf1f77bcf86cd7994390x1".to_string());
    assert_eq!(
        res,
        Err(Error::InvalidHexString(HexError::InvalidHexCharacter { c: 'z', index: 2 }))
    );
    let res = ObjectId::from_string("5 ".to_string());
    assert_eq!(
        res,
        Err(Error::InvalidHexString(HexError::InvalidHexCharacter { c: ' ', index: 1 }))
    );
}

#[test]
fn parse_rejects_an_odd_number_of_characters() {
    let res = ObjectId::try_from("507f1f77bcf86cd79943901".to_string());
    assert_eq!(res, Err(Error::InvalidHexString(HexError::OddLength)));
    // An odd length is reported even where a character is bad too.
    let res = ObjectId::try_from("xyz".to_string());
    assert_eq!(res, Err(Error::InvalidHexString(HexError::OddLength)));
}

#[test]
fn parse_reads_text_outside_ascii_byte_by_byte() {
    // Two bytes in UTF-8: an even length, and the first byte is no digit.
    let res = ObjectId::from_string("\u{e9}".to_string());
    assert_eq!(
        res,
        Err(Error::InvalidHexString(HexError::InvalidHexCharacter { c: '\u{c3}', index: 0 }))
    );
    // Three bytes in UTF-8: an odd length.
    let res = ObjectId::from_string("\u{20ac}".to_string());
    assert_eq!(res, Err(Error::InvalidHexString(HexError::OddLength)));
}

#[test]
fn a_bad_character_is_reported_whatever_the_length() {
    let res = ObjectId::from_string("zz".to_string());
    assert_eq!(
        res,
        Err(Error::InvalidHexString(HexError::InvalidHexCharacter { c: 'z', index: 0 }))
    );
}

#[test]
fn from_bytes_takes_exactly_twelve() {
    let bytes = [1u8, 2, 3, 4, 5, 6, 7, 8, 9, 10, 11, 12, 13];
    assert_eq!(ObjectId::from_bytes(&bytes[..11]), Err(Error::InvalidHexIdLength(11)));
    assert_eq!(ObjectId::from_bytes(&bytes[..13]), Err(Error::InvalidHexIdLength(13)));
    assert_eq!(ObjectId::from_bytes(&[]), Err(Error::InvalidHexIdLength(0)));
    let id = ObjectId::from_bytes(&bytes[..12]).unwrap();
    assert_eq!(&id.to_bytes()[..], &bytes[..12]);
    assert_eq!(id.timestamp(), 0x01020304);
    assert_eq!(id.counter(), 0x0a0b0c);
}
