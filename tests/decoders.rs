use savedb::date::{deserialize_date, deserialize_datetime};
use savedb::decode::{
    decode_i16, decode_i32, decode_merchant_description, decode_signed_amount, is_word, DecodeError,
};
use savedb::number::Decimal;
use savedb::{MYSQL_DATETIME_FORMAT, MYSQL_DATE_FORMAT};

#[test]
fn amount_with_trailing_minus_is_negative() {
    assert_eq!(decode_signed_amount("12.50-"), Ok(Decimal { units: -1250, scale: 2 }));
    assert_eq!(decode_signed_amount("7-"), Ok(Decimal { units: -7, scale: 0 }));
    assert_eq!(decode_signed_amount("0.05-"), Ok(Decimal { units: -5, scale: 2 }));
}

#[test]
fn amount_without_marker_fails() {
    assert_eq!(decode_signed_amount("12.50"), Err(DecodeError::AmountFormat));
    assert_eq!(decode_signed_amount("12.50+"), Err(DecodeError::AmountFormat));
}

#[test]
fn empty_amount_fails() {
    assert_eq!(decode_signed_amount(""), Err(DecodeError::AmountFormat));
    assert_eq!(decode_signed_amount("-"), Err(DecodeError::AmountFormat));
}

#[test]
fn malformed_magnitude_fails() {
    assert_eq!(decode_signed_amount("1.2.3-"), Err(DecodeError::AmountFormat));
    assert_eq!(decode_signed_amount("12a-"), Err(DecodeError::AmountFormat));
    assert_eq!(decode_signed_amount("99999999999999999999-"), Err(DecodeError::AmountFormat));
}

#[test]
fn merchant_description_splits_on_last_token() {
    let m = decode_merchant_description("ACME STORE NY").unwrap();
    assert_eq!(m.merchant_name, "ACME STORE");
    assert_eq!(m.merchant_state, "NY");
}

#[test]
fn merchant_state_is_first_two_characters() {
    let m = decode_merchant_description("CORNER SHOP CA94103").unwrap();
    assert_eq!(m.merchant_name, "CORNER SHOP");
    assert_eq!(m.merchant_state, "CA");
}

#[test]
fn merchant_description_errors() {
    assert_eq!(decode_merchant_description("").unwrap_err(), DecodeError::MerchantDescription);
    assert_eq!(decode_merchant_description("   ").unwrap_err(), DecodeError::MerchantDescription);
    assert_eq!(decode_merchant_description("ACME N").unwrap_err(), DecodeError::MerchantDescription);
}

#[test]
fn merchant_name_drops_separating_white_space() {
    let m = decode_merchant_description("ACME  NY").unwrap();
    assert_eq!(m.merchant_name, "ACME");
    assert_eq!(m.merchant_state, "NY");
    let t = decode_merchant_description("ACME\tNY").unwrap();
    assert_eq!(t.merchant_name, "ACME");
    assert_eq!(t.merchant_state, "NY");
    let one = decode_merchant_description("NYC").unwrap();
    assert_eq!(one.merchant_name, "");
    assert_eq!(one.merchant_state, "NY");
}

#[test]
fn words_are_alphabetic_only() {
    assert!(is_word(&"ACME".to_string()));
    assert!(!is_word(&"12345".to_string()));
    assert!(!is_word(&"AC ME".to_string()));
    assert!(is_word(&"".to_string()));
}

#[test]
fn integers_decode_within_range() {
    assert_eq!(decode_i32("12345"), Ok(12345));
    assert_eq!(decode_i32("-17"), Ok(-17));
    assert_eq!(decode_i32("+8"), Ok(8));
    assert_eq!(decode_i32("2147483648"), Err(DecodeError::IntegerFormat));
    assert_eq!(decode_i32("12x"), Err(DecodeError::IntegerFormat));
    assert_eq!(decode_i32(""), Err(DecodeError::IntegerFormat));
    assert_eq!(decode_i16("5411"), Ok(5411));
    assert_eq!(decode_i16("40000"), Err(DecodeError::IntegerFormat));
}

#[test]
fn integers_read_hexadecimal_after_prefix() {
    assert_eq!(decode_i32("0x7F"), Ok(127));
    assert_eq!(decode_i32("0xa9"), Ok(169));
    assert_eq!(decode_i32("0x-10"), Ok(-16));
    assert_eq!(decode_i32("0x80000000"), Err(DecodeError::IntegerFormat));
    assert_eq!(decode_i32("0x"), Err(DecodeError::IntegerFormat));
    assert_eq!(decode_i32("0X10"), Err(DecodeError::IntegerFormat));
    assert_eq!(decode_i16("0x7fff"), Ok(32767));
}

#[test]
fn date_is_rendered_canonically() {
    assert_eq!(deserialize_date("03152023", "%m%d%Y"), Ok("2023-03-15".to_string()));
    assert_eq!(deserialize_date("02/01/0999", "%m/%d/%Y"), Ok("0999-02-01".to_string()));
}

#[test]
fn canonical_date_decodes_to_itself() {
    let once = deserialize_date("12312020", "%m%d%Y").unwrap();
    let twice = deserialize_date(&once, "%Y-%m-%d").unwrap();
    assert_eq!(once, "2020-12-31");
    assert_eq!(twice, once);
}

#[test]
fn bad_date_fails() {
    assert_eq!(deserialize_date("02302023", "%m%d%Y"), Err(DecodeError::DateFormat));
    assert_eq!(deserialize_date("hello", "%m%d%Y"), Err(DecodeError::DateFormat));
}

#[test]
fn datetime_is_rendered_canonically() {
    assert_eq!(
        deserialize_datetime("03152023 14:05:09", "%m%d%Y %H:%M:%S"),
        Ok("2023-03-15 14:05:09".to_string())
    );
    let once = deserialize_datetime("01022021 03:04:05", "%m%d%Y %H:%M:%S").unwrap();
    assert_eq!(deserialize_datetime(&once, "%Y-%m-%d %H:%M:%S").unwrap(), once);
}

#[test]
fn bad_datetime_fails() {
    assert_eq!(
        deserialize_datetime("03152023 25:00:00", "%m%d%Y %H:%M:%S"),
        Err(DecodeError::DatetimeFormat)
    );
}

#[test]
fn storage_formats_read_back_their_own_text() {
    assert_eq!(deserialize_date("1999-07-04", MYSQL_DATE_FORMAT), Ok("1999-07-04".to_string()));
    assert_eq!(
        deserialize_datetime("1999-07-04 23:59:58", MYSQL_DATETIME_FORMAT),
        Ok("1999-07-04 23:59:58".to_string())
    );
}
