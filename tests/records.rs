use savedb::decode::DecodeError;
use savedb::purchase::{decode_purchase, fix_legacy_merchant_name, parse, ParseError};
use savedb::{POST_DATE_FORMAT as D, PURCHASE_DATETIME_FORMAT as DT};

fn headers() -> Vec<String> {
    [
        "account_number",
        "transaction_datetime",
        "transaction_amount",
        "post_date",
        "transaction_number",
        "merchant_number",
        "merchant_description",
        "merchant_category_code",
    ]
    .iter()
    .map(|s| s.to_string())
    .collect()
}

fn row(amount: &str, merchant_number: &str) -> Vec<String> {
    [
        "1001",
        "03152023 14:05:09",
        amount,
        "03162023",
        "77",
        merchant_number,
        "ACME STORE NY",
        "5411",
    ]
    .iter()
    .map(|s| s.to_string())
    .collect()
}

#[test]
fn row_decodes_every_field() {
    let p = decode_purchase(&headers(), &row("25.00-", "98765"), DT, D).unwrap();
    assert_eq!(p.account_number, 1001);
    assert_eq!(p.transaction_datetime, "2023-03-15 14:05:09");
    assert_eq!(p.transaction_amount.units, -2500);
    assert_eq!(p.transaction_amount.scale, 2);
    assert_eq!(p.post_date, "2023-03-16");
    assert_eq!(p.transaction_number, 77);
    assert_eq!(p.merchant_number, "98765");
    assert_eq!(p.merchant_description.merchant_name, "ACME STORE");
    assert_eq!(p.merchant_description.merchant_state, "NY");
    assert_eq!(p.merchant_category_code, 5411);
}

#[test]
fn columns_are_found_by_name() {
    let mut h = headers();
    let mut r = row("1-", "98765");
    h.swap(0, 7);
    r.swap(0, 7);
    let p = decode_purchase(&h, &r, DT, D).unwrap();
    assert_eq!(p.account_number, 1001);
    assert_eq!(p.merchant_category_code, 5411);
}

#[test]
fn missing_column_fails() {
    let mut h = headers();
    h[4] = "other".to_string();
    assert_eq!(decode_purchase(&h, &row("1-", "9"), DT, D).unwrap_err(), DecodeError::MissingColumn);
    let mut short = row("1-", "9");
    short.pop();
    assert_eq!(decode_purchase(&headers(), &short, DT, D).unwrap_err(), DecodeError::MissingColumn);
}

#[test]
fn legacy_merchant_number_replaces_name() {
    let rows = vec![row("3.10-", "BESTBUY"), row("3.10-", "12345")];
    let ps = parse(&headers(), &rows, DT, D).unwrap();
    assert_eq!(ps[0].merchant_description.merchant_name, "BESTBUY");
    assert_eq!(ps[0].merchant_description.merchant_state, "NY");
    assert_eq!(ps[1].merchant_description.merchant_name, "ACME STORE");
}

#[test]
fn fix_keeps_name_for_numeric_merchant() {
    let mut p = decode_purchase(&headers(), &row("1-", "A1"), DT, D).unwrap();
    fix_legacy_merchant_name(&mut p);
    assert_eq!(p.merchant_description.merchant_name, "ACME STORE");
    p.merchant_number = "Target".to_string();
    fix_legacy_merchant_name(&mut p);
    assert_eq!(p.merchant_description.merchant_name, "Target");
}

#[test]
fn parse_stops_at_first_bad_row() {
    let rows = vec![row("1-", "1"), row("2-", "2"), row("3", "3"), row("4-", "4"), row("5", "5")];
    let r = parse(&headers(), &rows, DT, D);
    assert_eq!(r.unwrap_err(), ParseError { row: 2, error: DecodeError::AmountFormat });
}

#[test]
fn parse_keeps_order() {
    let rows = vec![row("1-", "1"), row("2-", "2"), row("3-", "3")];
    let ps = parse(&headers(), &rows, DT, D).unwrap();
    assert_eq!(ps.len(), 3);
    assert_eq!(ps[2].transaction_amount.units, -3);
    assert!(parse(&headers(), &vec![], DT, D).unwrap().is_empty());
}
