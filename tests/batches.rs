use savedb::anomaly::{flag_outliers, PURCHASES_REQUIRED, ZSCORE_THRESH_DEN, ZSCORE_THRESH_NUM};
use savedb::number::Decimal;
use savedb::upload::{bind_values, chunk_ranges, chunk_size, first_failure, BindValue};
use savedb::{BIND_LIMIT, PURCHASE_ARGS, PURCHASE_CHUNK};

#[test]
fn chunk_size_divides_bound_parameters() {
    assert_eq!(chunk_size(20, 9), 2);
    assert_eq!(chunk_size(BIND_LIMIT, PURCHASE_ARGS), 7281);
    assert_eq!(PURCHASE_CHUNK, 7281);
}

#[test]
fn records_split_into_chunks_of_two() {
    let size = chunk_size(20, 9);
    assert_eq!(chunk_ranges(5, size), vec![(0, 2), (2, 4), (4, 5)]);
    assert_eq!(chunk_ranges(4, size), vec![(0, 2), (2, 4)]);
    assert!(chunk_ranges(0, size).is_empty());
}

#[test]
fn second_chunk_failure_is_reported() {
    let outcomes = vec![Ok(2), Err("duplicate key".to_string()), Ok(1)];
    let e = first_failure(&outcomes).unwrap_err();
    assert_eq!(e.chunk, 1);
    assert_eq!(e.message, "duplicate key");
}

#[test]
fn first_of_several_failures_is_reported() {
    let outcomes = vec![Ok(2), Err("a".to_string()), Err("b".to_string())];
    assert_eq!(first_failure(&outcomes).unwrap_err().message, "a");
    assert!(first_failure(&vec![Ok(2), Ok(2)]).is_ok());
    assert!(first_failure(&vec![]).is_ok());
}

#[test]
fn binds_follow_column_order() {
    let p = savedb::purchase::Purchase {
        account_number: 5,
        transaction_datetime: "2023-01-02 03:04:05".to_string(),
        transaction_amount: Decimal { units: -125, scale: 1 },
        post_date: "2023-01-03".to_string(),
        transaction_number: 6,
        merchant_number: "M1".to_string(),
        merchant_description: savedb::decode::MerchantDescription {
            merchant_name: "SHOP".to_string(),
            merchant_state: "TX".to_string(),
        },
        merchant_category_code: 7,
    };
    let b = bind_values(&p);
    assert_eq!(b.len(), 9);
    assert!(matches!(b[0], BindValue::Int(5)));
    assert!(matches!(&b[1], BindValue::Text(t) if t == "2023-01-02 03:04:05"));
    assert!(matches!(b[2], BindValue::Amount(Decimal { units: -125, scale: 1 })));
    assert!(matches!(&b[6], BindValue::Text(t) if t == "SHOP"));
    assert!(matches!(&b[7], BindValue::Text(t) if t == "TX"));
    assert!(matches!(b[8], BindValue::Int(7)));
}

#[test]
fn single_high_sample_among_five_is_not_flagged() {
    let f = flag_outliers(&vec![10, 10, 10, 10, 100], PURCHASES_REQUIRED, ZSCORE_THRESH_NUM, ZSCORE_THRESH_DEN);
    assert_eq!(f, vec![false; 5]);
}

#[test]
fn far_sample_in_large_group_is_flagged() {
    let mut amounts = vec![10; 9];
    amounts.push(100);
    let f = flag_outliers(&amounts, PURCHASES_REQUIRED, ZSCORE_THRESH_NUM, ZSCORE_THRESH_DEN);
    let mut expected = vec![false; 9];
    expected.push(true);
    assert_eq!(f, expected);
}

#[test]
fn small_groups_are_never_flagged() {
    let f = flag_outliers(&vec![1, 1, 1, 1000], PURCHASES_REQUIRED, ZSCORE_THRESH_NUM, ZSCORE_THRESH_DEN);
    assert_eq!(f, vec![false; 4]);
}

#[test]
fn identical_samples_are_never_flagged() {
    let f = flag_outliers(&vec![7; 8], PURCHASES_REQUIRED, ZSCORE_THRESH_NUM, ZSCORE_THRESH_DEN);
    assert_eq!(f, vec![false; 8]);
}
