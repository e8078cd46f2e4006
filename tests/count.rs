use s3_copy_fanout::count::{parse_count, partition, per_worker, CountError};

#[test]
fn parse_count_accepts_decimal() {
    assert_eq!(parse_count("10"), Ok(10));
    assert_eq!(parse_count("0"), Ok(0));
    assert_eq!(parse_count("+7"), Ok(7));
    assert_eq!(parse_count("007"), Ok(7));
    assert_eq!(parse_count("18446744073709551615"), Ok(usize::MAX));
}

#[test]
fn parse_count_errors() {
    assert_eq!(parse_count(""), Err(CountError::Empty));
    assert_eq!(parse_count("+"), Err(CountError::InvalidDigit));
    assert_eq!(parse_count("-1"), Err(CountError::InvalidDigit));
    assert_eq!(parse_count("1a"), Err(CountError::InvalidDigit));
    assert_eq!(parse_count(" 1"), Err(CountError::InvalidDigit));
    assert_eq!(parse_count("18446744073709551616"), Err(CountError::Overflow));
}

#[test]
fn per_worker_drops_remainder() {
    assert_eq!(per_worker(10, 4), 2);
    assert_eq!(4 * per_worker(10, 4), 8);
    assert_eq!(per_worker(4, 2), 2);
    assert_eq!(per_worker(0, 3), 0);
    assert_eq!(per_worker(3, 4), 0);
    assert_eq!(per_worker(usize::MAX, 1), usize::MAX);
}

#[test]
fn partition_uses_at_least_one_worker() {
    let (workers, share) = partition(100);
    assert!(workers >= 1);
    assert_eq!(share, 100 / workers);
}
