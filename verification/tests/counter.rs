use dit::counter::{advance_counter, counter_from, issued_from, FIRST_ID, ROOT_ID};
use dit::IndexError;

fn le(n: u64) -> Vec<u8> {
    n.to_le_bytes().to_vec()
}

#[test]
fn first_identifier_is_above_the_root() {
    assert_eq!(ROOT_ID, 2);
    assert_eq!(FIRST_ID, 3);
    assert_eq!(issued_from(None), Ok(3));
    assert_eq!(advance_counter(None), Some(le(3)));
}

#[test]
fn counter_advances_by_one() {
    assert_eq!(issued_from(Some(le(3))), Ok(4));
    assert_eq!(advance_counter(Some(&le(3))), Some(le(4)));
    assert_eq!(issued_from(Some(le(1000))), Ok(1001));
    assert_eq!(advance_counter(Some(&le(1000))), Some(le(1001)));
    assert_eq!(issued_from(Some(le(u64::MAX - 1))), Ok(u64::MAX));
    assert_eq!(advance_counter(Some(&le(u64::MAX - 1))), Some(le(u64::MAX)));
}

#[test]
fn counter_at_its_end_issues_nothing() {
    assert_eq!(issued_from(Some(le(u64::MAX))), Err(IndexError::Exhausted));
    assert_eq!(advance_counter(Some(&le(u64::MAX))), Some(le(u64::MAX)));
}

#[test]
fn counter_of_wrong_length_is_corrupt() {
    assert_eq!(issued_from(Some(vec![3, 0, 0])), Err(IndexError::Corrupt));
    assert_eq!(issued_from(Some(vec![])), Err(IndexError::Corrupt));
    assert_eq!(issued_from(Some(vec![3; 9])), Err(IndexError::Corrupt));
    assert_eq!(advance_counter(Some(&[3, 0, 0])), Some(vec![3, 0, 0]));
    assert_eq!(counter_from(Some(vec![3, 0, 0])), Err(IndexError::Corrupt));
}

#[test]
fn counter_below_the_first_identifier_is_corrupt() {
    for n in [0u64, 1, 2] {
        assert_eq!(issued_from(Some(le(n))), Err(IndexError::Corrupt));
        assert_eq!(counter_from(Some(le(n))), Err(IndexError::Corrupt));
        assert_eq!(advance_counter(Some(&le(n))), Some(le(n)));
    }
}

#[test]
fn counter_reads_the_last_identifier() {
    assert_eq!(counter_from(None), Ok(None));
    assert_eq!(counter_from(Some(le(3))), Ok(Some(3)));
    assert_eq!(counter_from(Some(le(u64::MAX))), Ok(Some(u64::MAX)));
}
