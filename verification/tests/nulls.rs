//! Restoring explicit nulls that decoding conflated with absent fields.
use near_indexer_client::restore_explicit_nulls;

#[test]
fn split_null_and_missing_remain_distinct_after_restoring() {
    let decoded: Vec<Option<Option<u32>>> = vec![None, None];
    let restored = restore_explicit_nulls(decoded, &vec![false, true]);
    assert_eq!(restored, vec![None, Some(None)]);
}

#[test]
fn present_values_and_unflagged_entries_stay_as_decoded() {
    let decoded = vec![Some(Some(7u32)), Some(None), None, Some(Some(9))];
    let restored = restore_explicit_nulls(decoded, &vec![true, false]);
    assert_eq!(restored, vec![Some(None), Some(None), None, Some(Some(9))]);
}

#[test]
fn flags_beyond_the_fields_are_ignored() {
    let restored = restore_explicit_nulls(vec![Some(Some(1u8))], &vec![false, true, true]);
    assert_eq!(restored, vec![Some(Some(1))]);
    let none: Vec<Option<Option<u8>>> = vec![];
    assert!(restore_explicit_nulls(none, &vec![true]).is_empty());
}
