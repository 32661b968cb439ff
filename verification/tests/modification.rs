use connector_utils::file_modified_since;
use connector_utils::files::ModifiedTime;

#[test]
fn files_are_processed_without_a_point_in_time() {
    assert!(file_modified_since(ModifiedTime::Unknown, None));
    assert!(file_modified_since(ModifiedTime::BeforeEpoch, None));
    assert!(file_modified_since(ModifiedTime::Millis(0), None));
}

#[test]
fn files_of_unknown_age_are_processed() {
    assert!(file_modified_since(ModifiedTime::Unknown, Some(1_700_000_000_000)));
    assert!(file_modified_since(ModifiedTime::BeforeEpoch, Some(1_700_000_000_000)));
}

#[test]
fn modification_counts_with_a_second_of_slack() {
    let since = Some(1_700_000_000_000);
    assert!(file_modified_since(ModifiedTime::Millis(1_700_000_000_000), since));
    assert!(file_modified_since(ModifiedTime::Millis(1_699_999_999_000), since));
    assert!(!file_modified_since(ModifiedTime::Millis(1_699_999_998_999), since));
    assert!(file_modified_since(ModifiedTime::Millis(1_800_000_000_000), since));
}

#[test]
fn extreme_times_compare_correctly() {
    assert!(file_modified_since(ModifiedTime::Millis(0), Some(i64::MIN)));
    assert!(file_modified_since(ModifiedTime::Millis(u128::MAX), Some(i64::MAX)));
    assert!(!file_modified_since(ModifiedTime::Millis(0), Some(i64::MAX)));
    assert!(file_modified_since(ModifiedTime::Millis(0), Some(1000)));
    assert!(!file_modified_since(ModifiedTime::Millis(0), Some(1001)));
}
