use zonecfg_backup::naming::{
    decimal_string, latest_file_name, snapshot_file_name, LATEST_SUFFIX, SNAPSHOT_SUFFIX,
};

#[test]
fn decimal_of_zero_is_one_digit() {
    assert_eq!(decimal_string(0), "0");
}

#[test]
fn decimal_of_small_numbers() {
    assert_eq!(decimal_string(7), "7");
    assert_eq!(decimal_string(9), "9");
    assert_eq!(decimal_string(10), "10");
    assert_eq!(decimal_string(100), "100");
    assert_eq!(decimal_string(1234567890), "1234567890");
}

#[test]
fn decimal_of_negative_numbers_has_a_sign() {
    assert_eq!(decimal_string(-1), "-1");
    assert_eq!(decimal_string(-5), "-5");
    assert_eq!(decimal_string(-120), "-120");
}

#[test]
fn decimal_at_the_limits() {
    assert_eq!(decimal_string(i64::MAX), "9223372036854775807");
    assert_eq!(decimal_string(i64::MIN), "-9223372036854775808");
}

#[test]
fn decimal_agrees_with_std_formatting() {
    let mut n: i64 = -1_000_003;
    while n < 1_000_003 {
        assert_eq!(decimal_string(n), format!("{}", n));
        n += 7919;
    }
}

#[test]
fn suffixes_are_the_documented_ones() {
    assert_eq!(SNAPSHOT_SUFFIX, ".zones.tar.zst");
    assert_eq!(LATEST_SUFFIX, "_latest");
}

#[test]
fn snapshot_name_embeds_the_timestamp() {
    assert_eq!(
        snapshot_file_name("zonecfg-backup", 1700000000),
        "zonecfg-backup_1700000000.zones.tar.zst"
    );
    assert_eq!(snapshot_file_name("backup", 9), "backup_9.zones.tar.zst");
    assert_eq!(snapshot_file_name("", 0), "_0.zones.tar.zst");
}

#[test]
fn snapshot_name_of_a_time_before_the_epoch() {
    assert_eq!(snapshot_file_name("b", -42), "b_-42.zones.tar.zst");
}

#[test]
fn snapshot_name_keeps_a_prefix_that_is_not_ascii() {
    assert_eq!(snapshot_file_name("zöne", 15), "zöne_15.zones.tar.zst");
}

#[test]
fn latest_name_follows_the_prefix() {
    assert_eq!(latest_file_name("zonecfg-backup"), "zonecfg-backup_latest");
    assert_eq!(latest_file_name(""), "_latest");
}

#[test]
fn names_of_different_times_differ() {
    assert_ne!(snapshot_file_name("p", 1), snapshot_file_name("p", 2));
    assert_ne!(snapshot_file_name("p", 1), snapshot_file_name("p", -1));
    assert_ne!(snapshot_file_name("p", 10), snapshot_file_name("p", 100));
}

#[test]
fn a_snapshot_name_is_never_the_pointer_name() {
    for seconds in [-3i64, 0, 5, 1700000000] {
        assert_ne!(snapshot_file_name("p", seconds), latest_file_name("p"));
    }
}
