use easy_term::resource_monitor::{group_usage, ps_failed};
use easy_term::text::{parse_u64, split_words};

const PS: &[u8] = b" PGID  %CPU    RSS\n  100   1.5  2048\n  200   9.0  4096\n  100   0.5   512\n  100\n 100 2.0 x\n";

#[test]
fn the_group_rows_are_picked_by_their_pgid() {
    let usage = group_usage(PS, 100);
    assert_eq!(
        usage.cpu_fields,
        vec![Some("1.5".to_string()), Some("0.5".to_string()), None, Some("2.0".to_string())]
    );
    assert_eq!(usage.memory_bytes, (2048 + 512) * 1024);
}

#[test]
fn the_header_never_counts_and_an_unknown_group_is_empty() {
    let usage = group_usage(b"100 1.0 10\n", 100);
    assert!(usage.cpu_fields.is_empty());
    assert_eq!(usage.memory_bytes, 0);
    let usage = group_usage(PS, 300);
    assert!(usage.cpu_fields.is_empty());
    assert!(group_usage(b"", 1).cpu_fields.is_empty());
}

#[test]
fn memory_stops_at_the_largest_u64() {
    let usage = group_usage(b"h\n1 0 18446744073709551615\n", 1);
    assert_eq!(usage.memory_bytes, u64::MAX);
}

#[test]
fn ps_errors_are_reported() {
    assert_eq!(ps_failed("not found").message, "Could not run ps: not found");
}

#[test]
fn words_and_unsigned_numbers_parse_like_std() {
    assert_eq!(split_words("  a\tbb \u{a0} c  "), vec!["a", "bb", "c"]);
    assert!(split_words("   ").is_empty());
    assert_eq!(parse_u64("+18446744073709551615"), Some(u64::MAX));
    assert_eq!(parse_u64("18446744073709551616"), None);
    assert_eq!(parse_u64("-1"), None);
}
