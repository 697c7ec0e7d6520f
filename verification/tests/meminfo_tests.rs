use sysfetch::meminfo::mem_stats_from_counters;
use sysfetch::meminfo::parse_meminfo;
use sysfetch::report::render_mem_value;

#[test]
fn parses_example_input() {
    let input = b"MemTotal:       16384000 kB\nMemAvailable:    8192000 kB\n";
    let m = parse_meminfo(input).expect("snapshot expected");
    assert_eq!(m.total_kib, 16384000);
    assert_eq!(m.avail_kib, 8192000);
    assert_eq!(m.used_kib(), 8192000);
}

#[test]
fn renders_example_input() {
    let input = b"MemTotal:       16384000 kB\nMemAvailable:    8192000 kB\n";
    let m = parse_meminfo(input).expect("snapshot expected");
    assert_eq!(render_mem_value(&m), "7.81 GiB / 15.63 GiB (50.0%)");
}

#[test]
fn used_is_total_minus_available() {
    let input = b"MemTotal: 1000 kB\nMemAvailable: 250 kB\n";
    let m = parse_meminfo(input).expect("snapshot expected");
    assert_eq!(m.used_kib(), 750);
    // 750 / 1000 = 75.0%; 750 KiB and 1000 KiB are below 0.005 GiB, so both
    // round to 0.00.
    assert_eq!(render_mem_value(&m), "0.00 GiB / 0.00 GiB (75.0%)");
}

#[test]
fn renders_half_gibibyte() {
    let m = parse_meminfo(b"MemTotal: 1048576 kB\nMemAvailable: 524288 kB\n").unwrap();
    assert_eq!(render_mem_value(&m), "0.50 GiB / 1.00 GiB (50.0%)");
}

#[test]
fn percent_rounds_half_up() {
    // 101 / 2000 is exactly 5.05%, a tie at one decimal: it rounds up to 5.1.
    let m = parse_meminfo(b"MemTotal: 2000 kB\nMemAvailable: 1899 kB\n").unwrap();
    assert_eq!(render_mem_value(&m), "0.00 GiB / 0.00 GiB (5.1%)");
}

#[test]
fn gib_rounds_half_up() {
    // 131072 KiB is exactly 0.125 GiB, a tie at two decimals: it rounds up
    // to 0.13, as the total of 0.25 GiB shows exactly.
    let m = parse_meminfo(b"MemTotal: 262144 kB\nMemAvailable: 131072 kB\n").unwrap();
    assert_eq!(render_mem_value(&m), "0.13 GiB / 0.25 GiB (50.0%)");
}

#[test]
fn zero_total_is_absent() {
    let input = b"MemTotal: 0 kB\nMemAvailable: 0 kB\n";
    assert!(parse_meminfo(input).is_none());
}

#[test]
fn missing_total_is_absent() {
    let input = b"MemAvailable: 8192000 kB\n";
    assert!(parse_meminfo(input).is_none());
}

#[test]
fn missing_available_is_absent() {
    let input = b"MemTotal: 16384000 kB\n";
    assert!(parse_meminfo(input).is_none());
}

#[test]
fn empty_input_is_absent() {
    assert!(parse_meminfo(b"").is_none());
}

#[test]
fn first_occurrence_wins() {
    let input = b"MemTotal: 100 kB\nMemAvailable: 50 kB\nMemTotal: 999 kB\n";
    let m = parse_meminfo(input).expect("snapshot expected");
    assert_eq!(m.total_kib, 100);
    assert_eq!(m.avail_kib, 50);
}

#[test]
fn key_order_does_not_matter() {
    let input = b"MemAvailable: 50 kB\nSwapTotal: 0 kB\nMemTotal: 100 kB\n";
    let m = parse_meminfo(input).expect("snapshot expected");
    assert_eq!(m.total_kib, 100);
    assert_eq!(m.avail_kib, 50);
}

#[test]
fn unparseable_value_is_absent() {
    let input = b"MemTotal: many kB\nMemAvailable: 50 kB\n";
    assert!(parse_meminfo(input).is_none());
}

#[test]
fn value_field_missing_is_absent() {
    let input = b"MemTotal:\nMemAvailable: 50 kB\n";
    assert!(parse_meminfo(input).is_none());
}

#[test]
fn available_above_total_is_absent() {
    let input = b"MemTotal: 100 kB\nMemAvailable: 200 kB\n";
    assert!(parse_meminfo(input).is_none());
}

#[test]
fn no_trailing_newline_still_parses() {
    let input = b"MemTotal: 100 kB\nMemAvailable: 40 kB";
    let m = parse_meminfo(input).expect("snapshot expected");
    assert_eq!(m.used_kib(), 60);
}

#[test]
fn counters_follow_the_same_rule() {
    let m = mem_stats_from_counters(100, 40).expect("snapshot expected");
    assert_eq!(m.used_kib(), 60);
    assert!(mem_stats_from_counters(0, 0).is_none());
    assert!(mem_stats_from_counters(100, 101).is_none());
}
