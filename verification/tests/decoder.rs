use bitcoin_bench::numbers::{parse_value, parse_value_i32, parse_decimal, parse_u64, Decimal,
    u64_to_string, dec_le};
use bitcoin_bench::duration::parse_duration;
use bitcoin_bench::report::TimeResult;

fn dec_f64(d: &Decimal) -> f64 {
    d.whole as f64 + d.frac_num as f64 / d.frac_den as f64
}

#[test]
fn parse_value_integers() {
    assert_eq!(parse_value("123"), Some(123));
    assert_eq!(parse_value("-5"), Some(-5));
    assert_eq!(parse_value("+7"), Some(7));
    assert_eq!(parse_value("0"), Some(0));
    assert_eq!(parse_value("9223372036854775807"), Some(i64::MAX));
    assert_eq!(parse_value("-9223372036854775808"), Some(i64::MIN));
    assert_eq!(parse_value("9223372036854775808"), None);
    assert_eq!(parse_value(""), None);
    assert_eq!(parse_value("-"), None);
    assert_eq!(parse_value("12a"), None);
    assert_eq!(parse_value("1 2"), None);
}

#[test]
fn parse_value_i32_bounds() {
    assert_eq!(parse_value_i32("2147483647"), Some(i32::MAX));
    assert_eq!(parse_value_i32("2147483648"), None);
    assert_eq!(parse_value_i32("-2147483648"), Some(i32::MIN));
}

#[test]
fn parse_u64_overflow() {
    assert_eq!(parse_u64("18446744073709551615"), Some(u64::MAX));
    assert_eq!(parse_u64("18446744073709551616"), None);
}

#[test]
fn parse_decimal_forms() {
    let d = parse_decimal("12.34").unwrap();
    assert_eq!((d.whole, d.frac_num, d.frac_den), (12, 34, 100));
    let d = parse_decimal("0.4").unwrap();
    assert_eq!((d.whole, d.frac_num, d.frac_den), (0, 4, 10));
    let d = parse_decimal("12").unwrap();
    assert_eq!((d.whole, d.frac_num, d.frac_den), (12, 0, 1));
    assert!(parse_decimal("1.2345678901").is_none());
    assert!(parse_decimal(".5").is_none());
    assert!(parse_decimal("5.").is_none());
    assert!(parse_decimal("-1.0").is_none());
    assert!(parse_decimal("").is_none());
}

#[test]
fn duration_three_components() {
    let d = parse_duration("1:02:03.45").unwrap();
    assert!((dec_f64(&d) - 3723.45).abs() < 1e-9);
    assert_eq!((d.whole, d.frac_num, d.frac_den), (3723, 45, 100));
}

#[test]
fn duration_two_components() {
    let d = parse_duration("2:03.40").unwrap();
    assert!((dec_f64(&d) - 123.4).abs() < 1e-9);
    assert_eq!((d.whole, d.frac_num, d.frac_den), (123, 40, 100));
}

#[test]
fn duration_wrong_component_counts() {
    assert!(parse_duration("3.45").is_none());
    assert!(parse_duration("1:2:3:4.0").is_none());
    assert!(parse_duration("").is_none());
    assert!(parse_duration(":03.4").is_none());
    assert!(parse_duration("1:").is_none());
    assert!(parse_duration("x:03.4").is_none());
}

#[test]
fn duration_without_fraction() {
    let d = parse_duration("1:00:00").unwrap();
    assert_eq!((d.whole, d.frac_num, d.frac_den), (3600, 0, 1));
}

const REPORT: &str = "\tCommand being timed: \"echo hi\"\n\
\tUser time (seconds): 0.05\n\
\tSystem time (seconds): 0.01\n\
\tPercent of CPU this job got: 95%\n\
\tElapsed (wall clock) time (h:mm:ss or m:ss): 0:01.23\n\
\tMaximum resident set size (kbytes): 2048\n\
\tMajor (requiring I/O) page faults: 1\n\
\tMinor (reclaiming a frame) page faults: 345\n\
\tVoluntary context switches: 10\n\
\tInvoluntary context switches: 2\n\
\tFile system outputs: 8\n\
\tExit status: 0\n";

#[test]
fn decode_full_report() {
    let t = TimeResult::decode(REPORT).unwrap();
    assert_eq!(t.command, "echo hi");
    assert!((dec_f64(&t.user_time) - 0.05).abs() < 1e-9);
    assert!((dec_f64(&t.system_time) - 0.01).abs() < 1e-9);
    assert_eq!(t.percent_of_cpu, 95);
    assert!((dec_f64(&t.elapsed_time) - 1.23).abs() < 1e-9);
    assert_eq!(t.max_resident_set_size_kb, 2048);
    assert_eq!(t.major_page_faults, 1);
    assert_eq!(t.minor_page_faults, 345);
    assert_eq!(t.voluntary_context_switches, 10);
    assert_eq!(t.involuntary_context_switches, 2);
    assert_eq!(t.file_system_outputs, 8);
    assert_eq!(t.exit_status, 0);
}

#[test]
fn decode_is_deterministic() {
    let a = TimeResult::decode(REPORT).unwrap();
    let b = TimeResult::decode(REPORT).unwrap();
    assert_eq!(a.command, b.command);
    assert_eq!(a.percent_of_cpu, b.percent_of_cpu);
    assert_eq!(a.max_resident_set_size_kb, b.max_resident_set_size_kb);
    assert_eq!(a.user_time, b.user_time);
    assert_eq!(a.elapsed_time, b.elapsed_time);
}

#[test]
fn decode_ignores_unknown_labels_and_odd_lines() {
    let text = "Some banner line without the separator\n\
\tSwaps: 0\n\
\tExit status: 7\n\
\n";
    let t = TimeResult::decode(text).unwrap();
    assert_eq!(t.exit_status, 7);
    // untouched fields keep their zero defaults
    assert_eq!(t.max_resident_set_size_kb, 0);
    assert_eq!(t.command, "");
}

#[test]
fn decode_bad_value_for_known_label_is_fatal() {
    let text = "\tExit status: seven\n";
    assert!(TimeResult::decode(text).is_err());
    let text = "\tUser time (seconds): fast\n";
    assert!(TimeResult::decode(text).is_err());
    let text = "\tElapsed (wall clock) time (h:mm:ss or m:ss): 99 seconds\n";
    assert!(TimeResult::decode(text).is_err());
}

#[test]
fn decode_splits_at_last_separator() {
    // the command itself holds ": ", the label is everything before the
    // last separator only when the known label matches after trimming
    let text = "\tCommand being timed: \"run: fast\"\n";
    // last ": " is inside the value, so the recognized label is not found
    // and the line is ignored rather than decoded
    let t = TimeResult::decode(text).unwrap();
    assert_eq!(t.command, "");
}

#[test]
fn decimal_comparison_is_by_value() {
    let a = parse_decimal("1.5").unwrap();
    let b = parse_decimal("1.50").unwrap();
    assert!(dec_le(&a, &b) && dec_le(&b, &a));
    let c = parse_decimal("1.49").unwrap();
    assert!(dec_le(&c, &a));
    assert!(!dec_le(&a, &c));
}

#[test]
fn render_u64() {
    assert_eq!(u64_to_string(0), "0");
    assert_eq!(u64_to_string(7), "7");
    assert_eq!(u64_to_string(1234567890), "1234567890");
}
