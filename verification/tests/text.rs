use bpftrace_ls::log_mod::{parse_log_mask, DIAGN, NOTIF};
use bpftrace_ls::server::do_bpftrace_diagnostics;
use bpftrace_ls::text::{decimal_string, str_eq};

#[test]
fn decimal_strings() {
    assert_eq!(decimal_string(0), "0");
    assert_eq!(decimal_string(7), "7");
    assert_eq!(decimal_string(1234), "1234");
    assert_eq!(decimal_string(u64::MAX), "18446744073709551615");
}

#[test]
fn names_are_compared_in_capitals() {
    // Upper-casing is what makes lower-case names select their category.
    assert_eq!(parse_log_mask(Some("diagn")), DIAGN);
    assert_eq!(parse_log_mask(Some("nOtIf")), NOTIF);
}

#[test]
fn error_output_is_decoded_as_utf8() {
    let d = do_bpftrace_diagnostics("stdin:1:0-1: ERROR: é\n".as_bytes()).unwrap();
    assert_eq!(d[0].message, " ERROR: é");
    assert!(do_bpftrace_diagnostics(b"stdin:1:0-1: ERROR: \xc3\n").unwrap().is_empty());
}

#[test]
fn string_equality() {
    assert!(str_eq("exit", "exit"));
    assert!(!str_eq("exit", "exi"));
    assert!(!str_eq("", "x"));
}
