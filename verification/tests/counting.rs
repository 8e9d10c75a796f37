use rust_log_blaster::count::{
    count_errors, count_errors_lenient, count_errors_strict, is_error_level, DecodeError, Mode,
};
use rust_log_blaster::record::DecodeErrorKind;

const SAMPLE: &[u8] = b"timestamp,level,message,response_time_ms\n\
2024-01-01T00:00:00,INFO,ok,12\n\
2024-01-01T00:00:01,ERROR,failed,500\n\
2024-01-01T00:00:02,ERROR,failed again,10\n";

#[test]
fn concrete_scenario_counts_two() {
    assert_eq!(count_errors_strict(SAMPLE), Ok(2));
}

#[test]
fn no_trailing_newline_same_count() {
    let content = b"timestamp,level,message,response_time_ms\n\
2024-01-01T00:00:01,ERROR,failed,500";
    assert_eq!(count_errors_strict(content), Ok(1));
}

#[test]
fn header_only_counts_zero_not_error() {
    let content = b"timestamp,level,message,response_time_ms\n";
    assert_eq!(count_errors_strict(content), Ok(0));
    let content = b"timestamp,level,message,response_time_ms";
    assert_eq!(count_errors_strict(content), Ok(0));
}

#[test]
fn empty_file_counts_zero() {
    assert_eq!(count_errors_strict(b""), Ok(0));
    assert_eq!(count_errors_lenient(b""), 0);
}

#[test]
fn no_error_rows_counts_zero() {
    let content = b"timestamp,level,message,response_time_ms\n\
2024-01-01T00:00:00,INFO,ok,12\n\
2024-01-01T00:00:01,WARN,slow,900\n";
    assert_eq!(count_errors_strict(content), Ok(0));
}

#[test]
fn level_match_is_case_sensitive() {
    let content = b"timestamp,level,message,response_time_ms\n\
2024-01-01T00:00:00,error,lower,1\n\
2024-01-01T00:00:01,Error,mixed,2\n\
2024-01-01T00:00:02,ERROR,upper,3\n";
    assert_eq!(count_errors_strict(content), Ok(1));
}

#[test]
fn level_must_match_exactly() {
    let content = b"timestamp,level,message,response_time_ms\n\
2024-01-01T00:00:00,ERRORS,near,1\n\
2024-01-01T00:00:01,ERRO,short,2\n";
    assert_eq!(count_errors_strict(content), Ok(0));
}

#[test]
fn processing_twice_yields_same_count() {
    let first = count_errors_strict(SAMPLE);
    let second = count_errors_strict(SAMPLE);
    assert_eq!(first, second);
    assert_eq!(count_errors_lenient(SAMPLE), count_errors_lenient(SAMPLE));
}

#[test]
fn strict_aborts_on_bad_response_time() {
    let content = b"timestamp,level,message,response_time_ms\n\
2024-01-01T00:00:00,ERROR,failed,500\n\
2024-01-01T00:00:01,INFO,bad,not_a_number\n";
    assert_eq!(
        count_errors_strict(content),
        Err(DecodeError { line: 3, kind: DecodeErrorKind::BadResponseTime })
    );
}

#[test]
fn lenient_skips_bad_response_time() {
    let content = b"timestamp,level,message,response_time_ms\n\
2024-01-01T00:00:00,ERROR,failed,500\n\
2024-01-01T00:00:01,INFO,bad,not_a_number\n";
    assert_eq!(count_errors_lenient(content), 1);
}

#[test]
fn strict_aborts_on_wrong_field_count() {
    let content = b"timestamp,level,message,response_time_ms\n\
2024-01-01T00:00:00,ERROR,failed\n\
2024-01-01T00:00:01,ERROR,ok,5\n";
    assert_eq!(
        count_errors_strict(content),
        Err(DecodeError { line: 2, kind: DecodeErrorKind::WrongFieldCount })
    );
}

#[test]
fn strict_reports_first_bad_row() {
    let content = b"timestamp,level,message,response_time_ms\n\
2024-01-01T00:00:00,INFO,ok,1\n\
too,few\n\
2024-01-01T00:00:02,INFO,bad,x\n";
    assert_eq!(
        count_errors_strict(content),
        Err(DecodeError { line: 3, kind: DecodeErrorKind::WrongFieldCount })
    );
}

#[test]
fn lenient_skips_malformed_rows_and_continues() {
    let content = b"timestamp,level,message,response_time_ms\n\
too,few\n\
2024-01-01T00:00:01,ERROR,counted,1\n\
2024-01-01T00:00:02,ERROR,also counted,2\n";
    assert_eq!(count_errors_lenient(content), 2);
}

#[test]
fn mode_dispatch_matches_each_policy() {
    let content = b"timestamp,level,message,response_time_ms\n\
2024-01-01T00:00:00,ERROR,failed,500\n\
broken row\n";
    assert_eq!(
        count_errors(content, Mode::Strict),
        Err(DecodeError { line: 3, kind: DecodeErrorKind::WrongFieldCount })
    );
    assert_eq!(count_errors(content, Mode::Lenient), Ok(1));
}

#[test]
fn error_level_comparison_is_exact() {
    assert!(is_error_level(b"ERROR"));
    assert!(!is_error_level(b"error"));
    assert!(!is_error_level(b"ERRO"));
    assert!(!is_error_level(b"ERRORS"));
    assert!(!is_error_level(b" ERROR"));
    assert!(!is_error_level(b""));
}

#[test]
fn crlf_line_endings_read_like_lf() {
    let content = b"timestamp,level,message,response_time_ms\r\n\
2024-01-01T00:00:00,INFO,ok,12\r\n\
2024-01-01T00:00:01,ERROR,failed,500\r\n\
2024-01-01T00:00:02,ERROR,failed again,10\r\n";
    assert_eq!(count_errors_strict(content), Ok(2));
}

#[test]
fn strict_and_lenient_agree_on_well_formed_files() {
    assert_eq!(count_errors_strict(SAMPLE), Ok(count_errors_lenient(SAMPLE)));
}

#[test]
fn blank_line_is_malformed_in_strict_mode() {
    let content = b"timestamp,level,message,response_time_ms\n\
\n\
2024-01-01T00:00:01,ERROR,counted,1\n";
    assert_eq!(
        count_errors_strict(content),
        Err(DecodeError { line: 2, kind: DecodeErrorKind::WrongFieldCount })
    );
    assert_eq!(count_errors_lenient(content), 1);
}
