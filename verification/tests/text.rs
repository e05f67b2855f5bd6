use geostationary::text::{capitalise, parse_log_level, push_decimal, push_decimal_nat, LogLevel};

#[test]
fn decimal_digits_of_unsigned() {
    for n in [0u64, 7, 10, 99, 100, 4096, u64::MAX] {
        let mut s = String::from("n=");
        push_decimal_nat(&mut s, n);
        assert_eq!(s, format!("n={}", n));
    }
}

#[test]
fn decimal_digits_of_signed() {
    for n in [0i64, -1, 5, -40, 123456, i64::MIN, i64::MAX] {
        let mut s = String::new();
        push_decimal(&mut s, n);
        assert_eq!(s, n.to_string());
    }
}

#[test]
fn labels_start_with_a_capital() {
    assert_eq!(capitalise("toolbox"), "Toolbox");
    assert_eq!(capitalise("Can"), "Can");
    assert_eq!(capitalise(""), "");
    assert_eq!(capitalise("\u{e9}t\u{e9}"), "\u{c9}t\u{e9}");
    assert_eq!(capitalise("\u{df}x"), "SSx");
}

#[test]
fn log_level_names_ignore_case() {
    assert_eq!(parse_log_level("trace"), LogLevel::Trace);
    assert_eq!(parse_log_level("DEBUG"), LogLevel::Debug);
    assert_eq!(parse_log_level("Warn"), LogLevel::Warn);
    assert_eq!(parse_log_level("warning"), LogLevel::Warn);
    assert_eq!(parse_log_level("eRRor"), LogLevel::Error);
    assert_eq!(parse_log_level("info"), LogLevel::Info);
    assert_eq!(parse_log_level("verbose"), LogLevel::Info);
    assert_eq!(parse_log_level(""), LogLevel::Info);
    assert_eq!(parse_log_level("warn "), LogLevel::Info);
}
