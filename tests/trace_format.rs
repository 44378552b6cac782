use attitude_viz::{is_numeric_field, load_trace, validate_records, TraceError};

fn record(fields: &[&str]) -> Vec<String> {
    fields.iter().map(|f| f.to_string()).collect()
}

fn header() -> Vec<String> {
    record(&["t", "omega1", "omega2", "omega3", "q0", "q1", "q2", "q3"])
}

#[test]
fn numeric_fields_accepted() {
    for f in [
        "0", "1.5", "-2e-3", ".5", "5.", "+7", "1E10", "3.25e+2", "inf", "-INF", "Infinity",
        "nan", "+NaN", "0.000000001",
    ] {
        assert!(is_numeric_field(f), "{f}");
    }
}

#[test]
fn non_numeric_fields_refused() {
    for f in [
        "", "abc", "1.2.3", "e5", "1e", "1e+", "+", "-", ".", " 1", "1 ", "0x10", "infin", "1,5",
        "--1", "1e5.0",
    ] {
        assert!(!is_numeric_field(f), "{f}");
    }
}

#[test]
fn three_rows_give_three_samples_in_order() {
    let records = vec![
        header(),
        record(&["0", "0.1", "0.2", "0.3", "1", "0", "0", "0"]),
        record(&["0.5", "0.1", "0.2", "0.3", "0.9", "0.1", "0.2", "0.3"]),
        record(&["1.0", "-0.1", "-0.2", "-0.3", "0.5", "0.5", "0.5", "0.5"]),
    ];
    let trace = validate_records(records).unwrap();
    assert_eq!(trace.len(), 3);
    assert_eq!(trace.field(0, 0), "0");
    assert_eq!(trace.field(1, 0), "0.5");
    assert_eq!(trace.field(2, 0), "1.0");
    assert_eq!(trace.field(1, 5), "0.1");
    assert_eq!(trace.field(2, 3), "-0.3");
}

#[test]
fn non_numeric_field_fails_whole_load() {
    let records = vec![
        header(),
        record(&["0", "0.1", "0.2", "0.3", "1", "0", "0", "0"]),
        record(&["0.5", "0.1", "fast", "0.3", "0.9", "0.1", "0.2", "0.3"]),
        record(&["1.0", "-0.1", "-0.2", "-0.3", "0.5", "0.5", "0.5", "0.5"]),
    ];
    assert_eq!(
        validate_records(records).err(),
        Some(TraceError::NotNumeric { row: 1, column: 2 })
    );
}

#[test]
fn header_only_gives_empty_trace() {
    let trace = validate_records(vec![header()]).unwrap();
    assert_eq!(trace.len(), 0);
}

#[test]
fn no_records_is_missing_header() {
    assert_eq!(validate_records(vec![]).err(), Some(TraceError::MissingHeader));
}

#[test]
fn wrong_header_refused() {
    let mut h = header();
    h.swap(1, 2);
    assert_eq!(validate_records(vec![h]).err(), Some(TraceError::BadHeader));
    let short = record(&["t", "omega1", "omega2", "omega3", "q0", "q1", "q2"]);
    assert_eq!(validate_records(vec![short]).err(), Some(TraceError::BadHeader));
}

#[test]
fn wrong_field_count_refused() {
    let records = vec![
        header(),
        record(&["0", "0.1", "0.2", "0.3", "1", "0", "0", "0"]),
        record(&["0.5", "0.1", "0.2", "0.3", "0.9", "0.1", "0.2"]),
    ];
    assert_eq!(
        validate_records(records).err(),
        Some(TraceError::FieldCount { row: 1, found: 7 })
    );
    let long = vec![header(), record(&["0", "0", "0", "0", "1", "0", "0", "0", "9"])];
    assert_eq!(
        validate_records(long).err(),
        Some(TraceError::FieldCount { row: 0, found: 9 })
    );
}

#[test]
fn first_offence_is_reported() {
    let records = vec![
        header(),
        record(&["0", "x", "0.2", "0.3", "1", "0", "0", "y"]),
        record(&["0.5"]),
    ];
    assert_eq!(
        validate_records(records).err(),
        Some(TraceError::NotNumeric { row: 0, column: 1 })
    );
}

#[test]
fn load_splits_csv_text() {
    let text = "t,omega1,omega2,omega3,q0,q1,q2,q3\n\
                0,0.1,0.2,0.3,1,0,0,0\n\
                0.5,0.1,0.2,0.3,0.9,0.1,0.2,0.3\n\
                1,-0.1,-0.2,-0.3,0.5,0.5,0.5,0.5\n";
    let trace = load_trace(text.as_bytes()).unwrap();
    assert_eq!(trace.len(), 3);
    assert_eq!(trace.field(0, 1), "0.1");
    assert_eq!(trace.field(1, 4), "0.9");
    assert_eq!(trace.field(2, 0), "1");
    assert_eq!(trace.field(2, 7), "0.5");
}

#[test]
fn load_refuses_non_numeric_row() {
    let text = "t,omega1,omega2,omega3,q0,q1,q2,q3\n\
                0,0.1,0.2,0.3,1,0,0,0\n\
                0.5,0.1,0.2,oops,0.9,0.1,0.2,0.3\n";
    assert_eq!(
        load_trace(text.as_bytes()).err(),
        Some(TraceError::NotNumeric { row: 1, column: 3 })
    );
}

#[test]
fn load_refuses_short_row() {
    let text = "t,omega1,omega2,omega3,q0,q1,q2,q3\n0,0.1,0.2\n";
    assert_eq!(
        load_trace(text.as_bytes()).err(),
        Some(TraceError::FieldCount { row: 0, found: 3 })
    );
}

#[test]
fn load_refuses_empty_text() {
    assert_eq!(load_trace(b"").err(), Some(TraceError::MissingHeader));
}

#[test]
fn load_refuses_invalid_utf8() {
    let bytes: Vec<u8> = vec![b't', b',', 0xff, 0xfe, b'\n'];
    assert_eq!(load_trace(&bytes).err(), Some(TraceError::Unreadable));
}

#[test]
fn numeric_fields_agree_with_float_parsing() {
    let pieces = ["", "+", "-", "0", "12", ".", "e", "E", "5", "inf", "nan", "x", " ", "ity", "N"];
    for a in pieces {
        for b in pieces {
            for c in pieces {
                let s = format!("{a}{b}{c}");
                assert_eq!(is_numeric_field(&s), s.parse::<f64>().is_ok(), "{s:?}");
            }
        }
    }
}
