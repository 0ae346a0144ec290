use rtgraph::fixed::{format_fixed2, parse_fixed};
use rtgraph::ingest::{
    handle_line_plot, handle_save_command, parse_record, split_fields, Command, Record,
};

fn fields_of(line: &[u8]) -> Vec<Vec<u8>> {
    split_fields(&line.to_vec())
}

#[test]
fn split_two_fields() {
    let fields = fields_of(b"0,1");
    assert_eq!(fields.len(), 2);
    assert_eq!(fields[0], b"0".to_vec());
    assert_eq!(fields[1], b"1".to_vec());
}

#[test]
fn split_no_comma_is_one_field() {
    let fields = fields_of(b"hello");
    assert_eq!(fields.len(), 1);
    assert_eq!(fields[0], b"hello".to_vec());
}

#[test]
fn split_keeps_empty_fields() {
    let fields = fields_of(b",a,");
    assert_eq!(fields.len(), 3);
    assert_eq!(fields[0], b"".to_vec());
    assert_eq!(fields[1], b"a".to_vec());
    assert_eq!(fields[2], b"".to_vec());
}

#[test]
fn parse_plain_decimals() {
    assert_eq!(parse_fixed(&b"1.5".to_vec()), Some(1_500_000));
    assert_eq!(parse_fixed(&b"-2.25".to_vec()), Some(-2_250_000));
    assert_eq!(parse_fixed(&b"+3".to_vec()), Some(3_000_000));
    assert_eq!(parse_fixed(&b".5".to_vec()), Some(500_000));
    assert_eq!(parse_fixed(&b"5.".to_vec()), Some(5_000_000));
    assert_eq!(parse_fixed(&b"0".to_vec()), Some(0));
    assert_eq!(parse_fixed(&b"-0.0".to_vec()), Some(0));
}

#[test]
fn parse_truncates_beyond_six_fraction_digits() {
    assert_eq!(parse_fixed(&b"1.0000009".to_vec()), Some(1_000_000));
    assert_eq!(parse_fixed(&b"0.123456".to_vec()), Some(123_456));
}

#[test]
fn parse_rejects_malformed_text() {
    assert_eq!(parse_fixed(&b"".to_vec()), None);
    assert_eq!(parse_fixed(&b"-".to_vec()), None);
    assert_eq!(parse_fixed(&b".".to_vec()), None);
    assert_eq!(parse_fixed(&b"a".to_vec()), None);
    assert_eq!(parse_fixed(&b"1.2.3".to_vec()), None);
    assert_eq!(parse_fixed(&b"1 ".to_vec()), None);
}

#[test]
fn parse_exponent_forms() {
    assert_eq!(parse_fixed(&b"1e3".to_vec()), Some(1_000_000_000));
    assert_eq!(parse_fixed(&b"1E2".to_vec()), Some(100_000_000));
    assert_eq!(parse_fixed(&b"1.5e1".to_vec()), Some(15_000_000));
    assert_eq!(parse_fixed(&b"2.5e-2".to_vec()), Some(25_000));
    assert_eq!(parse_fixed(&b"-4e2".to_vec()), Some(-400_000_000));
    assert_eq!(parse_fixed(&b"1e+3".to_vec()), Some(1_000_000_000));
    assert_eq!(parse_fixed(&b"1e-0".to_vec()), Some(1_000_000));
    assert_eq!(parse_fixed(&b".5e1".to_vec()), Some(5_000_000));
}

#[test]
fn parse_exponent_edges() {
    // Tiny values shift down to zero micro-units.
    assert_eq!(parse_fixed(&b"5e-30".to_vec()), Some(0));
    assert_eq!(parse_fixed(&b"1e-999999999999999".to_vec()), Some(0));
    // A zero mantissa stays zero under any exponent.
    assert_eq!(parse_fixed(&b"0e99999999999999999999".to_vec()), Some(0));
    // Values shifted beyond the coordinate range are rejected.
    assert_eq!(parse_fixed(&b"1e30".to_vec()), None);
    assert_eq!(parse_fixed(&b"2e12".to_vec()), None);
    assert_eq!(parse_fixed(&b"1e12".to_vec()), None);
    assert_eq!(parse_fixed(&b"1e6".to_vec()), Some(1_000_000_000_000));
    // A marker needs digits after it.
    assert_eq!(parse_fixed(&b"1e".to_vec()), None);
    assert_eq!(parse_fixed(&b"1e+".to_vec()), None);
    assert_eq!(parse_fixed(&b"e3".to_vec()), None);
    assert_eq!(parse_fixed(&b"1e3.5".to_vec()), None);
    // The mantissa itself must lie within the coordinate range, even when
    // a negative exponent would bring the value back inside.
    assert_eq!(parse_fixed(&b"2000000e-1".to_vec()), None);
    // The mantissa is resolved to micro-units before the shift.
    assert_eq!(parse_fixed(&b"1.2345678e1".to_vec()), Some(12_345_670));
}

#[test]
fn parse_enforces_coordinate_range() {
    assert_eq!(parse_fixed(&b"1000000".to_vec()), Some(1_000_000_000_000));
    assert_eq!(parse_fixed(&b"-1000000".to_vec()), Some(-1_000_000_000_000));
    assert_eq!(parse_fixed(&b"1000000.000001".to_vec()), None);
    assert_eq!(parse_fixed(&b"10000000".to_vec()), None);
}

#[test]
fn data_record_two_fields() {
    let sample = handle_line_plot(&fields_of(b"0,1")).unwrap();
    assert_eq!(sample.x, 0);
    assert_eq!(sample.values, vec![1_000_000]);
}

#[test]
fn unparsable_middle_field_is_dropped() {
    // "1,a,3": the bad middle field vanishes, so 3.0 lands on series 0.
    let sample = handle_line_plot(&fields_of(b"1,a,3")).unwrap();
    assert_eq!(sample.x, 1_000_000);
    assert_eq!(sample.values, vec![3_000_000]);
}

#[test]
fn unparsable_first_field_discards_line() {
    assert!(handle_line_plot(&fields_of(b"a,3")).is_none());
}

#[test]
fn single_field_line_is_ignored() {
    let fields = fields_of(b"5");
    assert!(handle_save_command(&fields).is_none());
    assert!(handle_line_plot(&fields).is_none());
    assert!(matches!(parse_record(&b"5".to_vec()), Record::Ignored));
}

#[test]
fn save_line_yields_command() {
    let fields = fields_of(b"!save,/tmp/out.png");
    match handle_save_command(&fields) {
        Some(Command::Save(path)) => assert_eq!(path, b"/tmp/out.png".to_vec()),
        None => panic!("save line not recognized"),
    }
}

#[test]
fn save_needs_exactly_two_fields() {
    assert!(handle_save_command(&fields_of(b"!save")).is_none());
    assert!(handle_save_command(&fields_of(b"!save,a,b")).is_none());
    assert!(matches!(parse_record(&b"!save".to_vec()), Record::Ignored));
}

#[test]
fn record_routing() {
    assert!(matches!(parse_record(&b"!save,x.png".to_vec()), Record::Control(_)));
    match parse_record(&b"2,7".to_vec()) {
        Record::Data(sample) => {
            assert_eq!(sample.x, 2_000_000);
            assert_eq!(sample.values, vec![7_000_000]);
        }
        _ => panic!("data line not recognized"),
    }
    assert!(matches!(parse_record(&b"nonsense".to_vec()), Record::Ignored));
}

#[test]
fn format_two_decimals() {
    assert_eq!(format_fixed2(0), b"0.00".to_vec());
    assert_eq!(format_fixed2(1_000_000), b"1.00".to_vec());
    assert_eq!(format_fixed2(-1_500_000), b"-1.50".to_vec());
    assert_eq!(format_fixed2(12_340_000), b"12.34".to_vec());
    assert_eq!(format_fixed2(-10_000), b"-0.01".to_vec());
}

#[test]
fn format_rounds_halves_to_even() {
    assert_eq!(format_fixed2(125_000), b"0.12".to_vec());
    assert_eq!(format_fixed2(135_000), b"0.14".to_vec());
    assert_eq!(format_fixed2(5_000), b"0.00".to_vec());
    assert_eq!(format_fixed2(15_000), b"0.02".to_vec());
    assert_eq!(format_fixed2(15_001), b"0.02".to_vec());
}
