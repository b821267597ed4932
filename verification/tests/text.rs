use std::num::IntErrorKind;
use std::time::Duration;

use with_daemon::config::{fault_of, parse_timeout_duration, Field, NumberFault};
use with_daemon::output::{loads_line, output_line, sum_loads};
use with_daemon::text::{prefixed, same_text, split};

fn parse(text: &str) -> Result<f32, String> {
    text.parse::<f32>().map_err(|e| e.to_string())
}

fn field(text: &str) -> Result<Field<f32>, String> {
    Field::from_str(text, parse)
}

fn texts(parts: &[&str]) -> Vec<String> {
    parts.iter().map(|part| part.to_string()).collect()
}

#[test]
fn texts_are_split_at_every_separator() {
    assert_eq!(split("a:b::c", ':'), texts(&["a", "b", "", "c"]));
    assert_eq!(split("", ':'), texts(&[""]));
    assert_eq!(split(":", ':'), texts(&["", ""]));
    assert_eq!(split("äö:ü", ':'), texts(&["äö", "ü"]));
}

#[test]
fn texts_are_compared_and_prefixed() {
    assert!(same_text("sum", "sum"));
    assert!(!same_text("sum", "Sum"));
    assert_eq!(prefixed("a: ", "b"), "a: b");
}

#[test]
fn fields_without_arguments() {
    assert!(matches!(field("sum"), Ok(Field::Sum)));
    assert!(matches!(field("all_loads"), Ok(Field::AllLoads)));
    assert!(matches!(field("sum:ignored"), Ok(Field::Sum)));
}

#[test]
fn field_with_threshold() {
    match field("if_greater:0.5:busy:idle") {
        Ok(Field::IfGreater { value, then, otherwise }) => {
            assert_eq!(value, 0.5);
            assert_eq!(then, "busy");
            assert_eq!(otherwise, Some("idle".to_owned()));
        }
        other => panic!("unexpected {:?}", other),
    }
}

#[test]
fn field_with_threshold_and_one_text() {
    match field("if_greater:2:busy") {
        Ok(Field::IfGreater { value, then, otherwise }) => {
            assert_eq!(value, 2.0);
            assert_eq!(then, "busy");
            assert_eq!(otherwise, None);
        }
        other => panic!("unexpected {:?}", other),
    }
}

#[test]
fn further_tokens_of_a_field_do_not_count() {
    match field("if_greater:2:a:b:c") {
        Ok(Field::IfGreater { otherwise, .. }) => assert_eq!(otherwise, Some("b".to_owned())),
        other => panic!("unexpected {:?}", other),
    }
}

#[test]
fn field_errors() {
    assert_eq!(field("").unwrap_err(), "missing field name");
    assert_eq!(field(":sum").unwrap_err(), "missing field name");
    assert_eq!(field("if_greater").unwrap_err(), "missing value");
    assert_eq!(field("if_greater:1").unwrap_err(), "missing then-clause");
    assert_eq!(field("mean").unwrap_err(), "unknown field mean");
    assert_eq!(
        field("if_greater:x:y").unwrap_err(),
        "wrong value: invalid float literal"
    );
    assert_eq!(
        field("if_greater::y").unwrap_err(),
        "wrong value: cannot parse float from empty string"
    );
}

#[test]
fn wrong_value_goes_before_missing_clause() {
    assert_eq!(
        field("if_greater:x").unwrap_err(),
        "wrong value: invalid float literal"
    );
}

#[test]
fn timeout_is_given_in_whole_seconds() {
    assert_eq!(parse_timeout_duration("90"), Ok(Duration::from_secs(90)));
    assert_eq!(parse_timeout_duration("+7"), Ok(Duration::from_secs(7)));
    assert_eq!(parse_timeout_duration("007"), Ok(Duration::from_secs(7)));
    assert_eq!(parse_timeout_duration("90").unwrap().as_millis(), 90_000);
    assert_eq!(
        parse_timeout_duration("18446744073709551615"),
        Ok(Duration::from_secs(u64::MAX))
    );
}

#[test]
fn timeout_must_be_a_number_that_fits() {
    for text in ["", "+", "-1", "1.5", "1s", " 1", "++1", "18446744073709551616"] {
        assert!(parse_timeout_duration(text).is_err(), "{}", text);
    }
}

#[test]
fn timeout_errors_tell_what_is_wrong() {
    let error = parse_timeout_duration("").unwrap_err();
    assert_eq!(*error.kind(), IntErrorKind::Empty);
    assert_eq!(fault_of(&error), NumberFault::Empty);
    for text in ["18446744073709551616", "+99999999999999999999999"] {
        let error = parse_timeout_duration(text).unwrap_err();
        assert_eq!(*error.kind(), IntErrorKind::PosOverflow);
        assert_eq!(fault_of(&error), NumberFault::PosOverflow);
    }
    for text in ["+", "-", "-1", "1.5", "9s", " 1", "++1", "é", "999999999999999999x"] {
        let error = parse_timeout_duration(text).unwrap_err();
        assert_eq!(*error.kind(), IntErrorKind::InvalidDigit, "{}", text);
        assert_eq!(fault_of(&error), NumberFault::InvalidDigit);
    }
}

#[test]
fn faults_of_other_numbers() {
    let error = "-129".parse::<i8>().unwrap_err();
    assert_eq!(fault_of(&error), NumberFault::NegOverflow);
    let error = "0".parse::<std::num::NonZeroU8>().unwrap_err();
    assert_eq!(fault_of(&error), NumberFault::Zero);
}

#[test]
fn missing_loads_count_as_nothing() {
    let start: f32 = std::iter::empty::<f32>().sum();
    assert_eq!(sum_loads(&vec![Some(0.25), None, Some(0.5)], 0.0, start), 0.75);
    assert_eq!(sum_loads(&Vec::<Option<u64>>::new(), 0, 5), 5);
    assert_eq!(sum_loads(&vec![None, Some(3u64)], 1, 5), 9);
}

fn line(fields: &[&str], loads: &[f32]) -> String {
    let fields: Vec<Field<f32>> = fields.iter().map(|text| field(text).unwrap()).collect();
    loads_line(
        &fields,
        &loads.to_vec(),
        0.0,
        std::iter::empty::<f32>().sum(),
        |load: f32| !load.is_nan(),
        |load: f32| load.to_string(),
        |sum: f32, value: f32| sum > value,
    )
}

#[test]
fn default_fields_print_the_sum_and_every_load() {
    assert_eq!(line(&["sum", "all_loads"], &[0.5, 0.25]), "0.75 0.5 0.25");
}

#[test]
fn load_that_is_not_known_is_printed_but_not_counted() {
    assert_eq!(line(&["sum", "all_loads"], &[0.5, f32::NAN]), "0.5 0.5 NaN");
}

#[test]
fn threshold_decides_which_text_is_printed() {
    assert_eq!(line(&["if_greater:0.5:busy:idle"], &[0.75]), "busy");
    assert_eq!(line(&["if_greater:0.5:busy:idle"], &[0.5]), "idle");
    assert_eq!(line(&["if_greater:0.5:busy"], &[0.25]), "");
}

#[test]
fn empty_field_keeps_its_place() {
    assert_eq!(line(&["if_greater:9:busy", "sum"], &[0.5]), " 0.5");
    assert_eq!(line(&["sum", "if_greater:9:busy", "sum"], &[0.5]), "0.5  0.5");
    assert_eq!(line(&[], &[0.5]), "");
}

#[test]
fn line_is_put_together_from_what_was_decided() {
    let fields = vec![
        field("if_greater:1:a:b").unwrap(),
        field("sum").unwrap(),
        field("if_greater:1:c:d").unwrap(),
        field("all_loads").unwrap(),
    ];
    assert_eq!(
        output_line(&fields, "9", &texts(&["4", "5"]), &vec![true, false, false, false]),
        "a 9 d 4 5"
    );
}

#[test]
fn line_is_about_the_loads_that_are_given() {
    let fields: Vec<Field<u64>> = vec![
        Field::Sum,
        Field::AllLoads,
        Field::IfGreater { value: 9, then: "hi".to_owned(), otherwise: Some("lo".to_owned()) },
    ];
    let print = |loads: Vec<u64>| -> String {
        loads_line(
            &fields,
            &loads,
            0,
            1,
            |load: u64| load != 7,
            |load: u64| format!("<{}>", load),
            |sum: u64, value: u64| sum > value,
        )
    };
    assert_eq!(print(vec![2, 7, 5]), "<8> <2> <7> <5> lo");
    assert_eq!(print(vec![4, 5]), "<10> <4> <5> hi");
}

#[test]
fn text_of_single_fields() {
    let loads = texts(&["1", "2", "3"]);
    assert_eq!(Field::<u64>::Sum.text("6", &loads, false), "6");
    assert_eq!(Field::<u64>::AllLoads.text("6", &loads, true), "1 2 3");
    assert_eq!(Field::<u64>::AllLoads.text("0", &Vec::new(), false), "");
}

#[test]
fn if_greater_takes_what_was_read() {
    let read: Result<Field<u64>, String> =
        Field::if_greater(Err("odd".to_owned()), None, None);
    assert_eq!(read.unwrap_err(), "wrong value: odd");
    let read: Result<Field<u64>, String> = Field::if_greater(Ok(4), None, Some("x".to_owned()));
    assert_eq!(read.unwrap_err(), "missing then-clause");
    assert!(matches!(
        Field::if_greater(Ok(4), Some("t".to_owned()), None),
        Ok(Field::IfGreater { value: 4, .. })
    ));
}
