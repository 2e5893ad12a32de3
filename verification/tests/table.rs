use snap_cli::app::AppError;
use snap_cli::command::Matches;
use snap_cli::text::{parse_i32, same_text};

fn table_of(pairs: &[(&str, &str)]) -> Matches {
    let mut matches = Matches::new();
    for (key, value) in pairs {
        matches.insert(key, value.to_string());
    }
    matches
}

#[test]
fn new_table_is_empty() {
    let matches = Matches::new();
    assert_eq!(matches.args.len(), 0);
    assert_eq!(matches.value_of("anything"), None);
    assert!(!matches.is_present("anything"));
    assert!(!matches.contains("anything"));
}

#[test]
fn insert_binds_and_replaces() {
    let mut matches = Matches::new();
    matches.insert("k", "one".to_string());
    assert_eq!(matches.value_of("k"), Some(&"one".to_string()));
    matches.insert("k", "two".to_string());
    assert_eq!(matches.value_of("k"), Some(&"two".to_string()));
    assert_eq!(matches.args.len(), 1);
    matches.insert("other", "three".to_string());
    assert_eq!(matches.value_of("k"), Some(&"two".to_string()));
    assert_eq!(matches.value_of("other"), Some(&"three".to_string()));
}

#[test]
fn presence_is_reported_alike_by_both_checks() {
    let matches = table_of(&[("here", "")]);
    assert!(matches.is_present("here"));
    assert!(matches.contains("here"));
    assert!(!matches.is_present("her"));
    assert!(!matches.contains("here "));
}

#[test]
fn get_fails_loudly_on_an_absent_key() {
    let matches = table_of(&[("name", "ada")]);
    assert_eq!(matches.get("name").unwrap(), "ada");
    let err = matches.get("age").unwrap_err();
    assert!(matches!(err, AppError::MissingValue(ref key) if key == "age"));
}

#[test]
fn value_of_str_copies_the_value() {
    let matches = table_of(&[("name", "ada")]);
    assert_eq!(matches.value_of_str("name").unwrap(), "ada".to_string());
    let err = matches.value_of_str("age").unwrap_err();
    assert!(matches!(err, AppError::MissingValue(ref key) if key == "age"));
}

#[test]
fn value_of_int_reads_base_ten() {
    let matches = table_of(&[
        ("a", "3"),
        ("b", "-17"),
        ("c", "+42"),
        ("d", "007"),
        ("e", "0"),
        ("f", "-0"),
        ("max", "2147483647"),
        ("min", "-2147483648"),
    ]);
    assert_eq!(matches.value_of_int("a").unwrap(), 3);
    assert_eq!(matches.value_of_int("b").unwrap(), -17);
    assert_eq!(matches.value_of_int("c").unwrap(), 42);
    assert_eq!(matches.value_of_int("d").unwrap(), 7);
    assert_eq!(matches.value_of_int("e").unwrap(), 0);
    assert_eq!(matches.value_of_int("f").unwrap(), 0);
    assert_eq!(matches.value_of_int("max").unwrap(), i32::MAX);
    assert_eq!(matches.value_of_int("min").unwrap(), i32::MIN);
}

#[test]
fn value_of_int_tells_invalid_from_missing() {
    let matches = table_of(&[("word", "abc"), ("flag", "true")]);
    let err = matches.value_of_int("word").unwrap_err();
    assert!(matches!(err, AppError::InvalidValue(ref key) if key == "word"));
    let err = matches.value_of_int("flag").unwrap_err();
    assert!(matches!(err, AppError::InvalidValue(ref key) if key == "flag"));
    let err = matches.value_of_int("none").unwrap_err();
    assert!(matches!(err, AppError::MissingValue(ref key) if key == "none"));
}

#[test]
fn value_of_int_rejects_what_is_no_integer_in_range() {
    for text in [
        "", "-", "+", "--1", "+-1", "1-", "1 ", " 1", "1.0", "1e3", "0x10", "1_000", "２", "١٢",
        "2147483648", "-2147483649", "99999999999999999999999999", "12a", "a12", "é",
    ] {
        let matches = table_of(&[("n", text)]);
        let err = matches.value_of_int("n").unwrap_err();
        assert!(matches!(err, AppError::InvalidValue(ref key) if key == "n"), "{:?}", text);
    }
}

#[test]
fn parse_i32_agrees_with_the_standard_reading() {
    for text in [
        "0", "1", "-1", "+1", "10", "0010", "-0010", "2147483647", "2147483648", "-2147483648",
        "-2147483649", "4294967296", "", "+", "-", "12x", "x12", "1-2", "９",
        "00000000000000000001",
        "-00000000000002147483648", "21474836470",
    ] {
        assert_eq!(parse_i32(text), text.parse::<i32>().ok(), "{:?}", text);
    }
    for number in [0, 1, -1, 9, 10, -10, 12345, -98765, i32::MAX, i32::MIN, i32::MAX - 1] {
        assert_eq!(parse_i32(&number.to_string()), Some(number));
    }
}

#[test]
fn same_text_compares_by_content() {
    assert!(same_text("", ""));
    assert!(same_text("alpha", "alpha"));
    assert!(same_text("größe", "größe"));
    assert!(!same_text("alpha", "alph"));
    assert!(!same_text("alpha", "alphb"));
    assert!(!same_text("a", "A"));
    assert!(!same_text("", " "));
}

#[test]
fn merge_prefers_the_table_merged_in() {
    let mut outer = table_of(&[("verbose", "true"), ("level", "1")]);
    let inner = table_of(&[("verbose", "loud"), ("name", "ada")]);
    outer.merge(inner);
    assert_eq!(outer.value_of("verbose"), Some(&"loud".to_string()));
    assert_eq!(outer.value_of("level"), Some(&"1".to_string()));
    assert_eq!(outer.value_of("name"), Some(&"ada".to_string()));
    assert_eq!(outer.args.len(), 3);
}

#[test]
fn merge_with_an_empty_table_changes_nothing() {
    let mut outer = table_of(&[("a", "1")]);
    outer.merge(Matches::new());
    assert_eq!(outer.value_of("a"), Some(&"1".to_string()));
    assert_eq!(outer.args.len(), 1);
    let mut empty = Matches::new();
    empty.merge(table_of(&[("b", "2")]));
    assert_eq!(empty.value_of("b"), Some(&"2".to_string()));
    assert_eq!(empty.args.len(), 1);
}

#[test]
fn every_error_has_its_message() {
    assert_eq!(AppError::NoArguments.message(), "No arguments provided.");
    assert_eq!(AppError::UnknownCommand("go".to_string()).message(), "Unknown command: go");
    assert_eq!(
        AppError::MissingValue("level".to_string()).message(),
        "Missing value for argument: level"
    );
    assert_eq!(
        AppError::InvalidValue("level".to_string()).message(),
        "Invalid value for argument: level"
    );
    assert_eq!(AppError::UnknownArgument("z".to_string()).message(), "Unknown argument: z");
    assert_eq!(
        AppError::UnexpectedArgument("two".to_string()).message(),
        "Unexpected argument: two"
    );
    assert_eq!(AppError::UnknownArgument(String::new()).message(), "Unknown argument: ");
}
