use snap_cli::app::AppError;
use snap_cli::arg::Arg;
use snap_cli::command::Matches;
use snap_cli::parser::parse_args;

fn words(list: &[&str]) -> Vec<String> {
    list.iter().map(|w| w.to_string()).collect()
}

fn resolved<'a>(schema: &[Arg<'a>], list: &[&str]) -> Result<Matches, AppError> {
    let mut matches = Matches::new();
    parse_args(schema, &words(list), &mut matches)?;
    Ok(matches)
}

fn refused<'a>(schema: &[Arg<'a>], list: &[&str]) -> AppError {
    match resolved(schema, list) {
        Ok(_) => panic!("the tokens were matched"),
        Err(e) => e,
    }
}

fn text_of(matches: &Matches, key: &str) -> Option<String> {
    matches.value_of(key).cloned()
}

#[test]
fn long_options_with_values_read_back() {
    let schema = vec![Arg::new("name"), Arg::new("level"), Arg::new("out").short("o")];
    let matches =
        resolved(&schema, &["--name", "ada", "--level", "3", "--out", "a.txt"]).unwrap();
    assert_eq!(text_of(&matches, "name"), Some("ada".to_string()));
    assert_eq!(text_of(&matches, "level"), Some("3".to_string()));
    assert_eq!(text_of(&matches, "out"), Some("a.txt".to_string()));
}

#[test]
fn long_option_supplied_again_keeps_the_later_value() {
    let schema = vec![Arg::new("name")];
    let matches = resolved(&schema, &["--name", "ada", "--name", "bob"]).unwrap();
    assert_eq!(text_of(&matches, "name"), Some("bob".to_string()));
}

#[test]
fn declared_valued_option_takes_the_next_token_whatever_it_looks_like() {
    let schema = vec![Arg::new("name"), Arg::new("verbose").is_flag(true)];
    let matches = resolved(&schema, &["--name", "--verbose"]).unwrap();
    assert_eq!(text_of(&matches, "name"), Some("--verbose".to_string()));
    assert!(!matches.is_present("verbose"));
    let matches = resolved(&schema, &["--name", "-v"]).unwrap();
    assert_eq!(text_of(&matches, "name"), Some("-v".to_string()));
}

#[test]
fn declared_flag_is_true_once_or_twice() {
    let schema = vec![Arg::new("verbose").is_flag(true)];
    let once = resolved(&schema, &["--verbose"]).unwrap();
    let twice = resolved(&schema, &["--verbose", "--verbose"]).unwrap();
    assert_eq!(text_of(&once, "verbose"), Some("true".to_string()));
    assert_eq!(text_of(&twice, "verbose"), Some("true".to_string()));
    assert_eq!(once.args.len(), 1);
    assert_eq!(twice.args.len(), 1);
}

#[test]
fn undeclared_flag_is_true_once_or_twice() {
    let schema: Vec<Arg> = Vec::new();
    let once = resolved(&schema, &["--verbose"]).unwrap();
    let twice = resolved(&schema, &["--verbose", "--verbose"]).unwrap();
    assert_eq!(text_of(&once, "verbose"), Some("true".to_string()));
    assert_eq!(text_of(&twice, "verbose"), Some("true".to_string()));
    assert_eq!(once.args.len(), 1);
    assert_eq!(twice.args.len(), 1);
}

#[test]
fn short_flag_is_true_once_or_twice() {
    let schema = vec![Arg::new("verbose").short("v").is_flag(true)];
    let once = resolved(&schema, &["-v"]).unwrap();
    let twice = resolved(&schema, &["-v", "-v"]).unwrap();
    assert_eq!(text_of(&once, "verbose"), Some("true".to_string()));
    assert_eq!(text_of(&twice, "verbose"), Some("true".to_string()));
    assert!(!once.is_present("v"));
    assert_eq!(twice.args.len(), 1);
}

#[test]
fn flag_does_not_take_the_next_token() {
    let schema = vec![
        Arg::new("verbose").is_flag(true),
        Arg::new("file").is_positional(true),
    ];
    let matches = resolved(&schema, &["--verbose", "notes.txt"]).unwrap();
    assert_eq!(text_of(&matches, "verbose"), Some("true".to_string()));
    assert_eq!(text_of(&matches, "file"), Some("notes.txt".to_string()));
}

#[test]
fn positional_default_is_backfilled() {
    let schema = vec![
        Arg::new("input").is_positional(true).default("in.txt"),
        Arg::new("output").is_positional(true),
    ];
    let matches = resolved(&schema, &[]).unwrap();
    assert_eq!(text_of(&matches, "input"), Some("in.txt".to_string()));
    assert_eq!(matches.value_of("output"), None);
    assert!(!matches.is_present("output"));
    let err = matches.get("output").unwrap_err();
    assert!(matches!(err, AppError::MissingValue(ref key) if key == "output"));
}

#[test]
fn positional_default_does_not_replace_a_bound_token() {
    let schema = vec![Arg::new("input").is_positional(true).default("in.txt")];
    let matches = resolved(&schema, &["other.txt"]).unwrap();
    assert_eq!(text_of(&matches, "input"), Some("other.txt".to_string()));
}

#[test]
fn positional_default_does_not_replace_an_earlier_binding() {
    let schema = vec![Arg::new("input").is_positional(true).default("in.txt")];
    let mut matches = Matches::new();
    matches.insert("input", "kept".to_string());
    parse_args(&schema, &words(&[]), &mut matches).unwrap();
    assert_eq!(text_of(&matches, "input"), Some("kept".to_string()));
}

#[test]
fn first_default_of_a_repeated_positional_name_wins() {
    let schema = vec![
        Arg::new("x").is_positional(true),
        Arg::new("x").is_positional(true).default("second"),
        Arg::new("x").is_positional(true).default("third"),
    ];
    let matches = resolved(&schema, &[]).unwrap();
    assert_eq!(text_of(&matches, "x"), Some("second".to_string()));
}

#[test]
fn default_of_a_valued_option_is_not_backfilled() {
    let schema = vec![Arg::new("level").default("1")];
    let matches = resolved(&schema, &[]).unwrap();
    assert!(!matches.is_present("level"));
}

#[test]
fn short_alias_is_keyed_by_canonical_name() {
    let schema = vec![Arg::new("alpha").short("a")];
    let matches = resolved(&schema, &["-a", "value"]).unwrap();
    assert_eq!(text_of(&matches, "alpha"), Some("value".to_string()));
    assert_eq!(matches.value_of("a"), None);
    assert!(!matches.contains("a"));
}

#[test]
fn unknown_short_alias_fails_regardless_of_trailing_tokens() {
    let schema = vec![Arg::new("alpha").short("a"), Arg::new("zeta")];
    for rest in [vec![], vec!["value"], vec!["--alpha", "1", "x"], vec!["-a", "1"]] {
        let mut list = vec!["-z"];
        list.extend(rest);
        let err = refused(&schema, &list);
        assert!(matches!(err, AppError::UnknownArgument(ref key) if key == "z"));
    }
}

#[test]
fn unknown_short_alias_fails_after_other_tokens_too() {
    let schema = vec![Arg::new("alpha").short("a")];
    let mut matches = Matches::new();
    let err = parse_args(&schema, &words(&["-a", "1", "-q"]), &mut matches).unwrap_err();
    assert!(matches!(err, AppError::UnknownArgument(ref key) if key == "q"));
    assert_eq!(text_of(&matches, "alpha"), Some("1".to_string()));
}

#[test]
fn short_alias_is_not_looked_up_by_name() {
    let schema = vec![Arg::new("a")];
    let err = refused(&schema, &["-a", "1"]);
    assert!(matches!(err, AppError::UnknownArgument(ref key) if key == "a"));
}

#[test]
fn lone_hyphen_is_a_short_option_with_an_empty_alias() {
    let schema = vec![Arg::new("alpha").short("a")];
    let err = refused(&schema, &["-"]);
    assert!(matches!(err, AppError::UnknownArgument(ref key) if key.is_empty()));
}

#[test]
fn second_bare_token_overflows_one_positional() {
    let schema = vec![Arg::new("file").is_positional(true)];
    let mut matches = Matches::new();
    let err = parse_args(&schema, &words(&["one", "two"]), &mut matches).unwrap_err();
    assert!(matches!(err, AppError::UnexpectedArgument(ref token) if token == "two"));
    assert_eq!(text_of(&matches, "file"), Some("one".to_string()));
}

#[test]
fn bare_token_without_positionals_is_unexpected() {
    let schema = vec![Arg::new("name")];
    let err = refused(&schema, &["stray"]);
    assert!(matches!(err, AppError::UnexpectedArgument(ref token) if token == "stray"));
}

#[test]
fn positionals_default_to_zero_or_take_tokens() {
    let schema = vec![
        Arg::new("a").is_positional(true).default("0"),
        Arg::new("b").is_positional(true).default("0"),
    ];
    let given = resolved(&schema, &["3", "4"]).unwrap();
    assert_eq!(given.value_of_int("a").unwrap(), 3);
    assert_eq!(given.value_of_int("b").unwrap(), 4);
    let defaulted = resolved(&schema, &[]).unwrap();
    assert_eq!(defaulted.value_of_int("a").unwrap(), 0);
    assert_eq!(defaulted.value_of_int("b").unwrap(), 0);
    let half = resolved(&schema, &["7"]).unwrap();
    assert_eq!(half.value_of_int("a").unwrap(), 7);
    assert_eq!(half.value_of_int("b").unwrap(), 0);
}

#[test]
fn valued_option_at_the_end_falls_back_to_its_default() {
    let schema = vec![Arg::new("level").short("l").default("1")];
    let long = resolved(&schema, &["--level"]).unwrap();
    assert_eq!(text_of(&long, "level"), Some("1".to_string()));
    let short = resolved(&schema, &["-l"]).unwrap();
    assert_eq!(text_of(&short, "level"), Some("1".to_string()));
}

#[test]
fn valued_option_at_the_end_without_default_misses_its_value() {
    let schema = vec![Arg::new("level").short("l")];
    let err = refused(&schema, &["--level"]);
    assert!(matches!(err, AppError::MissingValue(ref key) if key == "level"));
    let err = refused(&schema, &["-l"]);
    assert!(matches!(err, AppError::MissingValue(ref key) if key == "level"));
}

#[test]
fn undeclared_long_option_takes_a_following_value() {
    let schema: Vec<Arg> = Vec::new();
    let matches = resolved(&schema, &["--color", "red", "--size", "-3"]).unwrap();
    assert_eq!(text_of(&matches, "color"), Some("red".to_string()));
    assert_eq!(text_of(&matches, "size"), Some("-3".to_string()));
}

#[test]
fn undeclared_long_option_before_another_long_option_is_true() {
    let schema = vec![Arg::new("name")];
    let matches = resolved(&schema, &["--dry", "--name", "ada", "--force"]).unwrap();
    assert_eq!(text_of(&matches, "dry"), Some("true".to_string()));
    assert_eq!(text_of(&matches, "name"), Some("ada".to_string()));
    assert_eq!(text_of(&matches, "force"), Some("true".to_string()));
}

#[test]
fn long_option_is_not_looked_up_among_positionals() {
    let schema = vec![Arg::new("file").is_positional(true).is_flag(true)];
    let matches = resolved(&schema, &["--file", "--other"]).unwrap();
    assert_eq!(text_of(&matches, "file"), Some("true".to_string()));
    assert_eq!(text_of(&matches, "other"), Some("true".to_string()));
    let matches = resolved(&schema, &["--file", "x"]).unwrap();
    assert_eq!(text_of(&matches, "file"), Some("x".to_string()));
}

#[test]
fn two_hyphens_alone_are_a_long_option_with_an_empty_key() {
    let schema: Vec<Arg> = Vec::new();
    let matches = resolved(&schema, &["--", "rest"]).unwrap();
    assert_eq!(text_of(&matches, ""), Some("rest".to_string()));
}

#[test]
fn first_definition_of_a_repeated_name_is_used() {
    let schema = vec![Arg::new("mode").is_flag(true), Arg::new("mode")];
    let matches = resolved(&schema, &["--mode"]).unwrap();
    assert_eq!(text_of(&matches, "mode"), Some("true".to_string()));
}

#[test]
fn tokens_of_all_three_kinds_are_mixed() {
    let schema = vec![
        Arg::new("source").is_positional(true),
        Arg::new("verbose").short("v").is_flag(true),
        Arg::new("target").is_positional(true).default("out"),
        Arg::new("jobs").short("j").default("1"),
    ];
    let matches = resolved(&schema, &["-v", "src", "--jobs", "4", "--tag", "x", "dst"]).unwrap();
    assert_eq!(text_of(&matches, "verbose"), Some("true".to_string()));
    assert_eq!(text_of(&matches, "source"), Some("src".to_string()));
    assert_eq!(text_of(&matches, "jobs"), Some("4".to_string()));
    assert_eq!(text_of(&matches, "tag"), Some("x".to_string()));
    assert_eq!(text_of(&matches, "target"), Some("dst".to_string()));
    assert_eq!(matches.args.len(), 5);
}

#[test]
fn tokens_outside_ascii_are_handled_by_character() {
    let schema = vec![Arg::new("größe").short("ß"), Arg::new("名前").is_positional(true)];
    let matches = resolved(&schema, &["--größe", "groß", "山田", "-ß", "klein"]).unwrap();
    assert_eq!(text_of(&matches, "größe"), Some("klein".to_string()));
    assert_eq!(text_of(&matches, "名前"), Some("山田".to_string()));
}

#[test]
fn empty_token_is_bare() {
    let schema = vec![Arg::new("file").is_positional(true)];
    let matches = resolved(&schema, &[""]).unwrap();
    assert_eq!(text_of(&matches, "file"), Some(String::new()));
}

#[test]
fn failure_leaves_what_was_bound_before_it() {
    let schema = vec![Arg::new("name"), Arg::new("file").is_positional(true).default("d")];
    let mut matches = Matches::new();
    let err = parse_args(&schema, &words(&["--name", "ada", "f", "g"]), &mut matches).unwrap_err();
    assert!(matches!(err, AppError::UnexpectedArgument(ref token) if token == "g"));
    assert_eq!(text_of(&matches, "name"), Some("ada".to_string()));
    assert_eq!(text_of(&matches, "file"), Some("f".to_string()));
    let mut matches = Matches::new();
    let err = parse_args(&schema, &words(&["--name"]), &mut matches).unwrap_err();
    assert!(matches!(err, AppError::MissingValue(ref key) if key == "name"));
    assert!(!matches.is_present("file"));
    assert_eq!(matches.args.len(), 0);
}

#[test]
fn positional_flag_is_bound_to_its_token() {
    let schema = vec![Arg::new("mode").is_positional(true).is_flag(true)];
    let matches = resolved(&schema, &["fast"]).unwrap();
    assert_eq!(text_of(&matches, "mode"), Some("fast".to_string()));
}

#[test]
fn declared_order_does_not_matter_where_names_differ() {
    let forward = vec![
        Arg::new("name").short("n"),
        Arg::new("verbose").short("v").is_flag(true),
        Arg::new("level").short("l").default("1"),
    ];
    let backward = vec![
        Arg::new("level").short("l").default("1"),
        Arg::new("verbose").short("v").is_flag(true),
        Arg::new("name").short("n"),
    ];
    let list = ["-v", "--name", "ada", "-l"];
    let one = resolved(&forward, &list).unwrap();
    let other = resolved(&backward, &list).unwrap();
    for key in ["name", "verbose", "level"] {
        assert_eq!(text_of(&one, key), text_of(&other, key));
    }
    assert_eq!(text_of(&one, "name"), Some("ada".to_string()));
    assert_eq!(text_of(&one, "verbose"), Some("true".to_string()));
    assert_eq!(text_of(&one, "level"), Some("1".to_string()));
    assert_eq!(one.args.len(), 3);
    assert_eq!(other.args.len(), 3);
}

#[test]
fn long_options_never_fail_as_unknown() {
    let schema = vec![Arg::new("name")];
    let matches = resolved(&schema, &["--a", "--b", "x", "--c", "-y", "--d"]).unwrap();
    assert_eq!(text_of(&matches, "a"), Some("true".to_string()));
    assert_eq!(text_of(&matches, "b"), Some("x".to_string()));
    assert_eq!(text_of(&matches, "c"), Some("-y".to_string()));
    assert_eq!(text_of(&matches, "d"), Some("true".to_string()));
}
