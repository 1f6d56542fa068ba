use std::ops::Range;
use std::path::PathBuf;

use flager::{Flag, FlagError, NArgs, Parser};
use flager::try_parse::TryParse;

fn store(tokens: &[&str]) -> Parser {
    Parser::new(tokens.iter().map(|t| t.to_string()).collect())
}

#[test]
fn range_flag_single_value() {
    // A range flag picks the token right after its occurrence and reads it
    // as a range literal.
    let parser = store(&["-f", "420", "69", "-r", "555..1024", "-m", "urmom"]);
    let flag = Flag::<Range<usize>>::new("-r", "--range", None);
    assert_eq!(parser.parse(&flag), Ok(Some(555..1024)));
}

#[test]
fn remainder_takes_everything_after_the_flag() {
    // Remainder on a text flag returns every trailing token verbatim, even
    // ones that look like other flags.
    let parser = store(&["-f", "420", "69", "-r", "555..1024", "-m", "urmom"]);
    let flag = Flag::<String>::new("-r", "--range", None);
    assert_eq!(
        parser.parse_many(&flag, NArgs::Remainder),
        Ok(Some(vec![
            "555..1024".to_string(),
            "-m".to_string(),
            "urmom".to_string()
        ]))
    );
}

#[test]
fn smart_remainder_stops_at_first_unconvertible_token() {
    // SmartRemainder on an integer flag collects until a token no longer
    // reads as an integer: "555..1024" is a range, not an integer.
    let parser = store(&["-f", "420", "69", "555..1024", "rakivo"]);
    let flag = Flag::<i32>::new("-f", "--flag", None);
    assert_eq!(
        parser.parse_many(&flag, NArgs::SmartRemainder),
        Ok(Some(vec![420, 69]))
    );
}

#[test]
fn smart_remainder_on_text_never_stops() {
    // Text converts always, so SmartRemainder on a text flag equals
    // Remainder.
    let parser = store(&["-f", "420", "-m", "urmom"]);
    let flag = Flag::<String>::new("-f", "--flag", None);
    assert_eq!(
        parser.parse_many(&flag, NArgs::SmartRemainder),
        Ok(Some(vec![
            "420".to_string(),
            "-m".to_string(),
            "urmom".to_string()
        ]))
    );
}

#[test]
fn count_takes_exactly_n_tokens() {
    let parser = store(&["-f", "420", "69", "1024", "777", "2048"]);
    let flag = Flag::<i32>::new("-f", "--flag", None);
    assert_eq!(
        parser.parse_many(&flag, NArgs::Count(3)),
        Ok(Some(vec![420, 69, 1024]))
    );
}

#[test]
fn count_is_capped_by_what_trails_the_flag() {
    let parser = store(&["-f", "420", "69"]);
    let flag = Flag::<i32>::new("-f", "--flag", None);
    assert_eq!(
        parser.parse_many(&flag, NArgs::Count(5)),
        Ok(Some(vec![420, 69]))
    );
}

#[test]
fn count_zero_takes_nothing_but_is_not_absence() {
    // With tokens trailing the flag, Count(0) captures an empty sequence;
    // absence is reserved for a flag that trails nothing.
    let parser = store(&["-f", "420"]);
    let flag = Flag::<i32>::new("-f", "--flag", None);
    assert_eq!(parser.parse_many(&flag, NArgs::Count(0)), Ok(Some(vec![])));
}

#[test]
fn missing_mandatory_flag_is_the_mandatory_error() {
    let parser = store(&["-x", "1"]);
    let flag = Flag::<i32>::new("-f", "--flag", None).mandatory();
    assert_eq!(
        parser.parse(&flag),
        Err(FlagError::MissingFlag {
            short: "-f".to_string(),
            long: "--flag".to_string()
        })
    );
}

#[test]
fn missing_mandatory_flag_fails_before_conversion_would() {
    // Even a store whose trailing token could never convert reports the
    // mandatory error, not a conversion error.
    let parser = store(&["-x", "notanumber"]);
    let flag = Flag::<i32>::new("-f", "--flag", None).mandatory();
    assert!(matches!(
        parser.parse(&flag),
        Err(FlagError::MissingFlag { .. })
    ));
    assert!(matches!(
        parser.parse_many(&flag, NArgs::Remainder),
        Err(FlagError::MissingFlag { .. })
    ));
}

#[test]
fn unconvertible_single_token_is_the_integer_error() {
    let parser = store(&["-f", "abc"]);
    let flag = Flag::<i32>::new("-f", "--flag", None);
    assert_eq!(
        parser.parse(&flag),
        Err(FlagError::BadInt {
            token: "abc".to_string()
        })
    );
}

#[test]
fn unconvertible_token_inside_count_is_fatal() {
    let parser = store(&["-f", "1", "x", "3"]);
    let flag = Flag::<i32>::new("-f", "--flag", None);
    assert_eq!(
        parser.parse_many(&flag, NArgs::Count(3)),
        Err(FlagError::BadInt {
            token: "x".to_string()
        })
    );
}

#[test]
fn malformed_range_is_the_range_error() {
    let parser = store(&["-r", "69"]);
    let flag = Flag::<Range<i32>>::new("-r", "--range", None);
    assert_eq!(
        parser.parse(&flag),
        Err(FlagError::BadRange {
            token: "69".to_string()
        })
    );
    let parser = store(&["-r", "a..5"]);
    assert_eq!(
        parser.parse(&flag),
        Err(FlagError::BadRange {
            token: "a..5".to_string()
        })
    );
    let parser = store(&["-r", "1..2..3"]);
    assert_eq!(
        parser.parse(&flag),
        Err(FlagError::BadRange {
            token: "1..2..3".to_string()
        })
    );
}

#[test]
fn absent_optional_flag_is_absence_not_an_error() {
    let parser = store(&["-x", "1"]);
    let flag = Flag::<i32>::new("-f", "--flag", None);
    assert_eq!(parser.parse(&flag), Ok(None));
    assert_eq!(parser.parse_many(&flag, NArgs::Remainder), Ok(None));
}

#[test]
fn flag_trailing_nothing_is_absence() {
    let parser = store(&["-x", "1", "-f"]);
    let flag = Flag::<i32>::new("-f", "--flag", None);
    assert_eq!(parser.parse(&flag), Ok(None));
    assert_eq!(parser.parse_many(&flag, NArgs::Remainder), Ok(None));
}

#[test]
fn resolution_is_idempotent() {
    // Nothing is consumed: the same descriptor resolves to the same result
    // as often as asked.
    let parser = store(&["-f", "420", "69"]);
    let flag = Flag::<i32>::new("-f", "--flag", None);
    let first = parser.parse(&flag);
    let second = parser.parse(&flag);
    assert_eq!(first, second);
    assert_eq!(first, Ok(Some(420)));
    let many_first = parser.parse_many(&flag, NArgs::Remainder);
    let many_second = parser.parse_many(&flag, NArgs::Remainder);
    assert_eq!(many_first, many_second);
}

#[test]
fn single_resolution_reads_after_the_first_occurrence() {
    let parser = store(&["-f", "1", "-f", "2", "3"]);
    let flag = Flag::<i32>::new("-f", "--flag", None);
    assert_eq!(parser.parse(&flag), Ok(Some(1)));
}

#[test]
fn multi_resolution_reads_after_the_last_occurrence() {
    let parser = store(&["-f", "1", "-f", "2", "3"]);
    let flag = Flag::<i32>::new("-f", "--flag", None);
    assert_eq!(
        parser.parse_many(&flag, NArgs::Remainder),
        Ok(Some(vec![2, 3]))
    );
}

#[test]
fn long_identifier_matches_too() {
    let parser = store(&["--flag", "7"]);
    let flag = Flag::<u64>::new("-f", "--flag", None);
    assert_eq!(parser.parse(&flag), Ok(Some(7)));
    assert!(parser.passed(&flag));
}

#[test]
fn presence_check_is_exact_match_only() {
    let parser = store(&["--flagged", "-fx"]);
    let flag = Flag::<bool>::new("-f", "--flag", None);
    assert!(!parser.passed(&flag));
}

#[test]
fn bool_flag_value_is_its_presence() {
    let present = store(&["-v"]);
    let absent = store(&["-x"]);
    let flag = Flag::<bool>::new("-v", "--verbose", None);
    assert_eq!(present.parse(&flag), Ok(Some(true)));
    assert_eq!(absent.parse(&flag), Ok(Some(false)));
    assert_eq!(
        present.parse_many(&flag, NArgs::Remainder),
        Ok(Some(vec![true]))
    );
}

#[test]
fn path_flag_wraps_the_token_as_a_path() {
    let parser = store(&["-p", "some/dir/file.txt"]);
    let flag = Flag::<PathBuf>::new("-p", "--path", None);
    assert_eq!(
        parser.parse(&flag),
        Ok(Some(PathBuf::from("some/dir/file.txt")))
    );
}

#[test]
fn path_flag_collects_many_paths() {
    let parser = store(&["-p", "a/b", "c"]);
    let flag = Flag::<PathBuf>::new("-p", "--path", None);
    assert_eq!(
        parser.parse_many(&flag, NArgs::Remainder),
        Ok(Some(vec![PathBuf::from("a/b"), PathBuf::from("c")]))
    );
}

#[test]
fn default_answers_absence() {
    let parser = store(&["-x", "1"]);
    let flag = Flag::<i32>::new("-f", "--flag", None).default(34);
    assert_eq!(parser.parse_or_default(&flag), Ok(34));
}

#[test]
fn type_default_answers_absence_without_a_fallback() {
    let parser = store(&["-x", "1"]);
    let int_flag = Flag::<i32>::new("-f", "--flag", None);
    assert_eq!(parser.parse_or_default(&int_flag), Ok(0));
    let text_flag = Flag::<String>::new("-m", "--mom", None);
    assert_eq!(parser.parse_or_default(&text_flag), Ok(String::new()));
}

#[test]
fn present_flag_wins_over_the_default() {
    let parser = store(&["-f", "7"]);
    let flag = Flag::<i32>::new("-f", "--flag", None).default(34);
    assert_eq!(parser.parse_or_default(&flag), Ok(7));
}

#[test]
fn default_does_not_mask_a_conversion_error() {
    let parser = store(&["-f", "abc"]);
    let flag = Flag::<i32>::new("-f", "--flag", None).default(34);
    assert_eq!(
        parser.parse_or_default(&flag),
        Err(FlagError::BadInt {
            token: "abc".to_string()
        })
    );
}

#[test]
fn builders_chain_and_borrowing_builders_mutate() {
    let parser = store(&["-f", "5"]);
    let chained = Flag::<i32>::new("-f", "--flag", None)
        .mandatory()
        .help("a flag")
        .default(1);
    assert_eq!(parser.parse(&chained), Ok(Some(5)));

    let mut borrowed = Flag::<i32>::new("-f", "--flag", None);
    borrowed.mandatory_borrow();
    borrowed.help_borrow("a flag");
    borrowed.default_borrow(1);
    assert_eq!(parser.parse(&borrowed), Ok(Some(5)));
    let empty = store(&[]);
    assert!(matches!(
        empty.parse(&borrowed),
        Err(FlagError::MissingFlag { .. })
    ));
}

#[test]
fn flag_resolves_itself_against_a_store() {
    let parser = store(&["-f", "11"]);
    let flag = Flag::<i64>::new("-f", "--flag", None);
    assert_eq!(flag.parse(&parser), Ok(Some(11)));
}

#[test]
fn flag_parse_skips_the_mandatory_check() {
    // Resolving through the descriptor alone is the raw conversion
    // protocol: a missing mandatory flag is mere absence there.
    let parser = store(&["-x", "1"]);
    let flag = Flag::<i64>::new("-f", "--flag", None).mandatory();
    assert_eq!(flag.parse(&parser), Ok(None));
}

#[test]
fn unit_flag_always_reports_absence() {
    let parser = store(&["-f", "1"]);
    let flag = Flag::<()>::new("-f", "--flag", None);
    assert_eq!(parser.parse(&flag), Ok(None));
    assert_eq!(parser.parse_many(&flag, NArgs::Remainder), Ok(None));
}

#[test]
fn protocol_is_callable_directly() {
    // The trait is the extension point: its methods answer exactly as the
    // engine does, minus the mandatory check.
    let parser = store(&["-f", "9"]);
    let flag = Flag::<u8>::new("-f", "--flag", None);
    assert_eq!(<u8 as TryParse>::parse(&parser, &flag), Ok(Some(9)));
}

#[test]
fn narrowing_is_a_plain_numeric_cast() {
    // Widths narrower than the funnel truncate, as a numeric cast does.
    let parser = store(&["-f", "300"]);
    let flag = Flag::<u8>::new("-f", "--flag", None);
    assert_eq!(parser.parse(&flag), Ok(Some(44)));
}

#[test]
fn negative_values_reach_signed_widths() {
    let parser = store(&["-f", "-42"]);
    let flag = Flag::<i16>::new("-f", "--flag", None);
    assert_eq!(parser.parse(&flag), Ok(Some(-42)));
}

#[test]
fn range_flags_collect_many_ranges() {
    let parser = store(&["-r", "1..2", "3..4"]);
    let flag = Flag::<Range<u32>>::new("-r", "--range", None);
    assert_eq!(
        parser.parse_many(&flag, NArgs::Remainder),
        Ok(Some(vec![1..2, 3..4]))
    );
}

#[test]
fn smart_remainder_with_ranges_stops_at_a_non_range() {
    let parser = store(&["-r", "1..2", "5", "3..4"]);
    let flag = Flag::<Range<u32>>::new("-r", "--range", None);
    assert_eq!(
        parser.parse_many(&flag, NArgs::SmartRemainder),
        Ok(Some(vec![1..2]))
    );
}
