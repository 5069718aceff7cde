use lis::args::{Args, ArgsError, Flag, Format, ValueOption};
use lis::entry::SortBy;

#[test]
fn test_args_default() {
    let args = Args::try_parse_from(&["lis"]).unwrap();
    assert_eq!(args.path, ".");
    assert_eq!(args.sort, SortBy::Name);
    assert!(!args.reverse);
    assert!(!args.long);
    assert!(!args.all);
    assert!(!args.whole_all);
    assert_eq!(args.format, Format::Plain);
}

#[test]
fn test_args_custom() {
    let args = Args::try_parse_from(&[
        "lis", "src", "--sort", "size", "-r", "-l", "-a", "--icon", "--format", "json", "-R",
    ])
    .unwrap();
    assert_eq!(args.path, "src");
    assert_eq!(args.sort, SortBy::Size);
    assert!(args.reverse);
    assert!(args.long);
    assert!(args.all);
    assert!(args.icon);
    assert_eq!(args.format, Format::Json);
    assert!(args.recursive);
}

#[test]
fn args_grouped_and_inline_values() {
    let args = Args::try_parse_from(&["lis", "-rlA", "--sort=extension", "--format=yaml", "--quote"]).unwrap();
    assert!(args.reverse && args.long && args.whole_all && args.quote);
    assert!(!args.all && !args.recursive && !args.icon);
    assert_eq!(args.sort, SortBy::Extension);
    assert_eq!(args.format, Format::Yaml);
    assert_eq!(args.path, ".");
}

#[test]
fn args_after_double_dash_are_paths() {
    let args = Args::try_parse_from(&["lis", "--", "-r"]).unwrap();
    assert_eq!(args.path, "-r");
    assert!(!args.reverse);
    let args = Args::try_parse_from(&["lis", "-"]).unwrap();
    assert_eq!(args.path, "-");
}

#[test]
fn args_errors() {
    assert!(matches!(Args::try_parse_from(&["lis", "--help"]), Err(ArgsError::DisplayHelp)));
    assert!(matches!(Args::try_parse_from(&["lis", "-h"]), Err(ArgsError::DisplayHelp)));
    assert!(matches!(Args::try_parse_from(&["lis", "-V"]), Err(ArgsError::DisplayVersion)));
    assert!(matches!(Args::try_parse_from(&["lis", "--bogus"]), Err(ArgsError::UnknownArgument(s)) if s == "--bogus"));
    assert!(matches!(Args::try_parse_from(&["lis", "-rx"]), Err(ArgsError::UnknownArgument(s)) if s == "-x"));
    assert!(matches!(Args::try_parse_from(&["lis", ""]), Err(ArgsError::EmptyPath)));
    assert!(matches!(Args::try_parse_from(&["lis", "--", ""]), Err(ArgsError::EmptyPath)));
    assert!(matches!(Args::try_parse_from(&["lis", "a", ""]), Err(ArgsError::UnexpectedArgument(s)) if s == ""));
    assert!(matches!(Args::try_parse_from(&["lis", "a", "b"]), Err(ArgsError::UnexpectedArgument(s)) if s == "b"));
    assert!(matches!(Args::try_parse_from(&["lis", "-r", "--reverse"]), Err(ArgsError::RepeatedFlag(Flag::Reverse))));
    assert!(matches!(
        Args::try_parse_from(&["lis", "--sort", "name", "--sort=size"]),
        Err(ArgsError::RepeatedOption(ValueOption::Sort))
    ));
    assert!(matches!(Args::try_parse_from(&["lis", "--sort"]), Err(ArgsError::MissingValue(ValueOption::Sort))));
    assert!(matches!(
        Args::try_parse_from(&["lis", "--format", "-l"]),
        Err(ArgsError::MissingValue(ValueOption::Format))
    ));
    assert!(matches!(
        Args::try_parse_from(&["lis", "--format", "xml"]),
        Err(ArgsError::InvalidValue(ValueOption::Format, v)) if v == "xml"
    ));
    assert!(matches!(
        Args::try_parse_from(&["lis", "--sort", "Name"]),
        Err(ArgsError::InvalidValue(ValueOption::Sort, v)) if v == "Name"
    ));
    assert!(matches!(
        Args::try_parse_from(&["lis", "--long=yes"]),
        Err(ArgsError::UnexpectedValue(Flag::Long, v)) if v == "yes"
    ));
}
