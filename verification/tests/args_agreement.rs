use clap::builder::PathBufValueParser;
use clap::error::ErrorKind;
use std::path::PathBuf;
use clap::{Arg, ArgAction, ArgMatches, Command};
use lis::args::{Args, ArgsError, Format};
use lis::entry::SortBy;

/// The command line described with clap's builder, option for option.
fn command() -> Command {
    let flag = |id: &'static str| Arg::new(id).action(ArgAction::SetTrue);
    Command::new("lis")
        .version("0.0.10")
        .arg(
            Arg::new("path")
                .value_parser(PathBufValueParser::new())
                .default_value("."),
        )
        .arg(
            Arg::new("sort")
                .long("sort")
                .value_parser(["name", "time", "size", "extension"])
                .default_value("name"),
        )
        .arg(flag("reverse").short('r').long("reverse"))
        .arg(flag("long").short('l').long("long"))
        .arg(flag("all").short('a').long("all"))
        .arg(flag("whole_all").short('A').long("whole-all"))
        .arg(flag("quote").long("quote"))
        .arg(flag("icon").long("icon"))
        .arg(
            Arg::new("format")
                .long("format")
                .value_parser(["plain", "csv", "json", "yaml"])
                .default_value("plain"),
        )
        .arg(flag("recursive").short('R').long("recursive"))
        .arg(flag("completions").long("completions"))
}

fn sort_name(s: SortBy) -> &'static str {
    match s {
        SortBy::Name => "name",
        SortBy::Time => "time",
        SortBy::Size => "size",
        SortBy::Extension => "extension",
    }
}

fn format_name(f: Format) -> &'static str {
    match f {
        Format::Plain => "plain",
        Format::Csv => "csv",
        Format::Json => "json",
        Format::Yaml => "yaml",
    }
}

fn same_as_clap(args: &Args, m: &ArgMatches) -> bool {
    PathBuf::from(&args.path) == *m.get_one::<PathBuf>("path").unwrap()
        && sort_name(args.sort) == m.get_one::<String>("sort").unwrap()
        && format_name(args.format) == m.get_one::<String>("format").unwrap()
        && args.reverse == m.get_flag("reverse")
        && args.long == m.get_flag("long")
        && args.all == m.get_flag("all")
        && args.whole_all == m.get_flag("whole_all")
        && args.quote == m.get_flag("quote")
        && args.icon == m.get_flag("icon")
        && args.recursive == m.get_flag("recursive")
        && args.completions == m.get_flag("completions")
}

#[test]
fn args_agree_with_clap() {
    let lines: Vec<Vec<&str>> = vec![
        vec!["lis"],
        vec!["lis", "src"],
        vec!["lis", "src", "--sort", "size", "-r", "-l", "-a", "--icon", "--format", "json", "-R"],
        vec!["lis", "-rlaR", "--sort=time", "dir"],
        vec!["lis", "--format=csv", "--quote", "--whole-all"],
        vec!["lis", "-A", "--completions", "x"],
        vec!["lis", "--", "-r"],
        vec!["lis", "--", "a", "b"],
        vec!["lis", "-"],
        vec!["lis", "a", "b"],
        vec!["lis", "--help"],
        vec!["lis", "-h"],
        vec!["lis", "-rh"],
        vec!["lis", "--version"],
        vec!["lis", "-V"],
        vec!["lis", "--bogus"],
        vec!["lis", "-x"],
        vec!["lis", "-r", "-r"],
        vec!["lis", "-rr"],
        vec!["lis", "--sort", "name", "--sort", "size"],
        vec!["lis", "--sort"],
        vec!["lis", "--sort", "-r"],
        vec!["lis", "--sort", "bogus"],
        vec!["lis", "--sort", "Name"],
        vec!["lis", "--format", "xml"],
        vec!["lis", "--long=1"],
        vec!["lis", "--icon", "--", "--icon"],
        vec!["lis", "-5"],
        vec!["lis", ""],
        vec!["lis", "--", ""],
        vec!["lis", "a", ""],
        vec!["lis", "", "-r"],
    ];
    for line in lines {
        let mine = Args::try_parse_from(&line);
        let theirs = command().try_get_matches_from(line.clone());
        match (&mine, &theirs) {
            (Ok(a), Ok(m)) => assert!(same_as_clap(a, m), "values differ for {:?}", line),
            (Err(ArgsError::DisplayHelp), Err(e)) => {
                assert_eq!(e.kind(), ErrorKind::DisplayHelp, "{:?}", line)
            }
            (Err(ArgsError::DisplayVersion), Err(e)) => {
                assert_eq!(e.kind(), ErrorKind::DisplayVersion, "{:?}", line)
            }
            (Err(ArgsError::DisplayHelp), Ok(_)) | (Err(ArgsError::DisplayVersion), Ok(_)) => {
                panic!("clap accepted {:?}", line)
            }
            (Err(_), Err(e)) => assert!(
                e.kind() != ErrorKind::DisplayHelp && e.kind() != ErrorKind::DisplayVersion,
                "{:?}",
                line
            ),
            (Ok(_), Err(e)) => panic!("clap refused {:?}: {}", line, e),
            (Err(e), Ok(_)) => panic!("refused {:?} that clap accepts: {:?}", line, e),
        }
    }
}
