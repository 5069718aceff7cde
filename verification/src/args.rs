//! The command line of the listing tool: its options and how a list of
//! arguments is read.
use vstd::prelude::*;
use crate::entry::SortBy;
use crate::text::chars_of;

verus! {

/// The output formats.
#[derive(Clone, Copy, Debug, PartialEq, Eq, Structural)]
pub enum Format {
    /// Names, in columns or in long lines.
    Plain,
    /// Comma-separated values.
    Csv,
    /// JSON.
    Json,
    /// YAML.
    Yaml,
}

/// The options of a listing as given on the command line.
#[derive(Debug)]
pub struct Args {
    /// Directory to list (`.` by default).
    pub path: String,
    /// Sort key (`name` by default).
    pub sort: SortBy,
    /// Reverse sort order.
    pub reverse: bool,
    /// Long format.
    pub long: bool,
    /// All entries, respecting `.gitignore`.
    pub all: bool,
    /// All entries, ignoring `.gitignore`.
    pub whole_all: bool,
    /// Quote the entries.
    pub quote: bool,
    /// Display icons.
    pub icon: bool,
    /// Output format (`plain` by default).
    pub format: Format,
    /// Recursive listing.
    pub recursive: bool,
    /// Generate the completion script files for several shells.
    pub completions: bool,
}

/// The options that take no value.
#[derive(Clone, Copy, Debug, PartialEq, Eq, Structural)]
pub enum Flag {
    /// `-r`, `--reverse`
    Reverse,
    /// `-l`, `--long`
    Long,
    /// `-a`, `--all`
    All,
    /// `-A`, `--whole-all`
    WholeAll,
    /// `--quote`
    Quote,
    /// `--icon`
    Icon,
    /// `-R`, `--recursive`
    Recursive,
    /// `--completions`
    Completions,
    /// `-h`, `--help`
    Help,
    /// `-V`, `--version`
    Version,
}

/// The options that take a value.
#[derive(Clone, Copy, Debug, PartialEq, Eq, Structural)]
pub enum ValueOption {
    /// `--sort <SORT>`
    Sort,
    /// `--format <FORMAT>`
    Format,
}

/// Why a command line was not accepted, or that it asks for help or the version.
#[derive(Debug)]
pub enum ArgsError {
    /// `-h` or `--help` was given.
    DisplayHelp,
    /// `-V` or `--version` was given.
    DisplayVersion,
    /// An option that the tool does not know.
    UnknownArgument(String),
    /// A second path.
    UnexpectedArgument(String),
    /// An empty path.
    EmptyPath,
    /// An option given twice.
    RepeatedFlag(Flag),
    /// An option with a value given twice.
    RepeatedOption(ValueOption),
    /// An option without its value.
    MissingValue(ValueOption),
    /// A value that the option does not accept.
    InvalidValue(ValueOption, String),
    /// A value given to an option that takes none.
    UnexpectedValue(Flag, String),
}

/// [`ArgsError`] with its texts as character sequences.
pub enum ArgsFailure {
    /// Help was asked for.
    DisplayHelp,
    /// The version was asked for.
    DisplayVersion,
    /// An unknown option, as written.
    UnknownArgument(Seq<char>),
    /// A second path.
    UnexpectedArgument(Seq<char>),
    /// An empty path.
    EmptyPath,
    /// An option given twice.
    RepeatedFlag(Flag),
    /// An option with a value given twice.
    RepeatedOption(ValueOption),
    /// An option without its value.
    MissingValue(ValueOption),
    /// A value that the option does not accept.
    InvalidValue(ValueOption, Seq<char>),
    /// A value given to an option that takes none.
    UnexpectedValue(Flag, Seq<char>),
}

impl View for ArgsError {
    type V = ArgsFailure;

    open spec fn view(&self) -> ArgsFailure {
        match self {
            ArgsError::DisplayHelp => ArgsFailure::DisplayHelp,
            ArgsError::DisplayVersion => ArgsFailure::DisplayVersion,
            ArgsError::UnknownArgument(s) => ArgsFailure::UnknownArgument(s@),
            ArgsError::UnexpectedArgument(s) => ArgsFailure::UnexpectedArgument(s@),
            ArgsError::EmptyPath => ArgsFailure::EmptyPath,
            ArgsError::RepeatedFlag(f) => ArgsFailure::RepeatedFlag(*f),
            ArgsError::RepeatedOption(o) => ArgsFailure::RepeatedOption(*o),
            ArgsError::MissingValue(o) => ArgsFailure::MissingValue(*o),
            ArgsError::InvalidValue(o, s) => ArgsFailure::InvalidValue(*o, s@),
            ArgsError::UnexpectedValue(f, s) => ArgsFailure::UnexpectedValue(*f, s@),
        }
    }
}

/// What has been read of a command line so far.
pub struct ArgsState {
    /// The path, once read.
    pub path: Option<Seq<char>>,
    /// The sort key, once read.
    pub sort: Option<SortBy>,
    /// The format, once read.
    pub format: Option<Format>,
    /// The flags read so far.
    pub reverse: bool,
    pub long: bool,
    pub all: bool,
    pub whole_all: bool,
    pub quote: bool,
    pub icon: bool,
    pub recursive: bool,
    pub completions: bool,
    /// Whether `--` has been read: all further arguments are paths.
    pub only_paths: bool,
}

/// Nothing read yet.
pub open spec fn initial_state() -> ArgsState {
    ArgsState {
        path: None,
        sort: None,
        format: None,
        reverse: false,
        long: false,
        all: false,
        whole_all: false,
        quote: false,
        icon: false,
        recursive: false,
        completions: false,
        only_paths: false,
    }
}

/// The option without a value that `--name` stands for.
pub open spec fn long_flag(name: Seq<char>) -> Option<Flag> {
    if name == "reverse"@ { Some(Flag::Reverse) }
    else if name == "long"@ { Some(Flag::Long) }
    else if name == "all"@ { Some(Flag::All) }
    else if name == "whole-all"@ { Some(Flag::WholeAll) }
    else if name == "quote"@ { Some(Flag::Quote) }
    else if name == "icon"@ { Some(Flag::Icon) }
    else if name == "recursive"@ { Some(Flag::Recursive) }
    else if name == "completions"@ { Some(Flag::Completions) }
    else if name == "help"@ { Some(Flag::Help) }
    else if name == "version"@ { Some(Flag::Version) }
    else { None }
}

/// The option with a value that `--name` stands for.
pub open spec fn long_value_option(name: Seq<char>) -> Option<ValueOption> {
    if name == "sort"@ { Some(ValueOption::Sort) }
    else if name == "format"@ { Some(ValueOption::Format) }
    else { None }
}

/// The option that `-c` stands for.
pub open spec fn short_flag(c: char) -> Option<Flag> {
    if c == 'r' { Some(Flag::Reverse) }
    else if c == 'l' { Some(Flag::Long) }
    else if c == 'a' { Some(Flag::All) }
    else if c == 'A' { Some(Flag::WholeAll) }
    else if c == 'R' { Some(Flag::Recursive) }
    else if c == 'h' { Some(Flag::Help) }
    else if c == 'V' { Some(Flag::Version) }
    else { None }
}

/// The sort key that a `--sort` value names.
pub open spec fn sort_value(v: Seq<char>) -> Option<SortBy> {
    if v == "name"@ { Some(SortBy::Name) }
    else if v == "time"@ { Some(SortBy::Time) }
    else if v == "size"@ { Some(SortBy::Size) }
    else if v == "extension"@ { Some(SortBy::Extension) }
    else { None }
}

/// The format that a `--format` value names.
pub open spec fn format_value(v: Seq<char>) -> Option<Format> {
    if v == "plain"@ { Some(Format::Plain) }
    else if v == "csv"@ { Some(Format::Csv) }
    else if v == "json"@ { Some(Format::Json) }
    else if v == "yaml"@ { Some(Format::Yaml) }
    else { None }
}

/// Whether the flag has been read already.
pub open spec fn flag_set(s: ArgsState, f: Flag) -> bool {
    match f {
        Flag::Reverse => s.reverse,
        Flag::Long => s.long,
        Flag::All => s.all,
        Flag::WholeAll => s.whole_all,
        Flag::Quote => s.quote,
        Flag::Icon => s.icon,
        Flag::Recursive => s.recursive,
        Flag::Completions => s.completions,
        Flag::Help => false,
        Flag::Version => false,
    }
}

/// Reading a flag: help and version end the reading, a flag read before is
/// refused, any other is set.
pub open spec fn apply_flag(s: ArgsState, f: Flag) -> Result<ArgsState, ArgsFailure> {
    match f {
        Flag::Help => Err(ArgsFailure::DisplayHelp),
        Flag::Version => Err(ArgsFailure::DisplayVersion),
        _ => if flag_set(s, f) {
            Err(ArgsFailure::RepeatedFlag(f))
        } else {
            Ok(match f {
                Flag::Reverse => ArgsState { reverse: true, ..s },
                Flag::Long => ArgsState { long: true, ..s },
                Flag::All => ArgsState { all: true, ..s },
                Flag::WholeAll => ArgsState { whole_all: true, ..s },
                Flag::Quote => ArgsState { quote: true, ..s },
                Flag::Icon => ArgsState { icon: true, ..s },
                Flag::Recursive => ArgsState { recursive: true, ..s },
                _ => ArgsState { completions: true, ..s },
            })
        },
    }
}

/// Reading an option's value: an option read before is refused, then a value
/// that the option does not name.
pub open spec fn apply_value(s: ArgsState, o: ValueOption, v: Seq<char>) -> Result<ArgsState, ArgsFailure> {
    match o {
        ValueOption::Sort => if s.sort is Some {
            Err(ArgsFailure::RepeatedOption(o))
        } else {
            match sort_value(v) {
                Some(k) => Ok(ArgsState { sort: Some(k), ..s }),
                None => Err(ArgsFailure::InvalidValue(o, v)),
            }
        },
        ValueOption::Format => if s.format is Some {
            Err(ArgsFailure::RepeatedOption(o))
        } else {
            match format_value(v) {
                Some(k) => Ok(ArgsState { format: Some(k), ..s }),
                None => Err(ArgsFailure::InvalidValue(o, v)),
            }
        },
    }
}

/// Reading a path: the first is the directory, a second is refused, and so
/// is an empty one.
pub open spec fn apply_path(s: ArgsState, t: Seq<char>) -> Result<ArgsState, ArgsFailure> {
    if s.path is Some {
        Err(ArgsFailure::UnexpectedArgument(t))
    } else if t.len() == 0 {
        Err(ArgsFailure::EmptyPath)
    } else {
        Ok(ArgsState { path: Some(t), ..s })
    }
}

/// Reading a cluster of one-letter flags, such as `rl` of `-rl`, in order.
pub open spec fn apply_shorts(s: ArgsState, cs: Seq<char>) -> Result<ArgsState, ArgsFailure>
    decreases cs.len(),
{
    if cs.len() == 0 {
        Ok(s)
    } else {
        match short_flag(cs[0]) {
            None => Err(ArgsFailure::UnknownArgument(seq!['-', cs[0]])),
            Some(f) => match apply_flag(s, f) {
                Ok(s2) => apply_shorts(s2, cs.drop_first()),
                Err(e) => Err(e),
            },
        }
    }
}

/// The position of the first `=` in `s`, or its length where there is none.
pub open spec fn equals_at(s: Seq<char>) -> int
    decreases s.len(),
{
    if s.len() == 0 {
        0
    } else if s[0] == '=' {
        0
    } else {
        1 + equals_at(s.drop_first())
    }
}

/// Whether an argument reads as an option rather than a value: a dash
/// followed by something.
pub open spec fn is_option_like(t: Seq<char>) -> bool {
    t.len() >= 2 && t[0] == '-'
}

/// Reading the arguments `toks` in order from the state `s`.
pub open spec fn parse_tokens(s: ArgsState, toks: Seq<Seq<char>>) -> Result<ArgsState, ArgsFailure>
    decreases toks.len(),
{
    if toks.len() == 0 {
        Ok(s)
    } else {
        let t = toks[0];
        let rest = toks.drop_first();
        if s.only_paths || !is_option_like(t) {
            match apply_path(s, t) {
                Ok(s2) => parse_tokens(s2, rest),
                Err(e) => Err(e),
            }
        } else if t == "--"@ {
            parse_tokens(ArgsState { only_paths: true, ..s }, rest)
        } else if t[1] == '-' {
            let body = t.skip(2);
            let k = equals_at(body);
            let name = body.take(k);
            let has_value = k < body.len();
            let value = body.skip(k + 1);
            match long_flag(name) {
                Some(f) => if has_value {
                    Err(ArgsFailure::UnexpectedValue(f, value))
                } else {
                    match apply_flag(s, f) {
                        Ok(s2) => parse_tokens(s2, rest),
                        Err(e) => Err(e),
                    }
                },
                None => match long_value_option(name) {
                    Some(o) => if has_value {
                        match apply_value(s, o, value) {
                            Ok(s2) => parse_tokens(s2, rest),
                            Err(e) => Err(e),
                        }
                    } else if rest.len() == 0 || is_option_like(rest[0]) {
                        Err(ArgsFailure::MissingValue(o))
                    } else {
                        match apply_value(s, o, rest[0]) {
                            Ok(s2) => parse_tokens(s2, rest.drop_first()),
                            Err(e) => Err(e),
                        }
                    },
                    None => Err(ArgsFailure::UnknownArgument(t)),
                },
            }
        } else {
            match apply_shorts(s, t.drop_first()) {
                Ok(s2) => parse_tokens(s2, rest),
                Err(e) => Err(e),
            }
        }
    }
}

/// The arguments after the program name.
pub open spec fn after_program(args: Seq<Seq<char>>) -> Seq<Seq<char>> {
    if args.len() == 0 { args } else { args.skip(1) }
}

/// Whether `a` holds what the state `s` read, with the defaults where nothing was read.
pub open spec fn args_from_state(a: Args, s: ArgsState) -> bool {
    &&& a.path@ == (match s.path { Some(p) => p, None => "."@ })
    &&& a.sort == (match s.sort { Some(k) => k, None => SortBy::Name })
    &&& a.format == (match s.format { Some(f) => f, None => Format::Plain })
    &&& a.reverse == s.reverse
    &&& a.long == s.long
    &&& a.all == s.all
    &&& a.whole_all == s.whole_all
    &&& a.quote == s.quote
    &&& a.icon == s.icon
    &&& a.recursive == s.recursive
    &&& a.completions == s.completions
}


proof fn lemma_equals_at_absent(s: Seq<char>)
    requires
        forall|i: int| 0 <= i < s.len() ==> s[i] != '=',
    ensures
        equals_at(s) == s.len(),
    decreases s.len(),
{
    if s.len() > 0 {
        assert(s[0] != '=');
        lemma_equals_at_absent(s.drop_first());
    }
}

/// The names of the options without a value, each read as its own option.
proof fn lemma_long_flag_names()
    ensures
        long_flag("reverse"@) == Some(Flag::Reverse),
        long_flag("long"@) == Some(Flag::Long),
        long_flag("all"@) == Some(Flag::All),
        long_flag("whole-all"@) == Some(Flag::WholeAll),
        long_flag("quote"@) == Some(Flag::Quote),
        long_flag("icon"@) == Some(Flag::Icon),
        long_flag("recursive"@) == Some(Flag::Recursive),
        long_flag("completions"@) == Some(Flag::Completions),
        long_flag("help"@) == Some(Flag::Help),
        long_flag("version"@) == Some(Flag::Version),
{
    reveal_strlit("reverse");
    reveal_strlit("long");
    reveal_strlit("all");
    reveal_strlit("whole-all");
    reveal_strlit("quote");
    reveal_strlit("icon");
    reveal_strlit("recursive");
    reveal_strlit("completions");
    reveal_strlit("help");
    reveal_strlit("version");
    assert("reverse"@[0] == 'r');
    assert("long"@[0] == 'l');
    assert("all"@[0] == 'a');
    assert("whole-all"@[0] == 'w');
    assert("quote"@[0] == 'q');
    assert("icon"@[0] == 'i');
    assert("recursive"@[0] == 'r');
    assert("recursive"@[2] == 'c' && "reverse"@[2] == 'v');
    assert("completions"@[0] == 'c');
    assert("help"@[0] == 'h');
    assert("version"@[0] == 'v');
}

/// Reading `--name` for an option without a value reads that option.
proof fn lemma_long_token(s: ArgsState, name: Seq<char>, rest: Seq<Seq<char>>)
    requires
        !s.only_paths,
        name.len() >= 1,
        forall|i: int| 0 <= i < name.len() ==> name[i] != '=',
        long_flag(name) is Some,
    ensures
        parse_tokens(s, seq![seq!['-', '-'] + name] + rest) == (match apply_flag(s, long_flag(name)->0) {
            Ok(s2) => parse_tokens(s2, rest),
            Err(e) => Err(e),
        }),
{
    let t = seq!['-', '-'] + name;
    let toks = seq![t] + rest;
    assert(toks[0] == t);
    assert(toks.drop_first() =~= rest);
    reveal_strlit("--");
    assert(t.len() != "--"@.len());
    assert(t[0] == '-' && t[1] == '-');
    let body = t.skip(2);
    assert(body =~= name);
    lemma_equals_at_absent(name);
    assert(body.take(name.len() as int) =~= name);
}

/// Reading `-c` for a one-letter option reads that option.
proof fn lemma_short_token(s: ArgsState, c: char, rest: Seq<Seq<char>>)
    requires
        !s.only_paths,
        short_flag(c) is Some,
    ensures
        parse_tokens(s, seq![seq!['-', c]] + rest) == (match apply_flag(s, short_flag(c)->0) {
            Ok(s2) => parse_tokens(s2, rest),
            Err(e) => Err(e),
        }),
{
    let t = seq!['-', c];
    let toks = seq![t] + rest;
    assert(toks[0] == t);
    assert(toks.drop_first() =~= rest);
    reveal_strlit("--");
    assert(t[1] != '-');
    assert(t != "--"@);
    assert(t.drop_first() =~= seq![c]);
    assert(seq![c].drop_first() =~= Seq::<char>::empty());
    match apply_flag(s, short_flag(c)->0) {
        Ok(s2) => {
            assert(apply_shorts(s2, Seq::<char>::empty()) == Ok::<ArgsState, ArgsFailure>(s2));
        },
        Err(e) => {},
    }
}

/// Law: each long option without a value sets its own option and nothing
/// else: `--reverse` sets `reverse`, `--recursive` sets `recursive`, and so on,
/// and is refused when given a second time; `--help` and `--version` end the
/// reading. Whatever follows is read as it would be without it.
pub proof fn law_long_flags_set_their_option(s: ArgsState, rest: Seq<Seq<char>>)
    requires
        !s.only_paths,
    ensures
        parse_tokens(s, seq!["--reverse"@] + rest) == (if s.reverse {
            Err(ArgsFailure::RepeatedFlag(Flag::Reverse))
        } else {
            parse_tokens(ArgsState { reverse: true, ..s }, rest)
        }),
        parse_tokens(s, seq!["--long"@] + rest) == (if s.long {
            Err(ArgsFailure::RepeatedFlag(Flag::Long))
        } else {
            parse_tokens(ArgsState { long: true, ..s }, rest)
        }),
        parse_tokens(s, seq!["--all"@] + rest) == (if s.all {
            Err(ArgsFailure::RepeatedFlag(Flag::All))
        } else {
            parse_tokens(ArgsState { all: true, ..s }, rest)
        }),
        parse_tokens(s, seq!["--whole-all"@] + rest) == (if s.whole_all {
            Err(ArgsFailure::RepeatedFlag(Flag::WholeAll))
        } else {
            parse_tokens(ArgsState { whole_all: true, ..s }, rest)
        }),
        parse_tokens(s, seq!["--quote"@] + rest) == (if s.quote {
            Err(ArgsFailure::RepeatedFlag(Flag::Quote))
        } else {
            parse_tokens(ArgsState { quote: true, ..s }, rest)
        }),
        parse_tokens(s, seq!["--icon"@] + rest) == (if s.icon {
            Err(ArgsFailure::RepeatedFlag(Flag::Icon))
        } else {
            parse_tokens(ArgsState { icon: true, ..s }, rest)
        }),
        parse_tokens(s, seq!["--recursive"@] + rest) == (if s.recursive {
            Err(ArgsFailure::RepeatedFlag(Flag::Recursive))
        } else {
            parse_tokens(ArgsState { recursive: true, ..s }, rest)
        }),
        parse_tokens(s, seq!["--completions"@] + rest) == (if s.completions {
            Err(ArgsFailure::RepeatedFlag(Flag::Completions))
        } else {
            parse_tokens(ArgsState { completions: true, ..s }, rest)
        }),
        parse_tokens(s, seq!["--help"@] + rest) == Err::<ArgsState, ArgsFailure>(ArgsFailure::DisplayHelp),
        parse_tokens(s, seq!["--version"@] + rest) == Err::<ArgsState, ArgsFailure>(ArgsFailure::DisplayVersion),
{
    lemma_long_flag_names();
    reveal_strlit("--reverse");
    reveal_strlit("reverse");
    assert("--reverse"@ =~= seq!['-', '-'] + "reverse"@);
    lemma_long_token(s, "reverse"@, rest);
    reveal_strlit("--long");
    reveal_strlit("long");
    assert("--long"@ =~= seq!['-', '-'] + "long"@);
    lemma_long_token(s, "long"@, rest);
    reveal_strlit("--all");
    reveal_strlit("all");
    assert("--all"@ =~= seq!['-', '-'] + "all"@);
    lemma_long_token(s, "all"@, rest);
    reveal_strlit("--whole-all");
    reveal_strlit("whole-all");
    assert("--whole-all"@ =~= seq!['-', '-'] + "whole-all"@);
    lemma_long_token(s, "whole-all"@, rest);
    reveal_strlit("--quote");
    reveal_strlit("quote");
    assert("--quote"@ =~= seq!['-', '-'] + "quote"@);
    lemma_long_token(s, "quote"@, rest);
    reveal_strlit("--icon");
    reveal_strlit("icon");
    assert("--icon"@ =~= seq!['-', '-'] + "icon"@);
    lemma_long_token(s, "icon"@, rest);
    reveal_strlit("--recursive");
    reveal_strlit("recursive");
    assert("--recursive"@ =~= seq!['-', '-'] + "recursive"@);
    lemma_long_token(s, "recursive"@, rest);
    reveal_strlit("--completions");
    reveal_strlit("completions");
    assert("--completions"@ =~= seq!['-', '-'] + "completions"@);
    lemma_long_token(s, "completions"@, rest);
    reveal_strlit("--help");
    reveal_strlit("help");
    assert("--help"@ =~= seq!['-', '-'] + "help"@);
    lemma_long_token(s, "help"@, rest);
    reveal_strlit("--version");
    reveal_strlit("version");
    assert("--version"@ =~= seq!['-', '-'] + "version"@);
    lemma_long_token(s, "version"@, rest);
}

/// Law: each one-letter option sets the same option as its long form: `-r`
/// sets `reverse`, `-l` `long`, `-a` `all`, `-A` `whole_all` and `-R`
/// `recursive`, and is refused when given a second time; `-h` and `-V` end the
/// reading. Whatever follows is read as it would be without it.
pub proof fn law_short_flags_set_their_option(s: ArgsState, rest: Seq<Seq<char>>)
    requires
        !s.only_paths,
    ensures
        parse_tokens(s, seq!["-r"@] + rest) == (if s.reverse {
            Err(ArgsFailure::RepeatedFlag(Flag::Reverse))
        } else {
            parse_tokens(ArgsState { reverse: true, ..s }, rest)
        }),
        parse_tokens(s, seq!["-l"@] + rest) == (if s.long {
            Err(ArgsFailure::RepeatedFlag(Flag::Long))
        } else {
            parse_tokens(ArgsState { long: true, ..s }, rest)
        }),
        parse_tokens(s, seq!["-a"@] + rest) == (if s.all {
            Err(ArgsFailure::RepeatedFlag(Flag::All))
        } else {
            parse_tokens(ArgsState { all: true, ..s }, rest)
        }),
        parse_tokens(s, seq!["-A"@] + rest) == (if s.whole_all {
            Err(ArgsFailure::RepeatedFlag(Flag::WholeAll))
        } else {
            parse_tokens(ArgsState { whole_all: true, ..s }, rest)
        }),
        parse_tokens(s, seq!["-R"@] + rest) == (if s.recursive {
            Err(ArgsFailure::RepeatedFlag(Flag::Recursive))
        } else {
            parse_tokens(ArgsState { recursive: true, ..s }, rest)
        }),
        parse_tokens(s, seq!["-h"@] + rest) == Err::<ArgsState, ArgsFailure>(ArgsFailure::DisplayHelp),
        parse_tokens(s, seq!["-V"@] + rest) == Err::<ArgsState, ArgsFailure>(ArgsFailure::DisplayVersion),
{
    reveal_strlit("-r");
    assert("-r"@ =~= seq!['-', 'r']);
    lemma_short_token(s, 'r', rest);
    reveal_strlit("-l");
    assert("-l"@ =~= seq!['-', 'l']);
    lemma_short_token(s, 'l', rest);
    reveal_strlit("-a");
    assert("-a"@ =~= seq!['-', 'a']);
    lemma_short_token(s, 'a', rest);
    reveal_strlit("-A");
    assert("-A"@ =~= seq!['-', 'A']);
    lemma_short_token(s, 'A', rest);
    reveal_strlit("-R");
    assert("-R"@ =~= seq!['-', 'R']);
    lemma_short_token(s, 'R', rest);
    reveal_strlit("-h");
    assert("-h"@ =~= seq!['-', 'h']);
    lemma_short_token(s, 'h', rest);
    reveal_strlit("-V");
    assert("-V"@ =~= seq!['-', 'V']);
    lemma_short_token(s, 'V', rest);
}


proof fn lemma_equals_at_prefix(name: Seq<char>, rest: Seq<char>)
    requires
        forall|i: int| 0 <= i < name.len() ==> name[i] != '=',
    ensures
        equals_at(name + rest) == name.len() + equals_at(rest),
    decreases name.len(),
{
    if name.len() > 0 {
        assert((name + rest)[0] == name[0]);
        assert((name + rest).drop_first() =~= name.drop_first() + rest);
        lemma_equals_at_prefix(name.drop_first(), rest);
    } else {
        assert(name + rest =~= rest);
    }
}

/// The names of the options with a value and the values they accept.
proof fn lemma_value_names()
    ensures
        long_flag("sort"@) is None,
        long_flag("format"@) is None,
        long_value_option("sort"@) == Some(ValueOption::Sort),
        long_value_option("format"@) == Some(ValueOption::Format),
        sort_value("name"@) == Some(SortBy::Name),
        sort_value("time"@) == Some(SortBy::Time),
        sort_value("size"@) == Some(SortBy::Size),
        sort_value("extension"@) == Some(SortBy::Extension),
        format_value("plain"@) == Some(Format::Plain),
        format_value("csv"@) == Some(Format::Csv),
        format_value("json"@) == Some(Format::Json),
        format_value("yaml"@) == Some(Format::Yaml),
{
    reveal_strlit("reverse");
    reveal_strlit("long");
    reveal_strlit("all");
    reveal_strlit("whole-all");
    reveal_strlit("quote");
    reveal_strlit("icon");
    reveal_strlit("recursive");
    reveal_strlit("completions");
    reveal_strlit("help");
    reveal_strlit("version");
    reveal_strlit("sort");
    reveal_strlit("format");
    reveal_strlit("name");
    reveal_strlit("time");
    reveal_strlit("size");
    reveal_strlit("extension");
    reveal_strlit("plain");
    reveal_strlit("csv");
    reveal_strlit("json");
    reveal_strlit("yaml");
    assert("reverse"@[0] == 'r');
    assert("long"@[0] == 'l');
    assert("all"@[0] == 'a');
    assert("whole-all"@[0] == 'w');
    assert("quote"@[0] == 'q');
    assert("icon"@[0] == 'i');
    assert("recursive"@[0] == 'r');
    assert("completions"@[0] == 'c');
    assert("help"@[0] == 'h');
    assert("version"@[0] == 'v');
    assert("sort"@[0] == 's');
    assert("format"@[0] == 'f');
    assert("name"@[0] == 'n');
    assert("time"@[0] == 't');
    assert("size"@[0] == 's');
    assert("extension"@[0] == 'e');
    assert("plain"@[0] == 'p');
    assert("csv"@[0] == 'c');
    assert("json"@[0] == 'j');
    assert("yaml"@[0] == 'y');
}

/// Reading `--name value` for an option with a value reads that value.
proof fn lemma_value_token(s: ArgsState, name: Seq<char>, v: Seq<char>, rest: Seq<Seq<char>>)
    requires
        !s.only_paths,
        name.len() >= 1,
        forall|i: int| 0 <= i < name.len() ==> name[i] != '=',
        long_flag(name) is None,
        long_value_option(name) is Some,
        !is_option_like(v),
    ensures
        parse_tokens(s, seq![seq!['-', '-'] + name, v] + rest) == (match apply_value(s, long_value_option(name)->0, v) {
            Ok(s2) => parse_tokens(s2, rest),
            Err(e) => Err(e),
        }),
{
    let t = seq!['-', '-'] + name;
    let toks = seq![t, v] + rest;
    assert(toks[0] == t);
    assert(toks.drop_first() =~= seq![v] + rest);
    assert((seq![v] + rest)[0] == v);
    assert((seq![v] + rest).drop_first() =~= rest);
    reveal_strlit("--");
    assert(t.len() != "--"@.len());
    assert(t[0] == '-' && t[1] == '-');
    let body = t.skip(2);
    assert(body =~= name);
    lemma_equals_at_absent(name);
    assert(body.take(name.len() as int) =~= name);
}

/// Reading `--name=value` for an option with a value reads that value.
proof fn lemma_value_eq_token(s: ArgsState, name: Seq<char>, v: Seq<char>, rest: Seq<Seq<char>>)
    requires
        !s.only_paths,
        name.len() >= 1,
        forall|i: int| 0 <= i < name.len() ==> name[i] != '=',
        long_flag(name) is None,
        long_value_option(name) is Some,
    ensures
        parse_tokens(s, seq![seq!['-', '-'] + name + seq!['='] + v] + rest) == (match apply_value(
            s,
            long_value_option(name)->0,
            v,
        ) {
            Ok(s2) => parse_tokens(s2, rest),
            Err(e) => Err(e),
        }),
{
    let t = seq!['-', '-'] + name + seq!['='] + v;
    let toks = seq![t] + rest;
    assert(toks[0] == t);
    assert(toks.drop_first() =~= rest);
    reveal_strlit("--");
    assert(t.len() != "--"@.len());
    assert(t[0] == '-' && t[1] == '-');
    let body = t.skip(2);
    assert(body =~= name + (seq!['='] + v));
    lemma_equals_at_prefix(name, seq!['='] + v);
    assert((seq!['='] + v)[0] == '=');
    assert(equals_at(seq!['='] + v) == 0);
    assert(body.take(name.len() as int) =~= name);
    assert(body.skip(name.len() as int + 1) =~= v);
}

/// Law: `--sort` with `name`, `time`, `size` or `extension`, as the next
/// argument or after `=`, sets the sort key of that name, and is refused when
/// a sort key was given before. Whatever follows is read as it would be
/// without it.
pub proof fn law_sort_values_set_sort(s: ArgsState, rest: Seq<Seq<char>>)
    requires
        !s.only_paths,
    ensures
        parse_tokens(s, seq!["--sort"@, "name"@] + rest) == (if s.sort is Some {
            Err(ArgsFailure::RepeatedOption(ValueOption::Sort))
        } else {
            parse_tokens(ArgsState { sort: Some(SortBy::Name), ..s }, rest)
        }),
        parse_tokens(s, seq!["--sort=name"@] + rest) == (if s.sort is Some {
            Err(ArgsFailure::RepeatedOption(ValueOption::Sort))
        } else {
            parse_tokens(ArgsState { sort: Some(SortBy::Name), ..s }, rest)
        }),
        parse_tokens(s, seq!["--sort"@, "time"@] + rest) == (if s.sort is Some {
            Err(ArgsFailure::RepeatedOption(ValueOption::Sort))
        } else {
            parse_tokens(ArgsState { sort: Some(SortBy::Time), ..s }, rest)
        }),
        parse_tokens(s, seq!["--sort=time"@] + rest) == (if s.sort is Some {
            Err(ArgsFailure::RepeatedOption(ValueOption::Sort))
        } else {
            parse_tokens(ArgsState { sort: Some(SortBy::Time), ..s }, rest)
        }),
        parse_tokens(s, seq!["--sort"@, "size"@] + rest) == (if s.sort is Some {
            Err(ArgsFailure::RepeatedOption(ValueOption::Sort))
        } else {
            parse_tokens(ArgsState { sort: Some(SortBy::Size), ..s }, rest)
        }),
        parse_tokens(s, seq!["--sort=size"@] + rest) == (if s.sort is Some {
            Err(ArgsFailure::RepeatedOption(ValueOption::Sort))
        } else {
            parse_tokens(ArgsState { sort: Some(SortBy::Size), ..s }, rest)
        }),
        parse_tokens(s, seq!["--sort"@, "extension"@] + rest) == (if s.sort is Some {
            Err(ArgsFailure::RepeatedOption(ValueOption::Sort))
        } else {
            parse_tokens(ArgsState { sort: Some(SortBy::Extension), ..s }, rest)
        }),
        parse_tokens(s, seq!["--sort=extension"@] + rest) == (if s.sort is Some {
            Err(ArgsFailure::RepeatedOption(ValueOption::Sort))
        } else {
            parse_tokens(ArgsState { sort: Some(SortBy::Extension), ..s }, rest)
        }),
{
    lemma_value_names();
    reveal_strlit("--sort");
    reveal_strlit("sort");
    assert("--sort"@ =~= seq!['-', '-'] + "sort"@);
    reveal_strlit("name");
    reveal_strlit("--sort=name");
    assert("--sort=name"@ =~= seq!['-', '-'] + "sort"@ + seq!['='] + "name"@);
    assert(!is_option_like("name"@));
    lemma_value_token(s, "sort"@, "name"@, rest);
    lemma_value_eq_token(s, "sort"@, "name"@, rest);
    reveal_strlit("time");
    reveal_strlit("--sort=time");
    assert("--sort=time"@ =~= seq!['-', '-'] + "sort"@ + seq!['='] + "time"@);
    assert(!is_option_like("time"@));
    lemma_value_token(s, "sort"@, "time"@, rest);
    lemma_value_eq_token(s, "sort"@, "time"@, rest);
    reveal_strlit("size");
    reveal_strlit("--sort=size");
    assert("--sort=size"@ =~= seq!['-', '-'] + "sort"@ + seq!['='] + "size"@);
    assert(!is_option_like("size"@));
    lemma_value_token(s, "sort"@, "size"@, rest);
    lemma_value_eq_token(s, "sort"@, "size"@, rest);
    reveal_strlit("extension");
    reveal_strlit("--sort=extension");
    assert("--sort=extension"@ =~= seq!['-', '-'] + "sort"@ + seq!['='] + "extension"@);
    assert(!is_option_like("extension"@));
    lemma_value_token(s, "sort"@, "extension"@, rest);
    lemma_value_eq_token(s, "sort"@, "extension"@, rest);
}

/// Law: `--format` with `plain`, `csv`, `json` or `yaml`, as the next
/// argument or after `=`, sets the format of that name, and is refused when a
/// format was given before. Whatever follows is read as it would be without
/// it.
pub proof fn law_format_values_set_format(s: ArgsState, rest: Seq<Seq<char>>)
    requires
        !s.only_paths,
    ensures
        parse_tokens(s, seq!["--format"@, "plain"@] + rest) == (if s.format is Some {
            Err(ArgsFailure::RepeatedOption(ValueOption::Format))
        } else {
            parse_tokens(ArgsState { format: Some(Format::Plain), ..s }, rest)
        }),
        parse_tokens(s, seq!["--format=plain"@] + rest) == (if s.format is Some {
            Err(ArgsFailure::RepeatedOption(ValueOption::Format))
        } else {
            parse_tokens(ArgsState { format: Some(Format::Plain), ..s }, rest)
        }),
        parse_tokens(s, seq!["--format"@, "csv"@] + rest) == (if s.format is Some {
            Err(ArgsFailure::RepeatedOption(ValueOption::Format))
        } else {
            parse_tokens(ArgsState { format: Some(Format::Csv), ..s }, rest)
        }),
        parse_tokens(s, seq!["--format=csv"@] + rest) == (if s.format is Some {
            Err(ArgsFailure::RepeatedOption(ValueOption::Format))
        } else {
            parse_tokens(ArgsState { format: Some(Format::Csv), ..s }, rest)
        }),
        parse_tokens(s, seq!["--format"@, "json"@] + rest) == (if s.format is Some {
            Err(ArgsFailure::RepeatedOption(ValueOption::Format))
        } else {
            parse_tokens(ArgsState { format: Some(Format::Json), ..s }, rest)
        }),
        parse_tokens(s, seq!["--format=json"@] + rest) == (if s.format is Some {
            Err(ArgsFailure::RepeatedOption(ValueOption::Format))
        } else {
            parse_tokens(ArgsState { format: Some(Format::Json), ..s }, rest)
        }),
        parse_tokens(s, seq!["--format"@, "yaml"@] + rest) == (if s.format is Some {
            Err(ArgsFailure::RepeatedOption(ValueOption::Format))
        } else {
            parse_tokens(ArgsState { format: Some(Format::Yaml), ..s }, rest)
        }),
        parse_tokens(s, seq!["--format=yaml"@] + rest) == (if s.format is Some {
            Err(ArgsFailure::RepeatedOption(ValueOption::Format))
        } else {
            parse_tokens(ArgsState { format: Some(Format::Yaml), ..s }, rest)
        }),
{
    lemma_value_names();
    reveal_strlit("--format");
    reveal_strlit("format");
    assert("--format"@ =~= seq!['-', '-'] + "format"@);
    reveal_strlit("plain");
    reveal_strlit("--format=plain");
    assert("--format=plain"@ =~= seq!['-', '-'] + "format"@ + seq!['='] + "plain"@);
    assert(!is_option_like("plain"@));
    lemma_value_token(s, "format"@, "plain"@, rest);
    lemma_value_eq_token(s, "format"@, "plain"@, rest);
    reveal_strlit("csv");
    reveal_strlit("--format=csv");
    assert("--format=csv"@ =~= seq!['-', '-'] + "format"@ + seq!['='] + "csv"@);
    assert(!is_option_like("csv"@));
    lemma_value_token(s, "format"@, "csv"@, rest);
    lemma_value_eq_token(s, "format"@, "csv"@, rest);
    reveal_strlit("json");
    reveal_strlit("--format=json");
    assert("--format=json"@ =~= seq!['-', '-'] + "format"@ + seq!['='] + "json"@);
    assert(!is_option_like("json"@));
    lemma_value_token(s, "format"@, "json"@, rest);
    lemma_value_eq_token(s, "format"@, "json"@, rest);
    reveal_strlit("yaml");
    reveal_strlit("--format=yaml");
    assert("--format=yaml"@ =~= seq!['-', '-'] + "format"@ + seq!['='] + "yaml"@);
    assert(!is_option_like("yaml"@));
    lemma_value_token(s, "format"@, "yaml"@, rest);
    lemma_value_eq_token(s, "format"@, "yaml"@, rest);
}


/// What has been read of a command line so far, as values.
struct Reader {
    path: Option<String>,
    sort: Option<SortBy>,
    format: Option<Format>,
    reverse: bool,
    long: bool,
    all: bool,
    whole_all: bool,
    quote: bool,
    icon: bool,
    recursive: bool,
    completions: bool,
    only_paths: bool,
}

impl View for Reader {
    type V = ArgsState;

    closed spec fn view(&self) -> ArgsState {
        ArgsState {
            path: match self.path {
                Some(p) => Some(p@),
                None => None,
            },
            sort: self.sort,
            format: self.format,
            reverse: self.reverse,
            long: self.long,
            all: self.all,
            whole_all: self.whole_all,
            quote: self.quote,
            icon: self.icon,
            recursive: self.recursive,
            completions: self.completions,
            only_paths: self.only_paths,
        }
    }
}

/// The characters `lo..hi` of `cs` as a string.
fn string_of(cs: &Vec<char>, lo: usize, hi: usize) -> (r: String)
    requires
        lo <= hi <= cs.len(),
    ensures
        r@ == cs@.subrange(lo as int, hi as int),
{
    let mut r = String::new();
    let mut i = lo;
    while i < hi
        invariant
            lo <= i <= hi <= cs.len(),
            r@ == cs@.subrange(lo as int, i as int),
        decreases hi - i,
    {
        crate::text::push_char(&mut r, cs[i]);
        i = i + 1;
        assert(r@ =~= cs@.subrange(lo as int, i as int));
    }
    r
}

/// Whether the characters `lo..hi` of `cs` spell `word`.
fn spells(cs: &Vec<char>, lo: usize, hi: usize, word: &str) -> (r: bool)
    requires
        lo <= hi <= cs.len(),
    ensures
        r == (cs@.subrange(lo as int, hi as int) == word@),
{
    let w = chars_of(word);
    if hi - lo != w.len() {
        return false;
    }
    let mut i: usize = 0;
    while i < w.len()
        invariant
            w@ == word@,
            lo <= hi <= cs.len(),
            hi - lo == w.len(),
            i <= w.len(),
            forall|j: int| 0 <= j < i ==> cs@[lo + j] == w@[j],
        decreases w.len() - i,
    {
        if cs[lo + i] != w[i] {
            assert(cs@.subrange(lo as int, hi as int)[i as int] != word@[i as int]);
            return false;
        }
        i = i + 1;
    }
    assert(cs@.subrange(lo as int, hi as int) =~= word@);
    true
}

fn long_flag_of(cs: &Vec<char>, lo: usize, hi: usize) -> (r: Option<Flag>)
    requires
        lo <= hi <= cs.len(),
    ensures
        r == long_flag(cs@.subrange(lo as int, hi as int)),
{
    if spells(cs, lo, hi, "reverse") { Some(Flag::Reverse) }
    else if spells(cs, lo, hi, "long") { Some(Flag::Long) }
    else if spells(cs, lo, hi, "all") { Some(Flag::All) }
    else if spells(cs, lo, hi, "whole-all") { Some(Flag::WholeAll) }
    else if spells(cs, lo, hi, "quote") { Some(Flag::Quote) }
    else if spells(cs, lo, hi, "icon") { Some(Flag::Icon) }
    else if spells(cs, lo, hi, "recursive") { Some(Flag::Recursive) }
    else if spells(cs, lo, hi, "completions") { Some(Flag::Completions) }
    else if spells(cs, lo, hi, "help") { Some(Flag::Help) }
    else if spells(cs, lo, hi, "version") { Some(Flag::Version) }
    else { None }
}

fn long_value_option_of(cs: &Vec<char>, lo: usize, hi: usize) -> (r: Option<ValueOption>)
    requires
        lo <= hi <= cs.len(),
    ensures
        r == long_value_option(cs@.subrange(lo as int, hi as int)),
{
    if spells(cs, lo, hi, "sort") { Some(ValueOption::Sort) }
    else if spells(cs, lo, hi, "format") { Some(ValueOption::Format) }
    else { None }
}

fn short_flag_of(c: char) -> (r: Option<Flag>)
    ensures
        r == short_flag(c),
{
    if c == 'r' { Some(Flag::Reverse) }
    else if c == 'l' { Some(Flag::Long) }
    else if c == 'a' { Some(Flag::All) }
    else if c == 'A' { Some(Flag::WholeAll) }
    else if c == 'R' { Some(Flag::Recursive) }
    else if c == 'h' { Some(Flag::Help) }
    else if c == 'V' { Some(Flag::Version) }
    else { None }
}

fn sort_value_of(v: &str) -> (r: Option<SortBy>)
    ensures
        r == sort_value(v@),
{
    let cs = chars_of(v);
    let n = cs.len();
    proof { assert(cs@.subrange(0, n as int) =~= v@); }
    if spells(&cs, 0, n, "name") { Some(SortBy::Name) }
    else if spells(&cs, 0, n, "time") { Some(SortBy::Time) }
    else if spells(&cs, 0, n, "size") { Some(SortBy::Size) }
    else if spells(&cs, 0, n, "extension") { Some(SortBy::Extension) }
    else { None }
}

fn format_value_of(v: &str) -> (r: Option<Format>)
    ensures
        r == format_value(v@),
{
    let cs = chars_of(v);
    let n = cs.len();
    proof { assert(cs@.subrange(0, n as int) =~= v@); }
    if spells(&cs, 0, n, "plain") { Some(Format::Plain) }
    else if spells(&cs, 0, n, "csv") { Some(Format::Csv) }
    else if spells(&cs, 0, n, "json") { Some(Format::Json) }
    else if spells(&cs, 0, n, "yaml") { Some(Format::Yaml) }
    else { None }
}

/// The outcome of a reading step, told against its specification.
pub open spec fn step_matches(r: Result<(), ArgsError>, spec: Result<ArgsState, ArgsFailure>, after: ArgsState) -> bool {
    match r {
        Ok(_) => spec == Ok::<ArgsState, ArgsFailure>(after),
        Err(e) => spec == Err::<ArgsState, ArgsFailure>(e@),
    }
}

fn read_flag(st: &mut Reader, f: Flag) -> (r: Result<(), ArgsError>)
    ensures
        step_matches(r, apply_flag(old(st)@, f), final(st)@),
{
    match f {
        Flag::Help => return Err(ArgsError::DisplayHelp),
        Flag::Version => return Err(ArgsError::DisplayVersion),
        Flag::Reverse => {
            if st.reverse { return Err(ArgsError::RepeatedFlag(f)); }
            st.reverse = true;
        },
        Flag::Long => {
            if st.long { return Err(ArgsError::RepeatedFlag(f)); }
            st.long = true;
        },
        Flag::All => {
            if st.all { return Err(ArgsError::RepeatedFlag(f)); }
            st.all = true;
        },
        Flag::WholeAll => {
            if st.whole_all { return Err(ArgsError::RepeatedFlag(f)); }
            st.whole_all = true;
        },
        Flag::Quote => {
            if st.quote { return Err(ArgsError::RepeatedFlag(f)); }
            st.quote = true;
        },
        Flag::Icon => {
            if st.icon { return Err(ArgsError::RepeatedFlag(f)); }
            st.icon = true;
        },
        Flag::Recursive => {
            if st.recursive { return Err(ArgsError::RepeatedFlag(f)); }
            st.recursive = true;
        },
        Flag::Completions => {
            if st.completions { return Err(ArgsError::RepeatedFlag(f)); }
            st.completions = true;
        },
    }
    Ok(())
}

fn read_value(st: &mut Reader, o: ValueOption, v: String) -> (r: Result<(), ArgsError>)
    ensures
        step_matches(r, apply_value(old(st)@, o, v@), final(st)@),
{
    match o {
        ValueOption::Sort => {
            if st.sort.is_some() {
                return Err(ArgsError::RepeatedOption(o));
            }
            match sort_value_of(v.as_str()) {
                Some(k) => { st.sort = Some(k); Ok(()) },
                None => Err(ArgsError::InvalidValue(o, v)),
            }
        },
        ValueOption::Format => {
            if st.format.is_some() {
                return Err(ArgsError::RepeatedOption(o));
            }
            match format_value_of(v.as_str()) {
                Some(k) => { st.format = Some(k); Ok(()) },
                None => Err(ArgsError::InvalidValue(o, v)),
            }
        },
    }
}

fn read_path(st: &mut Reader, t: String) -> (r: Result<(), ArgsError>)
    ensures
        step_matches(r, apply_path(old(st)@, t@), final(st)@),
{
    if st.path.is_some() {
        return Err(ArgsError::UnexpectedArgument(t));
    }
    if t.as_str().is_empty() {
        return Err(ArgsError::EmptyPath);
    }
    st.path = Some(t);
    Ok(())
}

fn read_shorts(st: &mut Reader, cs: &Vec<char>) -> (r: Result<(), ArgsError>)
    requires
        cs.len() >= 1,
    ensures
        step_matches(r, apply_shorts(old(st)@, cs@.skip(1)), final(st)@),
{
    let mut i: usize = 1;
    while i < cs.len()
        invariant
            1 <= i <= cs.len(),
            apply_shorts(old(st)@, cs@.skip(1)) == apply_shorts(st@, cs@.skip(i as int)),
        decreases cs.len() - i,
    {
        let c = cs[i];
        assert(cs@.skip(i as int)[0] == c);
        assert(cs@.skip(i as int).drop_first() =~= cs@.skip(i + 1));
        match short_flag_of(c) {
            None => {
                let mut t = String::new();
                crate::text::push_char(&mut t, '-');
                crate::text::push_char(&mut t, c);
                assert(t@ =~= seq!['-', c]);
                return Err(ArgsError::UnknownArgument(t));
            },
            Some(f) => {
                let r = read_flag(st, f);
                if r.is_err() {
                    return r;
                }
            },
        }
        i = i + 1;
    }
    Ok(())
}


/// The texts of the arguments.
pub open spec fn arg_views(args: Seq<&str>) -> Seq<Seq<char>> {
    args.map_values(|a: &str| a@)
}

/// Reading a whole command line, program name first.
pub open spec fn parse_args(args: Seq<Seq<char>>) -> Result<ArgsState, ArgsFailure> {
    parse_tokens(initial_state(), after_program(args))
}

/// The outcome of reading the arguments from `i` on, told against reading
/// them all from the state `before`.
pub open spec fn read_matches(
    r: Result<usize, ArgsError>,
    views: Seq<Seq<char>>,
    i: int,
    before: ArgsState,
    after: ArgsState,
) -> bool {
    match r {
        Ok(next) => i < next <= views.len() && parse_tokens(before, views.skip(i)) == parse_tokens(
            after,
            views.skip(next as int),
        ),
        Err(e) => parse_tokens(before, views.skip(i)) == Err::<ArgsState, ArgsFailure>(e@),
    }
}

/// Reads the long option `args[i]` (its characters `t`), and its value where
/// it takes one.
fn read_long(st: &mut Reader, args: &[&str], i: usize, t: &Vec<char>) -> (r: Result<usize, ArgsError>)
    requires
        i < args.len(),
        t@ == args@[i as int]@,
        !old(st)@.only_paths,
        is_option_like(t@),
        t@ != "--"@,
        t@[1] == '-',
    ensures
        read_matches(r, arg_views(args@), i as int, old(st)@, final(st)@),
{
    let ghost views = arg_views(args@);
    let ghost rest = views.skip(i as int);
    assert(rest[0] == t@);
    assert(rest.drop_first() =~= views.skip(i + 1));
    let n = t.len();
    let mut j: usize = 2;
    while j < n && t[j] != '='
        invariant
            n == t.len(),
            2 <= j <= n,
            equals_at(t@.skip(2)) == (j - 2) + equals_at(t@.skip(j as int)),
        decreases n - j,
    {
        assert(t@.skip(j as int).drop_first() =~= t@.skip(j + 1));
        j = j + 1;
    }
    let ghost body = t@.skip(2);
    assert(equals_at(body) == j - 2);
    assert(body.take(j - 2) =~= t@.subrange(2, j as int));
    assert(j < n ==> body.skip(j - 2 + 1) =~= t@.subrange(j + 1, n as int));
    match long_flag_of(t, 2, j) {
        Some(f) => {
            if j < n {
                let v = string_of(t, j + 1, n);
                return Err(ArgsError::UnexpectedValue(f, v));
            }
            match read_flag(st, f) {
                Ok(_) => Ok(i + 1),
                Err(e) => Err(e),
            }
        },
        None => match long_value_option_of(t, 2, j) {
            Some(o) => {
                if j < n {
                    let v = string_of(t, j + 1, n);
                    match read_value(st, o, v) {
                        Ok(_) => Ok(i + 1),
                        Err(e) => Err(e),
                    }
                } else {
                    if i + 1 >= args.len() {
                        assert(rest.drop_first().len() == 0);
                        return Err(ArgsError::MissingValue(o));
                    }
                    let next = chars_of(args[i + 1]);
                    assert(rest.drop_first()[0] == next@);
                    if next.len() >= 2 && next[0] == '-' {
                        return Err(ArgsError::MissingValue(o));
                    }
                    assert(rest.drop_first().drop_first() =~= views.skip(i + 2));
                    match read_value(st, o, args[i + 1].to_string()) {
                        Ok(_) => Ok(i + 2),
                        Err(e) => Err(e),
                    }
                }
            },
            None => Err(ArgsError::UnknownArgument(args[i].to_string())),
        },
    }
}

/// Reads the argument `args[i]`, and the value after it where it is an option
/// that takes one.
fn read_argument(st: &mut Reader, args: &[&str], i: usize) -> (r: Result<usize, ArgsError>)
    requires
        i < args.len(),
    ensures
        read_matches(r, arg_views(args@), i as int, old(st)@, final(st)@),
{
    let ghost views = arg_views(args@);
    let ghost rest = views.skip(i as int);
    assert(rest[0] == args@[i as int]@);
    assert(rest.drop_first() =~= views.skip(i + 1));
    let t = chars_of(args[i]);
    let n = t.len();
    assert(t@.subrange(0, n as int) =~= t@);
    if st.only_paths || !(n >= 2 && t[0] == '-') {
        match read_path(st, args[i].to_string()) {
            Ok(_) => Ok(i + 1),
            Err(e) => Err(e),
        }
    } else if spells(&t, 0, n, "--") {
        st.only_paths = true;
        Ok(i + 1)
    } else if t[1] == '-' {
        read_long(st, args, i, &t)
    } else {
        match read_shorts(st, &t) {
            Ok(_) => Ok(i + 1),
            Err(e) => Err(e),
        }
    }
}

impl Args {
    /// Reads a command line, program name first: `[PATH]` and the options
    /// `--sort <SORT>`, `--format <FORMAT>` (value after `=` or as the next
    /// argument), `-r`/`--reverse`, `-l`/`--long`, `-a`/`--all`,
    /// `-A`/`--whole-all`, `--quote`, `--icon`, `-R`/`--recursive`,
    /// `--completions`, `-h`/`--help`, `-V`/`--version`; one-letter options
    /// may be grouped, after `--` every argument is a path, and the path may
    /// not be empty.
    pub fn try_parse_from(args: &[&str]) -> (r: Result<Args, ArgsError>)
        ensures
            match r {
                Ok(a) => parse_args(arg_views(args@)) matches Ok(s) && args_from_state(a, s),
                Err(e) => parse_args(arg_views(args@)) == Err::<ArgsState, ArgsFailure>(e@),
            },
    {
        let ghost views = arg_views(args@);
        let mut st = Reader {
            path: None,
            sort: None,
            format: None,
            reverse: false,
            long: false,
            all: false,
            whole_all: false,
            quote: false,
            icon: false,
            recursive: false,
            completions: false,
            only_paths: false,
        };
        assert(st@ == initial_state());
        let mut i: usize = if args.len() == 0 { 0 } else { 1 };
        assert(after_program(views) =~= views.skip(i as int));
        while i < args.len()
            invariant
                views == arg_views(args@),
                i <= args.len(),
                parse_args(views) == parse_tokens(st@, views.skip(i as int)),
            decreases args.len() - i,
        {
            match read_argument(&mut st, args, i) {
                Ok(next) => i = next,
                Err(e) => return Err(e),
            }
        }
        assert(views.skip(i as int).len() == 0);
        Ok(Args {
            path: match st.path {
                Some(p) => p,
                None => ".".to_string(),
            },
            sort: match st.sort {
                Some(k) => k,
                None => SortBy::Name,
            },
            format: match st.format {
                Some(f) => f,
                None => Format::Plain,
            },
            reverse: st.reverse,
            long: st.long,
            all: st.all,
            whole_all: st.whole_all,
            quote: st.quote,
            icon: st.icon,
            recursive: st.recursive,
            completions: st.completions,
        })
    }
}

} // verus!
