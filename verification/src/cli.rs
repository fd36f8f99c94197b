//! The command line: options, their values and the messages for bad ones.
use vstd::prelude::*;
use crate::number::{decimal, parse_usize_str, parsed_usize};
use crate::text::chars_of;
use crate::top_rss::{Layout, Unit};

verus! {

/// What the report is to show.
pub struct Settings {
    pub ungroup: bool,
    pub how_many: usize,
    pub layout: Layout,
    pub unit: Option<Unit>,
    pub group_count: bool,
    pub path: String,
}

/// The settings as values.
pub ghost struct SettingsView {
    pub ungroup: bool,
    pub how_many: usize,
    pub layout: Layout,
    pub unit: Option<Unit>,
    pub group_count: bool,
    pub path: Seq<char>,
}

impl Settings {
    /// The settings as values.
    pub open spec fn view(&self) -> SettingsView {
        SettingsView {
            ungroup: self.ungroup,
            how_many: self.how_many,
            layout: self.layout,
            unit: self.unit,
            group_count: self.group_count,
            path: self.path@,
        }
    }
}

/// What the command line asks for.
pub enum Command {
    /// Print the help text.
    Help,
    /// Print the version.
    Version,
    /// Print nothing: no process is to be shown.
    Quiet,
    /// Print the report.
    Report(Settings),
    /// Print the message as an error.
    Fail(String),
}

/// What the command line asks for, as values.
pub ghost enum Parsed {
    Help,
    Version,
    Quiet,
    Report(SettingsView),
    Fail(Seq<char>),
}

impl Command {
    /// What the command asks for, as values.
    pub open spec fn view(&self) -> Parsed {
        match self {
            Command::Help => Parsed::Help,
            Command::Version => Parsed::Version,
            Command::Quiet => Parsed::Quiet,
            Command::Report(s) => Parsed::Report(s@),
            Command::Fail(m) => Parsed::Fail(m@),
        }
    }
}

/// The option that points the report at another process directory.
pub const PATH_OPTION: &'static str =
    "--run-tests-this-option-is-hidden-and-intended-to-be-used-to-perform-tests-by-developer-this-option-name-is-annoingly-long-for-a-purpose";

/// The settings before any option: three processes grouped by name on one
/// line, in the unit that fits each, read from `/proc`.
pub open spec fn default_settings() -> SettingsView {
    SettingsView {
        ungroup: false,
        how_many: 3,
        layout: Layout::Line,
        unit: None,
        group_count: false,
        path: "/proc"@,
    }
}

/// The message for an option `-n` without a number.
pub open spec fn missing_number_message() -> Seq<char> {
    "Error: found option '-n', but no number was provided"@
}

/// The message for a number that cannot be read.
pub open spec fn bad_number_message(arg: Seq<char>) -> Seq<char> {
    "Error: Could not parse '"@ + arg + "' into unsigned integer"@
}

/// The message for the path option without a path.
pub open spec fn missing_path_message() -> Seq<char> {
    "Error: found option '"@ + PATH_OPTION@ + "', but no path was provided"@
}

/// The message for a path that does not exist.
pub open spec fn no_such_path_message(arg: Seq<char>) -> Seq<char> {
    "Error: Path '"@ + arg + "' does not exists"@
}

/// The message for an option that is not known.
pub open spec fn unknown_message(arg: Seq<char>) -> Seq<char> {
    "Error: Unknown argument '"@ + arg + "'"@
}

/// `a` is one of the spellings `b`, `c`.
pub open spec fn either(a: Seq<char>, b: &str, c: &str) -> bool {
    a == b@ || a == c@
}

/// What the options from position `i` on ask for, given the settings so far;
/// `exists[j]` tells whether `args[j]` names an existing path. Options are
/// taken one by one; help, version and the first bad option end the reading.
pub open spec fn parse_from(args: Seq<Seq<char>>, exists: Seq<bool>, i: int, s: SettingsView) -> Parsed
    decreases args.len() - i,
{
    if i < 0 || i >= args.len() {
        if s.how_many == 0 {
            Parsed::Quiet
        } else {
            Parsed::Report(s)
        }
    } else {
        let a = args[i];
        if either(a, "-h", "--help") || either(a, "-H", "-?") {
            Parsed::Help
        } else if either(a, "-v", "--version") {
            Parsed::Version
        } else if either(a, "-u", "--ungroup") {
            parse_from(args, exists, i + 1, SettingsView { ungroup: true, ..s })
        } else if either(a, "-g", "--group") {
            parse_from(args, exists, i + 1, SettingsView { ungroup: false, ..s })
        } else if a == "-n"@ {
            if i + 1 < args.len() {
                match parsed_usize(args[i + 1]) {
                    Some(n) => parse_from(args, exists, i + 2, SettingsView { how_many: n, ..s }),
                    None => Parsed::Fail(bad_number_message(args[i + 1])),
                }
            } else {
                Parsed::Fail(missing_number_message())
            }
        } else if either(a, "-l", "--lines") {
            parse_from(args, exists, i + 1, SettingsView { layout: Layout::Lines, ..s })
        } else if either(a, "-o", "--line") {
            parse_from(args, exists, i + 1, SettingsView { layout: Layout::Line, ..s })
        } else if either(a, "-a", "--all") {
            parse_from(args, exists, i + 1, SettingsView { how_many: usize::MAX, ..s })
        } else if a == "--group-count"@ {
            parse_from(args, exists, i + 1, SettingsView { group_count: true, ..s })
        } else if a == "--kb"@ {
            parse_from(args, exists, i + 1, SettingsView { unit: Some(Unit::kB), ..s })
        } else if a == "--mb"@ {
            parse_from(args, exists, i + 1, SettingsView { unit: Some(Unit::MB), ..s })
        } else if a == "--gb"@ {
            parse_from(args, exists, i + 1, SettingsView { unit: Some(Unit::GB), ..s })
        } else if either(a, "-s", "--smart") {
            parse_from(args, exists, i + 1, SettingsView { unit: None, ..s })
        } else if a == PATH_OPTION@ {
            if i + 1 < args.len() {
                if exists[i + 1] {
                    parse_from(args, exists, i + 2, SettingsView { path: args[i + 1], ..s })
                } else {
                    Parsed::Fail(no_such_path_message(args[i + 1]))
                }
            } else {
                Parsed::Fail(missing_path_message())
            }
        } else {
            Parsed::Fail(unknown_message(a))
        }
    }
}

/// The spellings of the options are all different.
pub proof fn lemma_option_spellings_differ()
    ensures
        "-h"@ != "--help"@,
        "-h"@ != "-H"@,
        "-h"@ != "-?"@,
        "-h"@ != "-v"@,
        "-h"@ != "--version"@,
        "-h"@ != "-u"@,
        "-h"@ != "--ungroup"@,
        "-h"@ != "-g"@,
        "-h"@ != "--group"@,
        "-h"@ != "-n"@,
        "-h"@ != "-l"@,
        "-h"@ != "--lines"@,
        "-h"@ != "-o"@,
        "-h"@ != "--line"@,
        "-h"@ != "-a"@,
        "-h"@ != "--all"@,
        "-h"@ != "--group-count"@,
        "-h"@ != "--kb"@,
        "-h"@ != "--mb"@,
        "-h"@ != "--gb"@,
        "-h"@ != "-s"@,
        "-h"@ != "--smart"@,
        "-h"@ != PATH_OPTION@,
        "--help"@ != "-H"@,
        "--help"@ != "-?"@,
        "--help"@ != "-v"@,
        "--help"@ != "--version"@,
        "--help"@ != "-u"@,
        "--help"@ != "--ungroup"@,
        "--help"@ != "-g"@,
        "--help"@ != "--group"@,
        "--help"@ != "-n"@,
        "--help"@ != "-l"@,
        "--help"@ != "--lines"@,
        "--help"@ != "-o"@,
        "--help"@ != "--line"@,
        "--help"@ != "-a"@,
        "--help"@ != "--all"@,
        "--help"@ != "--group-count"@,
        "--help"@ != "--kb"@,
        "--help"@ != "--mb"@,
        "--help"@ != "--gb"@,
        "--help"@ != "-s"@,
        "--help"@ != "--smart"@,
        "--help"@ != PATH_OPTION@,
        "-H"@ != "-?"@,
        "-H"@ != "-v"@,
        "-H"@ != "--version"@,
        "-H"@ != "-u"@,
        "-H"@ != "--ungroup"@,
        "-H"@ != "-g"@,
        "-H"@ != "--group"@,
        "-H"@ != "-n"@,
        "-H"@ != "-l"@,
        "-H"@ != "--lines"@,
        "-H"@ != "-o"@,
        "-H"@ != "--line"@,
        "-H"@ != "-a"@,
        "-H"@ != "--all"@,
        "-H"@ != "--group-count"@,
        "-H"@ != "--kb"@,
        "-H"@ != "--mb"@,
        "-H"@ != "--gb"@,
        "-H"@ != "-s"@,
        "-H"@ != "--smart"@,
        "-H"@ != PATH_OPTION@,
        "-?"@ != "-v"@,
        "-?"@ != "--version"@,
        "-?"@ != "-u"@,
        "-?"@ != "--ungroup"@,
        "-?"@ != "-g"@,
        "-?"@ != "--group"@,
        "-?"@ != "-n"@,
        "-?"@ != "-l"@,
        "-?"@ != "--lines"@,
        "-?"@ != "-o"@,
        "-?"@ != "--line"@,
        "-?"@ != "-a"@,
        "-?"@ != "--all"@,
        "-?"@ != "--group-count"@,
        "-?"@ != "--kb"@,
        "-?"@ != "--mb"@,
        "-?"@ != "--gb"@,
        "-?"@ != "-s"@,
        "-?"@ != "--smart"@,
        "-?"@ != PATH_OPTION@,
        "-v"@ != "--version"@,
        "-v"@ != "-u"@,
        "-v"@ != "--ungroup"@,
        "-v"@ != "-g"@,
        "-v"@ != "--group"@,
        "-v"@ != "-n"@,
        "-v"@ != "-l"@,
        "-v"@ != "--lines"@,
        "-v"@ != "-o"@,
        "-v"@ != "--line"@,
        "-v"@ != "-a"@,
        "-v"@ != "--all"@,
        "-v"@ != "--group-count"@,
        "-v"@ != "--kb"@,
        "-v"@ != "--mb"@,
        "-v"@ != "--gb"@,
        "-v"@ != "-s"@,
        "-v"@ != "--smart"@,
        "-v"@ != PATH_OPTION@,
        "--version"@ != "-u"@,
        "--version"@ != "--ungroup"@,
        "--version"@ != "-g"@,
        "--version"@ != "--group"@,
        "--version"@ != "-n"@,
        "--version"@ != "-l"@,
        "--version"@ != "--lines"@,
        "--version"@ != "-o"@,
        "--version"@ != "--line"@,
        "--version"@ != "-a"@,
        "--version"@ != "--all"@,
        "--version"@ != "--group-count"@,
        "--version"@ != "--kb"@,
        "--version"@ != "--mb"@,
        "--version"@ != "--gb"@,
        "--version"@ != "-s"@,
        "--version"@ != "--smart"@,
        "--version"@ != PATH_OPTION@,
        "-u"@ != "--ungroup"@,
        "-u"@ != "-g"@,
        "-u"@ != "--group"@,
        "-u"@ != "-n"@,
        "-u"@ != "-l"@,
        "-u"@ != "--lines"@,
        "-u"@ != "-o"@,
        "-u"@ != "--line"@,
        "-u"@ != "-a"@,
        "-u"@ != "--all"@,
        "-u"@ != "--group-count"@,
        "-u"@ != "--kb"@,
        "-u"@ != "--mb"@,
        "-u"@ != "--gb"@,
        "-u"@ != "-s"@,
        "-u"@ != "--smart"@,
        "-u"@ != PATH_OPTION@,
        "--ungroup"@ != "-g"@,
        "--ungroup"@ != "--group"@,
        "--ungroup"@ != "-n"@,
        "--ungroup"@ != "-l"@,
        "--ungroup"@ != "--lines"@,
        "--ungroup"@ != "-o"@,
        "--ungroup"@ != "--line"@,
        "--ungroup"@ != "-a"@,
        "--ungroup"@ != "--all"@,
        "--ungroup"@ != "--group-count"@,
        "--ungroup"@ != "--kb"@,
        "--ungroup"@ != "--mb"@,
        "--ungroup"@ != "--gb"@,
        "--ungroup"@ != "-s"@,
        "--ungroup"@ != "--smart"@,
        "--ungroup"@ != PATH_OPTION@,
        "-g"@ != "--group"@,
        "-g"@ != "-n"@,
        "-g"@ != "-l"@,
        "-g"@ != "--lines"@,
        "-g"@ != "-o"@,
        "-g"@ != "--line"@,
        "-g"@ != "-a"@,
        "-g"@ != "--all"@,
        "-g"@ != "--group-count"@,
        "-g"@ != "--kb"@,
        "-g"@ != "--mb"@,
        "-g"@ != "--gb"@,
        "-g"@ != "-s"@,
        "-g"@ != "--smart"@,
        "-g"@ != PATH_OPTION@,
        "--group"@ != "-n"@,
        "--group"@ != "-l"@,
        "--group"@ != "--lines"@,
        "--group"@ != "-o"@,
        "--group"@ != "--line"@,
        "--group"@ != "-a"@,
        "--group"@ != "--all"@,
        "--group"@ != "--group-count"@,
        "--group"@ != "--kb"@,
        "--group"@ != "--mb"@,
        "--group"@ != "--gb"@,
        "--group"@ != "-s"@,
        "--group"@ != "--smart"@,
        "--group"@ != PATH_OPTION@,
        "-n"@ != "-l"@,
        "-n"@ != "--lines"@,
        "-n"@ != "-o"@,
        "-n"@ != "--line"@,
        "-n"@ != "-a"@,
        "-n"@ != "--all"@,
        "-n"@ != "--group-count"@,
        "-n"@ != "--kb"@,
        "-n"@ != "--mb"@,
        "-n"@ != "--gb"@,
        "-n"@ != "-s"@,
        "-n"@ != "--smart"@,
        "-n"@ != PATH_OPTION@,
        "-l"@ != "--lines"@,
        "-l"@ != "-o"@,
        "-l"@ != "--line"@,
        "-l"@ != "-a"@,
        "-l"@ != "--all"@,
        "-l"@ != "--group-count"@,
        "-l"@ != "--kb"@,
        "-l"@ != "--mb"@,
        "-l"@ != "--gb"@,
        "-l"@ != "-s"@,
        "-l"@ != "--smart"@,
        "-l"@ != PATH_OPTION@,
        "--lines"@ != "-o"@,
        "--lines"@ != "--line"@,
        "--lines"@ != "-a"@,
        "--lines"@ != "--all"@,
        "--lines"@ != "--group-count"@,
        "--lines"@ != "--kb"@,
        "--lines"@ != "--mb"@,
        "--lines"@ != "--gb"@,
        "--lines"@ != "-s"@,
        "--lines"@ != "--smart"@,
        "--lines"@ != PATH_OPTION@,
        "-o"@ != "--line"@,
        "-o"@ != "-a"@,
        "-o"@ != "--all"@,
        "-o"@ != "--group-count"@,
        "-o"@ != "--kb"@,
        "-o"@ != "--mb"@,
        "-o"@ != "--gb"@,
        "-o"@ != "-s"@,
        "-o"@ != "--smart"@,
        "-o"@ != PATH_OPTION@,
        "--line"@ != "-a"@,
        "--line"@ != "--all"@,
        "--line"@ != "--group-count"@,
        "--line"@ != "--kb"@,
        "--line"@ != "--mb"@,
        "--line"@ != "--gb"@,
        "--line"@ != "-s"@,
        "--line"@ != "--smart"@,
        "--line"@ != PATH_OPTION@,
        "-a"@ != "--all"@,
        "-a"@ != "--group-count"@,
        "-a"@ != "--kb"@,
        "-a"@ != "--mb"@,
        "-a"@ != "--gb"@,
        "-a"@ != "-s"@,
        "-a"@ != "--smart"@,
        "-a"@ != PATH_OPTION@,
        "--all"@ != "--group-count"@,
        "--all"@ != "--kb"@,
        "--all"@ != "--mb"@,
        "--all"@ != "--gb"@,
        "--all"@ != "-s"@,
        "--all"@ != "--smart"@,
        "--all"@ != PATH_OPTION@,
        "--group-count"@ != "--kb"@,
        "--group-count"@ != "--mb"@,
        "--group-count"@ != "--gb"@,
        "--group-count"@ != "-s"@,
        "--group-count"@ != "--smart"@,
        "--group-count"@ != PATH_OPTION@,
        "--kb"@ != "--mb"@,
        "--kb"@ != "--gb"@,
        "--kb"@ != "-s"@,
        "--kb"@ != "--smart"@,
        "--kb"@ != PATH_OPTION@,
        "--mb"@ != "--gb"@,
        "--mb"@ != "-s"@,
        "--mb"@ != "--smart"@,
        "--mb"@ != PATH_OPTION@,
        "--gb"@ != "-s"@,
        "--gb"@ != "--smart"@,
        "--gb"@ != PATH_OPTION@,
        "-s"@ != "--smart"@,
        "-s"@ != PATH_OPTION@,
        "--smart"@ != PATH_OPTION@,
{
    reveal_strlit("-h");
    reveal_strlit("--help");
    reveal_strlit("-H");
    reveal_strlit("-?");
    reveal_strlit("-v");
    reveal_strlit("--version");
    reveal_strlit("-u");
    reveal_strlit("--ungroup");
    reveal_strlit("-g");
    reveal_strlit("--group");
    reveal_strlit("-n");
    reveal_strlit("-l");
    reveal_strlit("--lines");
    reveal_strlit("-o");
    reveal_strlit("--line");
    reveal_strlit("-a");
    reveal_strlit("--all");
    reveal_strlit("--group-count");
    reveal_strlit("--kb");
    reveal_strlit("--mb");
    reveal_strlit("--gb");
    reveal_strlit("-s");
    reveal_strlit("--smart");
    reveal_strlit("--run-tests-this-option-is-hidden-and-intended-to-be-used-to-perform-tests-by-developer-this-option-name-is-annoingly-long-for-a-purpose");
    assert("-h"@.len() != "--help"@.len());
    assert("-h"@[1] != "-H"@[1]);
    assert("-h"@[1] != "-?"@[1]);
    assert("-h"@[1] != "-v"@[1]);
    assert("-h"@.len() != "--version"@.len());
    assert("-h"@[1] != "-u"@[1]);
    assert("-h"@.len() != "--ungroup"@.len());
    assert("-h"@[1] != "-g"@[1]);
    assert("-h"@.len() != "--group"@.len());
    assert("-h"@[1] != "-n"@[1]);
    assert("-h"@[1] != "-l"@[1]);
    assert("-h"@.len() != "--lines"@.len());
    assert("-h"@[1] != "-o"@[1]);
    assert("-h"@.len() != "--line"@.len());
    assert("-h"@[1] != "-a"@[1]);
    assert("-h"@.len() != "--all"@.len());
    assert("-h"@.len() != "--group-count"@.len());
    assert("-h"@.len() != "--kb"@.len());
    assert("-h"@.len() != "--mb"@.len());
    assert("-h"@.len() != "--gb"@.len());
    assert("-h"@[1] != "-s"@[1]);
    assert("-h"@.len() != "--smart"@.len());
    assert("-h"@.len() != PATH_OPTION@.len());
    assert("--help"@.len() != "-H"@.len());
    assert("--help"@.len() != "-?"@.len());
    assert("--help"@.len() != "-v"@.len());
    assert("--help"@.len() != "--version"@.len());
    assert("--help"@.len() != "-u"@.len());
    assert("--help"@.len() != "--ungroup"@.len());
    assert("--help"@.len() != "-g"@.len());
    assert("--help"@.len() != "--group"@.len());
    assert("--help"@.len() != "-n"@.len());
    assert("--help"@.len() != "-l"@.len());
    assert("--help"@.len() != "--lines"@.len());
    assert("--help"@.len() != "-o"@.len());
    assert("--help"@[2] != "--line"@[2]);
    assert("--help"@.len() != "-a"@.len());
    assert("--help"@.len() != "--all"@.len());
    assert("--help"@.len() != "--group-count"@.len());
    assert("--help"@.len() != "--kb"@.len());
    assert("--help"@.len() != "--mb"@.len());
    assert("--help"@.len() != "--gb"@.len());
    assert("--help"@.len() != "-s"@.len());
    assert("--help"@.len() != "--smart"@.len());
    assert("--help"@.len() != PATH_OPTION@.len());
    assert("-H"@[1] != "-?"@[1]);
    assert("-H"@[1] != "-v"@[1]);
    assert("-H"@.len() != "--version"@.len());
    assert("-H"@[1] != "-u"@[1]);
    assert("-H"@.len() != "--ungroup"@.len());
    assert("-H"@[1] != "-g"@[1]);
    assert("-H"@.len() != "--group"@.len());
    assert("-H"@[1] != "-n"@[1]);
    assert("-H"@[1] != "-l"@[1]);
    assert("-H"@.len() != "--lines"@.len());
    assert("-H"@[1] != "-o"@[1]);
    assert("-H"@.len() != "--line"@.len());
    assert("-H"@[1] != "-a"@[1]);
    assert("-H"@.len() != "--all"@.len());
    assert("-H"@.len() != "--group-count"@.len());
    assert("-H"@.len() != "--kb"@.len());
    assert("-H"@.len() != "--mb"@.len());
    assert("-H"@.len() != "--gb"@.len());
    assert("-H"@[1] != "-s"@[1]);
    assert("-H"@.len() != "--smart"@.len());
    assert("-H"@.len() != PATH_OPTION@.len());
    assert("-?"@[1] != "-v"@[1]);
    assert("-?"@.len() != "--version"@.len());
    assert("-?"@[1] != "-u"@[1]);
    assert("-?"@.len() != "--ungroup"@.len());
    assert("-?"@[1] != "-g"@[1]);
    assert("-?"@.len() != "--group"@.len());
    assert("-?"@[1] != "-n"@[1]);
    assert("-?"@[1] != "-l"@[1]);
    assert("-?"@.len() != "--lines"@.len());
    assert("-?"@[1] != "-o"@[1]);
    assert("-?"@.len() != "--line"@.len());
    assert("-?"@[1] != "-a"@[1]);
    assert("-?"@.len() != "--all"@.len());
    assert("-?"@.len() != "--group-count"@.len());
    assert("-?"@.len() != "--kb"@.len());
    assert("-?"@.len() != "--mb"@.len());
    assert("-?"@.len() != "--gb"@.len());
    assert("-?"@[1] != "-s"@[1]);
    assert("-?"@.len() != "--smart"@.len());
    assert("-?"@.len() != PATH_OPTION@.len());
    assert("-v"@.len() != "--version"@.len());
    assert("-v"@[1] != "-u"@[1]);
    assert("-v"@.len() != "--ungroup"@.len());
    assert("-v"@[1] != "-g"@[1]);
    assert("-v"@.len() != "--group"@.len());
    assert("-v"@[1] != "-n"@[1]);
    assert("-v"@[1] != "-l"@[1]);
    assert("-v"@.len() != "--lines"@.len());
    assert("-v"@[1] != "-o"@[1]);
    assert("-v"@.len() != "--line"@.len());
    assert("-v"@[1] != "-a"@[1]);
    assert("-v"@.len() != "--all"@.len());
    assert("-v"@.len() != "--group-count"@.len());
    assert("-v"@.len() != "--kb"@.len());
    assert("-v"@.len() != "--mb"@.len());
    assert("-v"@.len() != "--gb"@.len());
    assert("-v"@[1] != "-s"@[1]);
    assert("-v"@.len() != "--smart"@.len());
    assert("-v"@.len() != PATH_OPTION@.len());
    assert("--version"@.len() != "-u"@.len());
    assert("--version"@[2] != "--ungroup"@[2]);
    assert("--version"@.len() != "-g"@.len());
    assert("--version"@.len() != "--group"@.len());
    assert("--version"@.len() != "-n"@.len());
    assert("--version"@.len() != "-l"@.len());
    assert("--version"@.len() != "--lines"@.len());
    assert("--version"@.len() != "-o"@.len());
    assert("--version"@.len() != "--line"@.len());
    assert("--version"@.len() != "-a"@.len());
    assert("--version"@.len() != "--all"@.len());
    assert("--version"@.len() != "--group-count"@.len());
    assert("--version"@.len() != "--kb"@.len());
    assert("--version"@.len() != "--mb"@.len());
    assert("--version"@.len() != "--gb"@.len());
    assert("--version"@.len() != "-s"@.len());
    assert("--version"@.len() != "--smart"@.len());
    assert("--version"@.len() != PATH_OPTION@.len());
    assert("-u"@.len() != "--ungroup"@.len());
    assert("-u"@[1] != "-g"@[1]);
    assert("-u"@.len() != "--group"@.len());
    assert("-u"@[1] != "-n"@[1]);
    assert("-u"@[1] != "-l"@[1]);
    assert("-u"@.len() != "--lines"@.len());
    assert("-u"@[1] != "-o"@[1]);
    assert("-u"@.len() != "--line"@.len());
    assert("-u"@[1] != "-a"@[1]);
    assert("-u"@.len() != "--all"@.len());
    assert("-u"@.len() != "--group-count"@.len());
    assert("-u"@.len() != "--kb"@.len());
    assert("-u"@.len() != "--mb"@.len());
    assert("-u"@.len() != "--gb"@.len());
    assert("-u"@[1] != "-s"@[1]);
    assert("-u"@.len() != "--smart"@.len());
    assert("-u"@.len() != PATH_OPTION@.len());
    assert("--ungroup"@.len() != "-g"@.len());
    assert("--ungroup"@.len() != "--group"@.len());
    assert("--ungroup"@.len() != "-n"@.len());
    assert("--ungroup"@.len() != "-l"@.len());
    assert("--ungroup"@.len() != "--lines"@.len());
    assert("--ungroup"@.len() != "-o"@.len());
    assert("--ungroup"@.len() != "--line"@.len());
    assert("--ungroup"@.len() != "-a"@.len());
    assert("--ungroup"@.len() != "--all"@.len());
    assert("--ungroup"@.len() != "--group-count"@.len());
    assert("--ungroup"@.len() != "--kb"@.len());
    assert("--ungroup"@.len() != "--mb"@.len());
    assert("--ungroup"@.len() != "--gb"@.len());
    assert("--ungroup"@.len() != "-s"@.len());
    assert("--ungroup"@.len() != "--smart"@.len());
    assert("--ungroup"@.len() != PATH_OPTION@.len());
    assert("-g"@.len() != "--group"@.len());
    assert("-g"@[1] != "-n"@[1]);
    assert("-g"@[1] != "-l"@[1]);
    assert("-g"@.len() != "--lines"@.len());
    assert("-g"@[1] != "-o"@[1]);
    assert("-g"@.len() != "--line"@.len());
    assert("-g"@[1] != "-a"@[1]);
    assert("-g"@.len() != "--all"@.len());
    assert("-g"@.len() != "--group-count"@.len());
    assert("-g"@.len() != "--kb"@.len());
    assert("-g"@.len() != "--mb"@.len());
    assert("-g"@.len() != "--gb"@.len());
    assert("-g"@[1] != "-s"@[1]);
    assert("-g"@.len() != "--smart"@.len());
    assert("-g"@.len() != PATH_OPTION@.len());
    assert("--group"@.len() != "-n"@.len());
    assert("--group"@.len() != "-l"@.len());
    assert("--group"@[2] != "--lines"@[2]);
    assert("--group"@.len() != "-o"@.len());
    assert("--group"@.len() != "--line"@.len());
    assert("--group"@.len() != "-a"@.len());
    assert("--group"@.len() != "--all"@.len());
    assert("--group"@.len() != "--group-count"@.len());
    assert("--group"@.len() != "--kb"@.len());
    assert("--group"@.len() != "--mb"@.len());
    assert("--group"@.len() != "--gb"@.len());
    assert("--group"@.len() != "-s"@.len());
    assert("--group"@[2] != "--smart"@[2]);
    assert("--group"@.len() != PATH_OPTION@.len());
    assert("-n"@[1] != "-l"@[1]);
    assert("-n"@.len() != "--lines"@.len());
    assert("-n"@[1] != "-o"@[1]);
    assert("-n"@.len() != "--line"@.len());
    assert("-n"@[1] != "-a"@[1]);
    assert("-n"@.len() != "--all"@.len());
    assert("-n"@.len() != "--group-count"@.len());
    assert("-n"@.len() != "--kb"@.len());
    assert("-n"@.len() != "--mb"@.len());
    assert("-n"@.len() != "--gb"@.len());
    assert("-n"@[1] != "-s"@[1]);
    assert("-n"@.len() != "--smart"@.len());
    assert("-n"@.len() != PATH_OPTION@.len());
    assert("-l"@.len() != "--lines"@.len());
    assert("-l"@[1] != "-o"@[1]);
    assert("-l"@.len() != "--line"@.len());
    assert("-l"@[1] != "-a"@[1]);
    assert("-l"@.len() != "--all"@.len());
    assert("-l"@.len() != "--group-count"@.len());
    assert("-l"@.len() != "--kb"@.len());
    assert("-l"@.len() != "--mb"@.len());
    assert("-l"@.len() != "--gb"@.len());
    assert("-l"@[1] != "-s"@[1]);
    assert("-l"@.len() != "--smart"@.len());
    assert("-l"@.len() != PATH_OPTION@.len());
    assert("--lines"@.len() != "-o"@.len());
    assert("--lines"@.len() != "--line"@.len());
    assert("--lines"@.len() != "-a"@.len());
    assert("--lines"@.len() != "--all"@.len());
    assert("--lines"@.len() != "--group-count"@.len());
    assert("--lines"@.len() != "--kb"@.len());
    assert("--lines"@.len() != "--mb"@.len());
    assert("--lines"@.len() != "--gb"@.len());
    assert("--lines"@.len() != "-s"@.len());
    assert("--lines"@[2] != "--smart"@[2]);
    assert("--lines"@.len() != PATH_OPTION@.len());
    assert("-o"@.len() != "--line"@.len());
    assert("-o"@[1] != "-a"@[1]);
    assert("-o"@.len() != "--all"@.len());
    assert("-o"@.len() != "--group-count"@.len());
    assert("-o"@.len() != "--kb"@.len());
    assert("-o"@.len() != "--mb"@.len());
    assert("-o"@.len() != "--gb"@.len());
    assert("-o"@[1] != "-s"@[1]);
    assert("-o"@.len() != "--smart"@.len());
    assert("-o"@.len() != PATH_OPTION@.len());
    assert("--line"@.len() != "-a"@.len());
    assert("--line"@.len() != "--all"@.len());
    assert("--line"@.len() != "--group-count"@.len());
    assert("--line"@.len() != "--kb"@.len());
    assert("--line"@.len() != "--mb"@.len());
    assert("--line"@.len() != "--gb"@.len());
    assert("--line"@.len() != "-s"@.len());
    assert("--line"@.len() != "--smart"@.len());
    assert("--line"@.len() != PATH_OPTION@.len());
    assert("-a"@.len() != "--all"@.len());
    assert("-a"@.len() != "--group-count"@.len());
    assert("-a"@.len() != "--kb"@.len());
    assert("-a"@.len() != "--mb"@.len());
    assert("-a"@.len() != "--gb"@.len());
    assert("-a"@[1] != "-s"@[1]);
    assert("-a"@.len() != "--smart"@.len());
    assert("-a"@.len() != PATH_OPTION@.len());
    assert("--all"@.len() != "--group-count"@.len());
    assert("--all"@.len() != "--kb"@.len());
    assert("--all"@.len() != "--mb"@.len());
    assert("--all"@.len() != "--gb"@.len());
    assert("--all"@.len() != "-s"@.len());
    assert("--all"@.len() != "--smart"@.len());
    assert("--all"@.len() != PATH_OPTION@.len());
    assert("--group-count"@.len() != "--kb"@.len());
    assert("--group-count"@.len() != "--mb"@.len());
    assert("--group-count"@.len() != "--gb"@.len());
    assert("--group-count"@.len() != "-s"@.len());
    assert("--group-count"@.len() != "--smart"@.len());
    assert("--group-count"@.len() != PATH_OPTION@.len());
    assert("--kb"@[2] != "--mb"@[2]);
    assert("--kb"@[2] != "--gb"@[2]);
    assert("--kb"@.len() != "-s"@.len());
    assert("--kb"@.len() != "--smart"@.len());
    assert("--kb"@.len() != PATH_OPTION@.len());
    assert("--mb"@[2] != "--gb"@[2]);
    assert("--mb"@.len() != "-s"@.len());
    assert("--mb"@.len() != "--smart"@.len());
    assert("--mb"@.len() != PATH_OPTION@.len());
    assert("--gb"@.len() != "-s"@.len());
    assert("--gb"@.len() != "--smart"@.len());
    assert("--gb"@.len() != PATH_OPTION@.len());
    assert("-s"@.len() != "--smart"@.len());
    assert("-s"@.len() != PATH_OPTION@.len());
    assert("--smart"@.len() != PATH_OPTION@.len());
}

/// What reading one option does, whatever comes before or after it: `-u`
/// and `--ungroup` list each process on its own, `-g` and `--group` gather
/// them by name, `-n N` takes exactly the next argument as the number of
/// processes and reading goes on after it, `-l`/`--lines` and `-o`/`--line`
/// choose the layout, `-a`/`--all` shows every process, `--group-count` shows
/// the counts, `--kb`, `--mb` and `--gb` choose the unit and `-s`/`--smart`
/// lets each amount take the unit that fits; help and version end the reading.
pub proof fn lemma_option_effects(args: Seq<Seq<char>>, exists: Seq<bool>, i: int, s: SettingsView)
    requires
        0 <= i < args.len(),
    ensures
        args[i] == "-u"@ || args[i] == "--ungroup"@ ==> parse_from(args, exists, i, s) == parse_from(
            args,
            exists,
            i + 1,
            SettingsView { ungroup: true, ..s },
        ),
        args[i] == "-g"@ || args[i] == "--group"@ ==> parse_from(args, exists, i, s) == parse_from(
            args,
            exists,
            i + 1,
            SettingsView { ungroup: false, ..s },
        ),
        args[i] == "-n"@ && i + 1 < args.len() ==> match parsed_usize(args[i + 1]) {
            Some(n) => parse_from(args, exists, i, s) == parse_from(
                args,
                exists,
                i + 2,
                SettingsView { how_many: n, ..s },
            ),
            None => parse_from(args, exists, i, s) == Parsed::Fail(bad_number_message(args[i + 1])),
        },
        args[i] == "-n"@ && i + 1 == args.len() ==> parse_from(args, exists, i, s) == Parsed::Fail(
            missing_number_message(),
        ),
        args[i] == "-l"@ || args[i] == "--lines"@ ==> parse_from(args, exists, i, s) == parse_from(
            args,
            exists,
            i + 1,
            SettingsView { layout: Layout::Lines, ..s },
        ),
        args[i] == "-o"@ || args[i] == "--line"@ ==> parse_from(args, exists, i, s) == parse_from(
            args,
            exists,
            i + 1,
            SettingsView { layout: Layout::Line, ..s },
        ),
        args[i] == "-a"@ || args[i] == "--all"@ ==> parse_from(args, exists, i, s) == parse_from(
            args,
            exists,
            i + 1,
            SettingsView { how_many: usize::MAX, ..s },
        ),
        args[i] == "--group-count"@ ==> parse_from(args, exists, i, s) == parse_from(
            args,
            exists,
            i + 1,
            SettingsView { group_count: true, ..s },
        ),
        args[i] == "--kb"@ ==> parse_from(args, exists, i, s) == parse_from(
            args,
            exists,
            i + 1,
            SettingsView { unit: Some(Unit::kB), ..s },
        ),
        args[i] == "--mb"@ ==> parse_from(args, exists, i, s) == parse_from(
            args,
            exists,
            i + 1,
            SettingsView { unit: Some(Unit::MB), ..s },
        ),
        args[i] == "--gb"@ ==> parse_from(args, exists, i, s) == parse_from(
            args,
            exists,
            i + 1,
            SettingsView { unit: Some(Unit::GB), ..s },
        ),
        args[i] == "-s"@ || args[i] == "--smart"@ ==> parse_from(args, exists, i, s) == parse_from(
            args,
            exists,
            i + 1,
            SettingsView { unit: None, ..s },
        ),
        args[i] == "-h"@ || args[i] == "--help"@ || args[i] == "-H"@ || args[i] == "-?"@ ==> parse_from(
            args,
            exists,
            i,
            s,
        ) == Parsed::Help,
        args[i] == "-v"@ || args[i] == "--version"@ ==> parse_from(args, exists, i, s)
            == Parsed::Version,
        args[i] == PATH_OPTION@ && i + 1 < args.len() && exists[i + 1] ==> parse_from(args, exists, i, s)
            == parse_from(args, exists, i + 2, SettingsView { path: args[i + 1], ..s }),
{
    lemma_option_spellings_differ();
}

/// At the end of the command line the settings read so far are the report,
/// unless no process is to be shown.
pub proof fn lemma_end_of_options(args: Seq<Seq<char>>, exists: Seq<bool>, s: SettingsView)
    ensures
        parse_from(args, exists, args.len() as int, s) == if s.how_many == 0 {
            Parsed::Quiet
        } else {
            Parsed::Report(s)
        },
{
}

/// Asking for `n` processes with `-n` and the decimal text of `n` gives a
/// report of `n` processes, the other settings left as they are.
pub proof fn lemma_count_option(n: usize, exists: Seq<bool>)
    requires
        n > 0,
        exists.len() == 2,
    ensures
        parse_from(seq!["-n"@, decimal(n as nat)], exists, 0, default_settings()) == Parsed::Report(
            SettingsView { how_many: n, ..default_settings() },
        ),
{
    reveal_strlit("-n");
    reveal_strlit("-h");
    reveal_strlit("--help");
    reveal_strlit("-H");
    reveal_strlit("-?");
    reveal_strlit("-v");
    reveal_strlit("--version");
    reveal_strlit("-u");
    reveal_strlit("--ungroup");
    reveal_strlit("-g");
    reveal_strlit("--group");
    crate::number::lemma_parse_decimal(n);
    let args = seq!["-n"@, decimal(n as nat)];
    assert(args[0] == "-n"@);
    assert(args[1] == decimal(n as nat));
    assert("-n"@[1] != "-h"@[1] && "-n"@[1] != "-H"@[1] && "-n"@[1] != "-?"@[1]);
    assert("-n"@[1] != "-v"@[1] && "-n"@[1] != "-u"@[1] && "-n"@[1] != "-g"@[1]);
    assert("-n"@.len() != "--help"@.len() && "-n"@.len() != "--version"@.len());
    assert("-n"@.len() != "--ungroup"@.len() && "-n"@.len() != "--group"@.len());
    let after = SettingsView { how_many: n, ..default_settings() };
    assert(parse_from(args, exists, 2, after) == Parsed::Report(after));
    assert(parsed_usize(args[1]) == Some(n));
    assert(parse_from(args, exists, 0, default_settings()) == parse_from(args, exists, 2, after));
}

/// `--ungroup` alone lists each process on its own, and `--group` alone
/// gathers them by name; everything else keeps its default.
pub proof fn lemma_grouping_options_alone(exists: Seq<bool>)
    ensures
        parse_from(seq!["--ungroup"@], exists, 0, default_settings()) == Parsed::Report(
            SettingsView { ungroup: true, ..default_settings() },
        ),
        parse_from(seq!["-u"@], exists, 0, default_settings()) == Parsed::Report(
            SettingsView { ungroup: true, ..default_settings() },
        ),
        parse_from(seq!["--group"@], exists, 0, default_settings()) == Parsed::Report(
            default_settings(),
        ),
{
    let a = seq!["--ungroup"@];
    let b = seq!["-u"@];
    let c = seq!["--group"@];
    lemma_option_effects(a, exists, 0, default_settings());
    lemma_option_effects(b, exists, 0, default_settings());
    lemma_option_effects(c, exists, 0, default_settings());
    lemma_end_of_options(a, exists, SettingsView { ungroup: true, ..default_settings() });
    lemma_end_of_options(b, exists, SettingsView { ungroup: true, ..default_settings() });
    lemma_end_of_options(c, exists, SettingsView { ungroup: false, ..default_settings() });
}

/// `-n N -u` reads both options: `N` processes, each on its own.
pub proof fn lemma_count_then_ungroup(n: usize, exists: Seq<bool>)
    requires
        n > 0,
    ensures
        parse_from(seq!["-n"@, decimal(n as nat), "-u"@], exists, 0, default_settings())
            == Parsed::Report(SettingsView { how_many: n, ungroup: true, ..default_settings() }),
{
    let args = seq!["-n"@, decimal(n as nat), "-u"@];
    crate::number::lemma_parse_decimal(n);
    lemma_option_effects(args, exists, 0, default_settings());
    let after = SettingsView { how_many: n, ..default_settings() };
    lemma_option_effects(args, exists, 2, after);
    lemma_end_of_options(args, exists, SettingsView { ungroup: true, ..after });
}

/// The texts of the arguments.
pub open spec fn arg_views(args: Seq<String>) -> Seq<Seq<char>> {
    args.map_values(|a: String| a@)
}

/// Whether two texts are equal.
fn same(a: &str, b: &str) -> (r: bool)
    ensures
        r == (a@ == b@),
{
    let x = chars_of(a);
    let y = chars_of(b);
    if x.len() != y.len() {
        return false;
    }
    let mut k: usize = 0;
    while k < x.len()
        invariant
            x.len() == y.len(),
            k <= x.len(),
            x@ == a@,
            y@ == b@,
            forall|j: int| 0 <= j < k ==> x@[j] == y@[j],
        decreases x.len() - k,
    {
        if x[k] != y[k] {
            return false;
        }
        k = k + 1;
    }
    proof {
        assert(x@ =~= y@);
    }
    true
}

fn joined(a: &str, b: &str, c: &str) -> (s: String)
    ensures
        s@ == a@ + b@ + c@,
{
    let mut s = String::from_str(a);
    s.append(b);
    s.append(c);
    s
}

/// Reads the command line `args` (without the program's name);
/// `path_exists[i]` tells whether `args[i]` names an existing path.
pub fn parse_args(args: &Vec<String>, path_exists: &Vec<bool>) -> (c: Command)
    requires
        path_exists.len() == args.len(),
    ensures
        c@ == parse_from(arg_views(args@), path_exists@, 0, default_settings()),
{
    let ghost av = arg_views(args@);
    let mut s = Settings {
        ungroup: false,
        how_many: 3,
        layout: Layout::Line,
        unit: None,
        group_count: false,
        path: String::from_str("/proc"),
    };
    let n = args.len();
    let mut i: usize = 0;
    while i < n
        invariant
            n == args.len(),
            n == path_exists.len(),
            av == arg_views(args@),
            i <= n,
            parse_from(av, path_exists@, 0, default_settings()) == parse_from(
                av,
                path_exists@,
                i as int,
                s@,
            ),
        decreases n - i,
    {
        let a = args[i].as_str();
        assert(a@ == av[i as int]);
        if same(a, "-h") || same(a, "--help") || same(a, "-H") || same(a, "-?") {
            return Command::Help;
        } else if same(a, "-v") || same(a, "--version") {
            return Command::Version;
        } else if same(a, "-u") || same(a, "--ungroup") {
            s.ungroup = true;
            i = i + 1;
        } else if same(a, "-g") || same(a, "--group") {
            s.ungroup = false;
            i = i + 1;
        } else if same(a, "-n") {
            if i + 1 < n {
                let number = args[i + 1].as_str();
                assert(number@ == av[i + 1]);
                match parse_usize_str(number) {
                    Some(value) => {
                        s.how_many = value;
                        i = i + 2;
                    },
                    None => {
                        return Command::Fail(
                            joined("Error: Could not parse '", number, "' into unsigned integer"),
                        );
                    },
                }
            } else {
                return Command::Fail(
                    String::from_str("Error: found option '-n', but no number was provided"),
                );
            }
        } else if same(a, "-l") || same(a, "--lines") {
            s.layout = Layout::Lines;
            i = i + 1;
        } else if same(a, "-o") || same(a, "--line") {
            s.layout = Layout::Line;
            i = i + 1;
        } else if same(a, "-a") || same(a, "--all") {
            s.how_many = usize::MAX;
            i = i + 1;
        } else if same(a, "--group-count") {
            s.group_count = true;
            i = i + 1;
        } else if same(a, "--kb") {
            s.unit = Some(Unit::kB);
            i = i + 1;
        } else if same(a, "--mb") {
            s.unit = Some(Unit::MB);
            i = i + 1;
        } else if same(a, "--gb") {
            s.unit = Some(Unit::GB);
            i = i + 1;
        } else if same(a, "-s") || same(a, "--smart") {
            s.unit = None;
            i = i + 1;
        } else if same(a, PATH_OPTION) {
            if i + 1 < n {
                let path = args[i + 1].as_str();
                assert(path@ == av[i + 1]);
                if path_exists[i + 1] {
                    s.path = String::from_str(path);
                    i = i + 2;
                } else {
                    return Command::Fail(joined("Error: Path '", path, "' does not exists"));
                }
            } else {
                return Command::Fail(
                    joined("Error: found option '", PATH_OPTION, "', but no path was provided"),
                );
            }
        } else {
            return Command::Fail(joined("Error: Unknown argument '", a, "'"));
        }
    }
    if s.how_many == 0 {
        Command::Quiet
    } else {
        Command::Report(s)
    }
}

} // verus!
