use lib::cli::{parse_args, Command, Settings, PATH_OPTION};
use lib::top_rss::{Layout, Unit};

fn run(args: &[&str]) -> Command {
    let args: Vec<String> = args.iter().map(|s| s.to_string()).collect();
    let exists = vec![true; args.len()];
    parse_args(&args, &exists)
}

fn report(args: &[&str]) -> Settings {
    match run(args) {
        Command::Report(s) => s,
        _ => panic!("expected a report"),
    }
}

fn failure(args: &[&str]) -> String {
    match run(args) {
        Command::Fail(m) => m,
        _ => panic!("expected a failure"),
    }
}

#[test]
fn defaults() {
    let s = report(&[]);
    assert!(!s.ungroup);
    assert_eq!(s.how_many, 3);
    assert_eq!(s.layout, Layout::Line);
    assert!(s.unit.is_none());
    assert!(!s.group_count);
    assert_eq!(s.path, "/proc");
}

#[test]
fn options() {
    let s = report(&["-u", "--group-count", "--lines", "--mb", "-n", "5"]);
    assert!(s.ungroup);
    assert!(s.group_count);
    assert_eq!(s.layout, Layout::Lines);
    assert_eq!(s.unit, Some(Unit::MB));
    assert_eq!(s.how_many, 5);
    assert_eq!(report(&["--all"]).how_many, usize::MAX);
    assert_eq!(report(&["-a"]).how_many, usize::MAX);
    assert_eq!(report(&["-n", "9999999"]).how_many, 9999999);
    assert_eq!(report(&["--kb"]).unit, Some(Unit::kB));
    assert_eq!(report(&["--gb"]).unit, Some(Unit::GB));
    assert_eq!(report(&["--gb", "--smart"]).unit, None);
    assert!(!report(&["-u", "-g"]).ungroup);
    assert_eq!(report(&["-l", "-o"]).layout, Layout::Line);
    assert_eq!(report(&["-l"]).layout, Layout::Lines);
}

#[test]
fn help_and_version_end_the_reading() {
    assert!(matches!(run(&["-h"]), Command::Help));
    assert!(matches!(run(&["--help", "--bogus"]), Command::Help));
    assert!(matches!(run(&["-H"]), Command::Help));
    assert!(matches!(run(&["-?"]), Command::Help));
    assert!(matches!(run(&["-v"]), Command::Version));
    assert!(matches!(run(&["-u", "--version"]), Command::Version));
}

#[test]
fn nothing_to_show() {
    assert!(matches!(run(&["-n", "0"]), Command::Quiet));
}

#[test]
fn bad_numbers() {
    assert_eq!(failure(&["-n", "sASASdasda-1"]), "Error: Could not parse 'sASASdasda-1' into unsigned integer");
    assert_eq!(failure(&["-n", "-1"]), "Error: Could not parse '-1' into unsigned integer");
    assert_eq!(failure(&["-n", "-n"]), "Error: Could not parse '-n' into unsigned integer");
    assert_eq!(failure(&["-n", "--help"]), "Error: Could not parse '--help' into unsigned integer");
    assert_eq!(failure(&["-n"]), "Error: found option '-n', but no number was provided");
}

#[test]
fn unknown_argument() {
    assert_eq!(failure(&["--bogus"]), "Error: Unknown argument '--bogus'");
    assert_eq!(failure(&["-u", "x", "--help"]), "Error: Unknown argument 'x'");
}

#[test]
fn test_directory_option() {
    let args: Vec<String> = vec![PATH_OPTION.to_string(), "/tmp/toprss/dummy_proc".to_string(), "--all".to_string()];
    match parse_args(&args, &vec![false, true, false]) {
        Command::Report(s) => {
            assert_eq!(s.path, "/tmp/toprss/dummy_proc");
            assert_eq!(s.how_many, usize::MAX);
        },
        _ => panic!("expected a report"),
    }
    match parse_args(&args, &vec![true, false, true]) {
        Command::Fail(m) => assert_eq!(m, "Error: Path '/tmp/toprss/dummy_proc' does not exists"),
        _ => panic!("expected a failure"),
    }
    let lone = vec![PATH_OPTION.to_string()];
    match parse_args(&lone, &vec![true]) {
        Command::Fail(m) => assert_eq!(m, format!("Error: found option '{PATH_OPTION}', but no path was provided")),
        _ => panic!("expected a failure"),
    }
}
