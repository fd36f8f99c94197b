use lib::number::{parse_usize_str, usize_text};
use lib::top_pss;
use lib::top_rss;

#[test]
fn rss_status_with_unit_suffix() {
    let p = top_rss::try_new_process(
        String::from("Name:\tAla\nUmask:\t0022\nVmRSS:\t9000000 kB\n"),
        None,
    )
    .unwrap();
    assert_eq!(p.name, "Ala");
    assert_eq!(p.rss.kB, 9000000);
    assert!(p.unit.is_none());
}

#[test]
fn rss_status_without_unit_suffix() {
    let p = top_rss::try_new_process(String::from("Name:\tCat\nVmRSS:\t90000"), Some(top_rss::Unit::MB))
        .unwrap();
    assert_eq!(p.name, "Cat");
    assert_eq!(p.rss.kB, 90000);
    assert_eq!(p.unit, Some(top_rss::Unit::MB));
}

#[test]
fn rss_status_missing_lines() {
    assert!(top_rss::try_new_process(String::from("Name:\tkthreadd\nState:\tS\n"), None).is_none());
    assert!(top_rss::try_new_process(String::from("VmRSS:\t12 kB\n"), None).is_none());
    assert!(top_rss::try_new_process(String::new(), None).is_none());
}

#[test]
fn rss_status_first_line_counts() {
    let p = top_rss::try_new_process(
        String::from("Name:\tfirst\nName:\tsecond\nVmRSS:  7 kB\nVmRSS:  9 kB\n"),
        None,
    )
    .unwrap();
    assert_eq!(p.name, "first");
    assert_eq!(p.rss.kB, 7);
}

#[test]
fn rss_status_carriage_returns() {
    let p = top_rss::try_new_process(String::from("Name:\tAla\r\nVmRSS:\t5 kB\r\n"), None).unwrap();
    assert_eq!(p.name, "Ala");
    assert_eq!(p.rss.kB, 5);
}

#[test]
fn rss_status_name_keeps_spaces_and_unicode() {
    let p = top_rss::try_new_process(String::from("Name:\tWeb Content ź\nVmRSS:\t1 kB\n"), None).unwrap();
    assert_eq!(p.name, "Web Content ź");
}

#[test]
fn rss_readability() {
    assert!(top_rss::can_read("Name:\tAla\nVmRSS:\t9000000 kB\n"));
    assert!(top_rss::can_read("Name:\tAla\n"));
    assert!(!top_rss::can_read("Name:\tAla\nVmRSS:\tmany\n"));
    assert!(!top_rss::can_read("Name:\tAla\nVmRSS:\n"));
    assert!(!top_rss::can_read("Name:\nVmRSS:\t3 kB\n"));
    assert!(!top_rss::can_read("Name:é\nVmRSS:\t3 kB\n"));
    assert!(top_rss::can_read("Name:\t\nVmRSS:\t3 kB\n"));
}

#[test]
fn rss_status_empty_name() {
    let p = top_rss::try_new_process(String::from("Name:\t\nVmRSS:\t3 kB\n"), None).unwrap();
    assert_eq!(p.name, "");
}

#[test]
fn pss_process() {
    let p = top_pss::try_new_process(
        "Name:\tbash\nState:\tS (sleeping)\n",
        "55d0-7ffe ---p 00000000 00:00 0 [rollup]\nRss:\t4000 kB\nPss:\t1234 kB\nPss_Anon:\t800 kB\n",
    )
    .unwrap();
    assert_eq!(p.name, "bash");
    assert_eq!(p.kB, 1234);
    assert_eq!(p.to_string(), "bash");
}

#[test]
fn pss_process_missing_or_bad() {
    assert!(top_pss::try_new_process("Name:\tbash\n", "Rss:\t4000 kB\n").is_none());
    assert!(top_pss::try_new_process("State:\tS\n", "Pss:\t4 kB\n").is_none());
    assert!(top_pss::try_new_process("Name:\tbash\n", "Pss:\tlots kB\n").is_none());
    assert!(top_pss::try_new_process("Name:\tbash\n", "Pss:\n").is_none());
    assert!(top_pss::try_new_process("Name:\tbash\n", "Pss:4 kB\n").is_none());
}

#[test]
fn pss_readability() {
    assert!(top_pss::can_read("Name:\tbash\n", "Pss:\t4 kB\n"));
    assert!(top_pss::can_read("Name:\n", "Rss:\t4 kB\n"));
    assert!(!top_pss::can_read("Name:\n", "Pss:\t4 kB\n"));
}

#[test]
fn process_directories() {
    assert!(top_pss::names_a_process(b"1"));
    assert!(top_pss::names_a_process(b"4242"));
    assert!(top_pss::names_a_process(b"9x"));
    assert!(!top_pss::names_a_process(b"self"));
    assert!(!top_pss::names_a_process(b""));
}

#[test]
fn decimal_parsing() {
    assert_eq!(parse_usize_str("0"), Some(0));
    assert_eq!(parse_usize_str("007"), Some(7));
    assert_eq!(parse_usize_str("+12"), Some(12));
    assert_eq!(parse_usize_str("9999999"), Some(9999999));
    assert_eq!(parse_usize_str(&usize::MAX.to_string()), Some(usize::MAX));
    assert_eq!(parse_usize_str("+"), None);
    assert_eq!(parse_usize_str(""), None);
    assert_eq!(parse_usize_str("-1"), None);
    assert_eq!(parse_usize_str("-n"), None);
    assert_eq!(parse_usize_str(" 1"), None);
    assert_eq!(parse_usize_str("1 "), None);
    assert_eq!(parse_usize_str("++1"), None);
    assert_eq!(parse_usize_str("sASASdasda-1"), None);
    assert_eq!(parse_usize_str("99999999999999999999999"), None);
}

#[test]
fn decimal_parsing_agrees_with_std() {
    for s in ["0", "+0", "12", "+", "-", "-0", "1a", "", "18446744073709551615", "18446744073709551616", "4294967296"] {
        assert_eq!(parse_usize_str(s), s.parse::<usize>().ok(), "{s}");
    }
}

#[test]
fn decimal_writing() {
    assert_eq!(usize_text(0), "0");
    assert_eq!(usize_text(7), "7");
    assert_eq!(usize_text(10), "10");
    assert_eq!(usize_text(8789), "8789");
    assert_eq!(usize_text(usize::MAX), usize::MAX.to_string());
}

#[test]
fn decimal_round_trip() {
    for n in [0usize, 1, 9, 10, 99, 100, 1024, 909000, usize::MAX] {
        assert_eq!(parse_usize_str(&usize_text(n)), Some(n));
    }
}
