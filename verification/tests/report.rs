use lib::top_pss;
use lib::top_rss::{self, Layout, Unit};

fn gigabytes(kb: usize) -> String {
    ((kb as f32 / 1024. / 1024. * 100.).trunc() / 100.).to_string()
}

/// The status texts of the five processes of the command-line test
/// directory, in the order in which they are read.
fn statuses() -> Vec<String> {
    vec![
        "Name:\tAla\nVmRSS:\t9000000 kB\n",
        "Name:\tCatOwnsAla\nVmRSS:\t900000 kB\n",
        "Name:\tOwnsA\nVmRSS:\t900000 kB\n",
        "Name:\tCat\nVmRSS:\t90000\n",
        "Name:\tCatOwnsAla\nVmRSS:\t9000 kB\n",
    ]
    .into_iter()
    .map(String::from)
    .collect()
}

fn processes(unit: Option<Unit>) -> Vec<top_rss::Process> {
    statuses().into_iter().map(|s| top_rss::try_new_process(s, unit).unwrap()).collect()
}

fn grouped_report(unit: Option<Unit>, group_count: bool, how_many: usize, layout: Layout) -> String {
    let procs = processes(unit);
    assert!(lib::ranking::can_group(&procs));
    let ranked = top_rss::rank_grouped(procs);
    let gb: Vec<String> = ranked.iter().map(|e| gigabytes(e.1.rss.kB)).collect();
    top_rss::display_processes_grouped(&ranked, group_count, how_many, layout, &gb)
}

fn ungrouped_report(unit: Option<Unit>, how_many: usize, layout: Layout) -> String {
    let ranked = top_rss::rank_ungrouped(processes(unit));
    let gb: Vec<String> = ranked.iter().map(|p| gigabytes(p.rss.kB)).collect();
    top_rss::display_processes_ungrouped(&ranked, how_many, layout, &gb)
}

#[test]
fn report_all() {
    assert_eq!(
        grouped_report(None, false, usize::MAX, Layout::Line),
        "Ala: 8.58 GB CatOwnsAla: 887 MB OwnsA: 878 MB Cat: 87 MB \n"
    );
}

#[test]
fn report_group_count() {
    assert_eq!(
        grouped_report(None, true, 3, Layout::Line),
        "[1] Ala: 8.58 GB [2] CatOwnsAla: 887 MB [1] OwnsA: 878 MB \n"
    );
}

#[test]
fn report_ungrouped() {
    assert_eq!(
        ungrouped_report(None, 3, Layout::Line),
        "Ala: 8.58 GB OwnsA: 878 MB CatOwnsAla: 878 MB \n"
    );
}

#[test]
fn report_lines() {
    assert_eq!(
        grouped_report(None, false, 3, Layout::Lines),
        "Ala: 8.58 GB\nCatOwnsAla: 887 MB\nOwnsA: 878 MB\n"
    );
}

#[test]
fn report_units() {
    assert_eq!(
        grouped_report(Some(Unit::kB), false, 3, Layout::Line),
        "Ala: 9000000 kB CatOwnsAla: 909000 kB OwnsA: 900000 kB \n"
    );
    assert_eq!(
        grouped_report(Some(Unit::MB), false, 3, Layout::Line),
        "Ala: 8789 MB CatOwnsAla: 887 MB OwnsA: 878 MB \n"
    );
    assert_eq!(
        grouped_report(Some(Unit::GB), false, 3, Layout::Line),
        "Ala: 8.58 GB CatOwnsAla: 0.86 GB OwnsA: 0.85 GB \n"
    );
}

#[test]
fn report_first_n() {
    assert_eq!(grouped_report(None, false, 1, Layout::Line), "Ala: 8.58 GB \n");
    assert_eq!(
        grouped_report(None, false, 9999999, Layout::Line),
        "Ala: 8.58 GB CatOwnsAla: 887 MB OwnsA: 878 MB Cat: 87 MB \n"
    );
    assert_eq!(
        grouped_report(None, false, 4, Layout::Line),
        "Ala: 8.58 GB CatOwnsAla: 887 MB OwnsA: 878 MB Cat: 87 MB \n"
    );
    assert_eq!(grouped_report(None, false, 0, Layout::Line), "\n");
    assert_eq!(grouped_report(None, false, 0, Layout::Lines), "");
}

#[test]
fn report_lines_with_counts() {
    assert_eq!(
        grouped_report(None, true, 2, Layout::Lines),
        "[1] Ala: 8.58 GB\n[2] CatOwnsAla: 887 MB\n"
    );
}

#[test]
fn report_ungrouped_lines() {
    assert_eq!(
        ungrouped_report(Some(Unit::kB), 10, Layout::Lines),
        "Ala: 9000000 kB\nOwnsA: 900000 kB\nCatOwnsAla: 900000 kB\nCat: 90000 kB\nCatOwnsAla: 9000 kB\n"
    );
}

fn pss(name: &str, kb: usize) -> top_pss::Process {
    top_pss::Process { name: String::from(name), kB: kb }
}

fn pss_processes() -> Vec<top_pss::Process> {
    vec![pss("firefox", 700000), pss("bash", 3000), pss("firefox", 400000), pss("codium", 1600000), pss("bash", 500)]
}

fn pss_report(ungroup: bool, n: usize, group_count: bool, unit: Option<top_pss::Unit>, sep: top_pss::Layout) -> String {
    let procs = pss_processes();
    assert!(lib::ranking::can_group(&procs));
    let ranked = top_pss::rank_processes(procs, ungroup);
    let gb: Vec<String> = ranked.iter().map(|e| gigabytes(e.1.kB)).collect();
    top_pss::display_processes(&ranked, n, group_count, unit, sep, &gb)
}

#[test]
fn pss_report_grouped() {
    assert_eq!(
        pss_report(false, 3, false, None, top_pss::Layout::Line),
        "codium 1.52 GB firefox 1.04 GB bash 3 MB "
    );
    assert_eq!(
        pss_report(false, 3, true, None, top_pss::Layout::Lines),
        "[1] codium 1.52 GB\n[2] firefox 1.04 GB\n[2] bash 3 MB\n"
    );
}

#[test]
fn pss_report_ungrouped() {
    assert_eq!(
        pss_report(true, usize::MAX, true, Some(top_pss::Unit::kB), top_pss::Layout::Other(String::from(" | "))),
        "[1] codium 1600000 kB | [1] firefox 700000 kB | [1] firefox 400000 kB | [1] bash 3000 kB | [1] bash 500 kB | "
    );
    assert_eq!(pss_report(true, 0, false, None, top_pss::Layout::Line), "");
}

#[test]
fn pss_ranking_with_distinct_names_ignores_grouping() {
    let make = || vec![pss("a", 5), pss("b", 9), pss("c", 5)];
    let grouped = top_pss::rank_processes(make(), false);
    let alone = top_pss::rank_processes(make(), true);
    let view = |v: &Vec<(u32, top_pss::Process)>| -> Vec<(u32, String, usize)> {
        v.iter().map(|e| (e.0, e.1.name.clone(), e.1.kB)).collect()
    };
    assert_eq!(view(&grouped), view(&alone));
    assert_eq!(view(&alone), vec![(1, "b".to_string(), 9), (1, "c".to_string(), 5), (1, "a".to_string(), 5)]);
}
