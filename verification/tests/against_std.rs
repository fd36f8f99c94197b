use lib::top_pss;
use lib::top_rss;

/// The status reading of the resident-set report, written with std's own
/// line and word splitting.
fn rss_with_std(content: &str) -> Option<(String, usize)> {
    let name = content.lines().find(|line| line.starts_with("Name:"))?;
    let rss = content.lines().find(|line| line.starts_with("VmRSS:"))?;
    let kb = rss.split_whitespace().nth(1).unwrap().parse::<usize>().unwrap();
    Some((name.to_owned().split_off(6), kb))
}

/// The status and rollup reading of the proportional-set report, written with
/// std's own line and word splitting.
fn pss_with_std(status: &str, smaps_rollup: &str) -> Option<(String, usize)> {
    let name = status.lines().find(|line| line.starts_with("Name:"));
    let pss = smaps_rollup.lines().find(|line| line.starts_with("Pss:"));
    let (name, pss) = (name?, pss?);
    let kb = pss.split_whitespace().nth(1)?.parse::<usize>().ok()?;
    Some((name.to_owned().split_off(6), kb))
}

const STATUSES: [&str; 12] = [
    "Name:\tAla\nVmRSS:\t9000000 kB\n",
    "Name:\tAla\r\nVmRSS:\t12 kB\r\n",
    "Name:\tAla\rx\nVmRSS:\t12 kB",
    "VmRSS:\t12 kB\nName:\tAla\r",
    "\n\nName:\tb c\n\n\nVmRSS:\u{a0}\u{2003}77\u{3000}kB\n\n",
    "Name:\tx\nVmRSS:\x0b\x0c56\x0b\n",
    "Name:\tx\u{180e}y\nVmRSS:\u{85}56\u{2028}kB\n",
    "Name:\tsecond\nName:\tfirst\nVmRSSx 1\nVmRSS: 3\n",
    "  Name:\tnot at start\nName:\tat start\nVmRSS: +4 kB\n",
    "Name:\t\u{1F600}\nVmRSS: 9\n",
    "Name:\tkworker\nState:\tI (idle)\n",
    "",
];

#[test]
fn rss_reading_agrees_with_std() {
    for content in STATUSES {
        assert!(top_rss::can_read(content), "{content:?}");
        let ours = top_rss::try_new_process(content.to_string(), None).map(|p| (p.name, p.rss.kB));
        assert_eq!(ours, rss_with_std(content), "{content:?}");
    }
}

#[test]
fn pss_reading_agrees_with_std() {
    let rollups = [
        "Rss: 10 kB\nPss:\t1234 kB\n",
        "Pss:\n",
        "Pss:x 1 kB\n",
        "Pss:\t1 2\r\n",
        "Pss_Anon:\t5 kB\nPss:\t6 kB",
        "Pss: -3 kB\n",
        "Pss: 99999999999999999999999 kB\n",
    ];
    for status in STATUSES {
        for rollup in rollups {
            assert!(top_pss::can_read(status, rollup), "{status:?} {rollup:?}");
            let ours = top_pss::try_new_process(status, rollup).map(|p| (p.name, p.kB));
            assert_eq!(ours, pss_with_std(status, rollup), "{status:?} {rollup:?}");
        }
    }
}
