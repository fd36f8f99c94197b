use lib::top_pss;
use lib::top_rss::{self, kB, Number, Process, Unit};

fn gigabytes(kb: usize) -> String {
    ((kb as f32 / 1024. / 1024. * 100.).trunc() / 100.).to_string()
}

#[test]
fn pss_unit_strings() {
    assert_eq!(top_pss::Unit::kB.string(900, "0"), "900 kB");
    assert_eq!(top_pss::Unit::MB.string(909000, "0.86"), "887 MB");
    assert_eq!(top_pss::Unit::MB.string(1023, "0"), "0 MB");
    assert_eq!(top_pss::Unit::GB.string(9000000, &gigabytes(9000000)), "8.58 GB");
}

#[test]
fn fitting_units() {
    assert_eq!(top_pss::Unit::fitting(0), top_pss::Unit::kB);
    assert_eq!(top_pss::Unit::fitting(1023), top_pss::Unit::kB);
    assert_eq!(top_pss::Unit::fitting(1024), top_pss::Unit::MB);
    assert_eq!(top_pss::Unit::fitting(1048575), top_pss::Unit::MB);
    assert_eq!(top_pss::Unit::fitting(1048576), top_pss::Unit::GB);
    assert_eq!(Unit::fitting(1023), Unit::kB);
    assert_eq!(Unit::fitting(1024), Unit::MB);
    assert_eq!(Unit::fitting(1048576), Unit::GB);
}

#[test]
fn pss_layouts() {
    assert_eq!(top_pss::Layout::Line.to_string(), " ");
    assert_eq!(top_pss::Layout::Lines.to_string(), "\n");
    assert_eq!(top_pss::Layout::Other(String::from(" | ")).to_string(), " | ");
}

#[test]
fn rss_conversions() {
    match Unit::kB.convert(kB { kB: 9000 }) {
        Number::Usize(n) => assert_eq!(n, 9000),
        Number::Gigabytes(_) => panic!("kilobytes are whole"),
    }
    match Unit::MB.convert(kB { kB: 9000 }) {
        Number::Usize(n) => assert_eq!(n, 8),
        Number::Gigabytes(_) => panic!("megabytes are whole"),
    }
    match Unit::GB.convert(kB { kB: 9000 }) {
        Number::Gigabytes(n) => assert_eq!(n, 9000),
        Number::Usize(_) => panic!("gigabytes are fractional"),
    }
    assert_eq!(Number::Usize(42).to_string("x"), "42");
    assert_eq!(Number::Gigabytes(9000000).to_string("8.58"), "8.58");
}

#[test]
fn rss_unit_names() {
    assert_eq!(Unit::kB.to_string(), "kB");
    assert_eq!(Unit::MB.to_string(), "MB");
    assert_eq!(Unit::GB.to_string(), "GB");
}

#[test]
fn rss_process_text() {
    let p = Process { name: String::from("Ala"), rss: kB { kB: 9000000 }, unit: None };
    assert_eq!(p.to_string(&gigabytes(9000000)), "Ala: 8.58 GB");
    let p = Process { name: String::from("Cat"), rss: kB { kB: 90000 }, unit: None };
    assert_eq!(p.to_string(&gigabytes(90000)), "Cat: 87 MB");
    let p = Process { name: String::from("Cat"), rss: kB { kB: 900 }, unit: None };
    assert_eq!(p.to_string(&gigabytes(900)), "Cat: 900 kB");
    let p = Process { name: String::from("Cat"), rss: kB { kB: 90000 }, unit: Some(Unit::kB) };
    assert_eq!(p.to_string(&gigabytes(90000)), "Cat: 90000 kB");
    let p = Process { name: String::from("Cat"), rss: kB { kB: 909000 }, unit: Some(Unit::GB) };
    assert_eq!(p.to_string(&gigabytes(909000)), "Cat: 0.86 GB");
}

fn figure(text: &str) -> usize {
    text.split(' ').next().unwrap().parse().unwrap()
}

#[test]
fn larger_amounts_print_larger_figures() {
    let amounts = [0usize, 1, 1023, 1024, 1025, 2047, 2048, 909000, 1048575, 1048576, usize::MAX - 1, usize::MAX];
    for u in [top_pss::Unit::kB, top_pss::Unit::MB] {
        for w in amounts.windows(2) {
            assert!(figure(&u.string(w[0], "")) <= figure(&u.string(w[1], "")));
        }
    }
    for u in [Unit::kB, Unit::MB] {
        for w in amounts.windows(2) {
            assert!(figure(&u.convert(kB { kB: w[0] }).to_string("")) <= figure(&u.convert(kB { kB: w[1] }).to_string("")));
        }
    }
    assert_eq!(top_pss::Unit::MB.string(1023, ""), "0 MB");
    assert_eq!(top_pss::Unit::MB.string(1024, ""), "1 MB");
}
