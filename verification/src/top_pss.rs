//! The report by proportional set size (`Pss` of `smaps_rollup`).
use vstd::prelude::*;
use crate::number::{
    all_digits, decimal, figure_before_unit, lemma_decimal_digits, lemma_megabytes_grow, lemma_parse_decimal, parsed_usize, size_class,
    size_class_of, usize_text,
};
use crate::ranking::{
    arranged, at_most, counts_fit, descending_order, group_by_name, grouped_rows, groups_of,
    lemma_arranged_largest_first, lemma_arranged_unique, lemma_distinct_names_alone,
    lemma_groups_rows, measured_amounts, measured_names, names_and_amounts, nat_keys, row_keys,
    single_rows, Measured,
};
use crate::text::{
    amount_of, chars_of, find_line, find_name_line, first_with_prefix, label_fits,
    label_fits_check, label_text, label_value, line_amount, lines, name_line, text_views,
};

verus! {

/// The unit in which an amount of memory is shown.
#[allow(non_camel_case_types)]
#[derive(Clone, Copy, Debug, PartialEq, Eq, Structural)]
pub enum Unit {
    kB,
    MB,
    GB,
}

/// The unit that suits an amount of `kb` kilobytes: kilobytes below one
/// megabyte, megabytes below one gigabyte, gigabytes above.
pub open spec fn fitting_unit(kb: nat) -> Unit {
    if size_class(kb) == 0 {
        Unit::kB
    } else if size_class(kb) == 1 {
        Unit::MB
    } else {
        Unit::GB
    }
}

/// The text of `kb` kilobytes in unit `u`; `gb` is the gigabyte figure, which
/// is computed in floating point outside the library.
pub open spec fn unit_text(u: Unit, kb: nat, gb: Seq<char>) -> Seq<char> {
    match u {
        Unit::kB => decimal(kb) + seq![' ', 'k', 'B'],
        Unit::MB => decimal(kb / 1024) + seq![' ', 'M', 'B'],
        Unit::GB => gb + seq![' ', 'G', 'B'],
    }
}

/// Amounts below 1024 kB are written in kilobytes, amounts below 1024 MB
/// (1048576 kB) in megabytes, larger ones in gigabytes.
pub proof fn lemma_fitting_thresholds(kb: nat)
    ensures
        kb < 1024 ==> fitting_unit(kb) == Unit::kB,
        1024 <= kb < 1048576 ==> fitting_unit(kb) == Unit::MB,
        1048576 <= kb ==> fitting_unit(kb) == Unit::GB,
{
    assert(1024 <= kb < 1048576 ==> kb / 1024 < 1024) by (nonlinear_arith);
    assert(1048576 <= kb ==> kb / 1024 >= 1024) by (nonlinear_arith);
}

/// A larger amount never prints a smaller number in kilobytes or megabytes:
/// the text of each amount begins with the decimal of its figure in the unit,
/// and the figure grows with the amount. (The gigabyte figure is computed in
/// floating point outside the library.)
pub proof fn lemma_larger_amount_larger_figure(
    u: Unit,
    k1: usize,
    k2: usize,
    gb1: Seq<char>,
    gb2: Seq<char>,
)
    requires
        k1 <= k2,
        u != Unit::GB,
    ensures
        figure_before_unit(unit_text(u, k1 as nat, gb1)) matches Some(a) && figure_before_unit(
            unit_text(u, k2 as nat, gb2),
        ) matches Some(b) && a <= b,
{
    let t1 = unit_text(u, k1 as nat, gb1);
    let t2 = unit_text(u, k2 as nat, gb2);
    if u == Unit::kB {
        assert(t1.take(t1.len() - 3) =~= decimal(k1 as nat));
        assert(t2.take(t2.len() - 3) =~= decimal(k2 as nat));
        lemma_parse_decimal(k1);
        lemma_parse_decimal(k2);
    } else {
        let m1 = (k1 / 1024) as usize;
        let m2 = (k2 / 1024) as usize;
        assert(t1.take(t1.len() - 3) =~= decimal(m1 as nat));
        assert(t2.take(t2.len() - 3) =~= decimal(m2 as nat));
        lemma_parse_decimal(m1);
        lemma_parse_decimal(m2);
        lemma_megabytes_grow(k1 as nat, k2 as nat);
    }
}

impl Unit {
    /// The unit that suits an amount of memory.
    pub fn fitting(kB: usize) -> (u: Unit)
        ensures
            u == fitting_unit(kB as nat),
    {
        match size_class_of(kB) {
            0 => Unit::kB,
            1 => Unit::MB,
            _ => Unit::GB,
        }
    }

    /// The amount `kB` shown in this unit, with the unit's name; `gigabytes`
    /// is the gigabyte figure of `kB`, truncated to two decimals.
    #[allow(non_snake_case)]
    pub fn string(&self, kB: usize, gigabytes: &str) -> (s: String)
        ensures
            s@ == unit_text(*self, kB as nat, gigabytes@),
    {
        match self {
            Unit::kB => {
                let mut s = usize_text(kB);
                proof {
                    reveal_strlit(" kB");
                }
                s.append(" kB");
                s
            },
            Unit::MB => {
                let mut s = usize_text(kB / 1024);
                proof {
                    reveal_strlit(" MB");
                }
                s.append(" MB");
                s
            },
            Unit::GB => {
                let mut s = String::from_str(gigabytes);
                proof {
                    reveal_strlit(" GB");
                }
                s.append(" GB");
                s
            },
        }
    }
}

/// What is written after each process.
pub enum Layout {
    Lines,
    Line,
    Other(String),
}

/// The text written after each process.
pub open spec fn layout_text(l: Layout) -> Seq<char> {
    match l {
        Layout::Lines => seq!['\n'],
        Layout::Line => seq![' '],
        Layout::Other(s) => s@,
    }
}

impl Layout {
    /// The text written after each process.
    pub fn to_string(&self) -> (s: String)
        ensures
            s@ == layout_text(*self),
    {
        proof {
            reveal_strlit(" ");
            reveal_strlit("\n");
        }
        match self {
            Layout::Line => String::from_str(" "),
            Layout::Lines => String::from_str("\n"),
            Layout::Other(string) => String::from_str(string.as_str()),
        }
    }
}

/// A process: its name and its proportional set size in kilobytes.
pub struct Process {
    pub name: String,
    #[allow(non_snake_case)]
    pub kB: usize,
}

impl Process {
    /// How a process is written: its name.
    pub fn to_string(&self) -> (s: String)
        ensures
            s@ == self.name@,
    {
        self.name.clone()
    }
}

/// `Pss:`
pub open spec fn pss_label() -> Seq<char> {
    seq!['P', 's', 's', ':']
}

/// The amount on the first `Pss:` line of an `smaps_rollup` text: its second
/// word, read as a decimal number.
pub open spec fn pss_amount(smaps_rollup: Seq<char>) -> Option<usize> {
    match first_with_prefix(lines(smaps_rollup), pss_label()) {
        Some(l) => amount_of(l),
        None => None,
    }
}

/// The status and `smaps_rollup` texts can be read without failing: where
/// both the name and the amount are there, the name line can lose its label.
pub open spec fn readable(status: Seq<char>, smaps_rollup: Seq<char>) -> bool {
    name_line(status) is Some && pss_amount(smaps_rollup) is Some ==> label_fits(
        name_line(status)->0,
    )
}

fn pss_of(sm: &Vec<char>) -> (r: Option<usize>)
    ensures
        r == pss_amount(sm@),
{
    let pss_prefix = vec!['P', 's', 's', ':'];
    proof {
        assert(pss_prefix@ =~= pss_label());
    }
    match find_line(sm, &pss_prefix) {
        Some((ps, pe)) => line_amount(sm, ps, pe),
        None => None,
    }
}

/// Reads a process from its `status` and `smaps_rollup` texts: the name is
/// what follows `Name:` and a tab, the amount is the `Pss:` figure. There is
/// no process where either is missing or the figure is not a number.
pub fn try_new_process(status: &str, smaps_rollup: &str) -> (r: Option<Process>)
    requires
        readable(status@, smaps_rollup@),
    ensures
        r is Some <==> name_line(status@) is Some && pss_amount(smaps_rollup@) is Some,
        r matches Some(p) ==> p.name@ == label_value(name_line(status@)->0) && p.kB
            == pss_amount(smaps_rollup@)->0,
{
    let st = chars_of(status);
    let sm = chars_of(smaps_rollup);
    let name_pos = find_name_line(&st);
    let amount = pss_of(&sm);
    match (name_pos, amount) {
        (Some((ns, ne)), Some(kb)) => {
            let name = label_text(status, ns, ne);
            Some(Process { name, kB: kb })
        },
        _ => None,
    }
}

/// Whether the texts can be read without failing.
pub fn can_read(status: &str, smaps_rollup: &str) -> (b: bool)
    ensures
        b == readable(status@, smaps_rollup@),
{
    let st = chars_of(status);
    let sm = chars_of(smaps_rollup);
    match (find_name_line(&st), pss_of(&sm)) {
        (Some((ns, ne)), Some(_)) => label_fits_check(&st, ns, ne),
        _ => true,
    }
}

/// A directory of `/proc` that belongs to a process: its name begins with a
/// decimal digit.
pub fn names_a_process(file_name: &[u8]) -> (b: bool)
    ensures
        b == (file_name@.len() > 0 && 48 <= file_name@[0] <= 57),
{
    file_name.len() > 0 && 48 <= file_name[0] && file_name[0] <= 57
}

impl Measured for Process {
    open spec fn name_view(&self) -> Seq<char> {
        self.name@
    }

    open spec fn amount(&self) -> usize {
        self.kB
    }

    fn name_text(&self) -> (r: &String) {
        &self.name
    }

    fn amount_kb(&self) -> (r: usize) {
        self.kB
    }
}

/// A ranked row: count, name and amount.
pub open spec fn row(e: (u32, Process)) -> (nat, Seq<char>, nat) {
    (e.0 as nat, e.1.name@, e.1.kB as nat)
}

/// The rows of a ranking.
pub open spec fn rows(v: Seq<(u32, Process)>) -> Seq<(nat, Seq<char>, nat)> {
    v.map_values(|e: (u32, Process)| row(e))
}

/// The rows to be ranked: one per process, or one per name when grouping.
pub open spec fn rows_to_rank(ps: Seq<Process>, ungroup: bool) -> Seq<(nat, Seq<char>, nat)> {
    if ungroup {
        single_rows(measured_names(ps), measured_amounts(ps))
    } else {
        grouped_rows(measured_names(ps), measured_amounts(ps))
    }
}

/// Ranks the processes by amount, largest first: each alone when `ungroup`,
/// otherwise gathered by name with their count and the sum of their amounts.
/// Among equal amounts the later row comes first.
pub fn rank_processes(procs: Vec<Process>, ungroup: bool) -> (ranked: Vec<(u32, Process)>)
    requires
        !ungroup ==> counts_fit(measured_names(procs@), measured_amounts(procs@)),
    ensures
        arranged(rows(ranked@), rows_to_rank(procs@, ungroup), row_keys(rows_to_rank(procs@, ungroup))),
        ranked.len() == rows_to_rank(procs@, ungroup).len(),
        forall|a: int, b: int| 0 <= a < b < ranked.len() ==> #[trigger] ranked[a].1.kB >= #[trigger] ranked[b].1.kB,
        forall|i: int|
            0 <= i < rows_to_rank(procs@, ungroup).len() ==> rows(ranked@).contains(
                #[trigger] rows_to_rank(procs@, ungroup)[i],
            ),
{
    let n = procs.len();
    let (names, kbs) = names_and_amounts(&procs);
    let ghost ns = measured_names(procs@);
    let ghost ks = measured_amounts(procs@);
    let ghost target = rows_to_rank(procs@, ungroup);
    let mut ranked: Vec<(u32, Process)> = Vec::new();
    if ungroup {
        let order = descending_order(&kbs);
        proof {
            assert(nat_keys(kbs@) =~= row_keys(target));
        }
        for j in 0..n
            invariant
                n == procs.len(),
                n == kbs.len(),
                n == names.len(),
                ungroup,
                target == rows_to_rank(procs@, ungroup),
                ns == measured_names(procs@),
                ks == measured_amounts(procs@),
                ns == text_views(names@),
                ks == kbs@,
                order.len() == n,
                forall|a: int| 0 <= a < n ==> #[trigger] order[a] < n,
                ranked.len() == j,
                forall|a: int| 0 <= a < j ==> #[trigger] row(ranked[a]) == target[order[a] as int],
        {
            let k = order[j];
            ranked.push((1, Process { name: names[k].clone(), kB: kbs[k] }));
            proof {
                assert(text_views(names@)[k as int] == names[k as int]@);
            }
        }
        proof {
            assert(rows(ranked@).len() == order@.len());
            assert forall|a: int| 0 <= a < rows(ranked@).len() implies #[trigger] rows(ranked@)[a]
                == target[order@[a] as int] by {
                assert(row(ranked[a]) == target[order[a] as int]);
            }
        }
    } else {
        let groups = group_by_name(&names, &kbs);
        let m = groups.len();
        let mut totals: Vec<usize> = Vec::new();
        proof {
            lemma_groups_rows(groups@, ns, ks);
        }
        for j in 0..m
            invariant
                m == groups.len(),
                totals.len() == j,
                forall|a: int| 0 <= a < j ==> #[trigger] totals[a] == groups[a].total,
        {
            totals.push(groups[j].total);
        }
        let order = descending_order(&totals);
        proof {
            assert(target.len() == m);
            assert forall|a: int| 0 <= a < m implies #[trigger] nat_keys(totals@)[a] == row_keys(target)[a] by {
                assert(totals[a] == groups[a].total);
                assert(target == grouped_rows(ns, ks));
                assert(grouped_rows(ns, ks)[a] == (
                    groups@[a].count as nat,
                    ns[groups@[a].first as int],
                    groups@[a].total as nat,
                ));
            }
            assert(nat_keys(totals@) =~= row_keys(target));
        }
        for j in 0..m
            invariant
                m == groups.len(),
                n == names.len(),
                !ungroup,
                target == rows_to_rank(procs@, ungroup),
                ns == measured_names(procs@),
                ns == text_views(names@),
                ks == measured_amounts(procs@),
                groups_of(groups@, ns, ks),
                order.len() == m,
                forall|a: int| 0 <= a < m ==> #[trigger] order[a] < m,
                forall|a: int| 0 <= a < m ==> #[trigger] groups[a].first < n,
                ranked.len() == j,
                forall|a: int| 0 <= a < j ==> #[trigger] row(ranked[a]) == target[order[a] as int],
        {
            let g = groups[order[j]];
            ranked.push((g.count, Process { name: names[g.first].clone(), kB: g.total }));
            proof {
                lemma_groups_rows(groups@, ns, ks);
            }
        }
        proof {
            assert forall|a: int| 0 <= a < rows(ranked@).len() implies #[trigger] rows(ranked@)[a]
                == target[order@[a] as int] by {
                assert(row(ranked[a]) == target[order[a] as int]);
            }
        }
    }
    proof {
        let key = |r: (nat, Seq<char>, nat)| r.2;
        assert(row_keys(target) =~= target.map_values(key));
        lemma_arranged_largest_first(rows(ranked@), target, row_keys(target), key);
        assert forall|a: int, b: int| 0 <= a < b < ranked.len() implies #[trigger] ranked[a].1.kB >= #[trigger] ranked[b].1.kB by {
            assert(key(rows(ranked@)[a]) >= key(rows(ranked@)[b]));
        }
    }
    ranked
}

/// Where no two processes share a name, gathering by name changes nothing:
/// the ranking with groups is the ranking without.
pub proof fn lemma_distinct_names_same_ranking(
    procs: Seq<Process>,
    grouped: Seq<(u32, Process)>,
    alone: Seq<(u32, Process)>,
)
    requires
        forall|a: int, b: int| 0 <= a < b < procs.len() ==> procs[a].name@ != procs[b].name@,
        arranged(rows(grouped), rows_to_rank(procs, false), row_keys(rows_to_rank(procs, false))),
        arranged(rows(alone), rows_to_rank(procs, true), row_keys(rows_to_rank(procs, true))),
    ensures
        rows(grouped) == rows(alone),
{
    let ns = measured_names(procs);
    let ks = measured_amounts(procs);
    assert forall|a: int, b: int| 0 <= a < b < ns.len() implies ns[a] != ns[b] by {
        assert(ns[a] == procs[a].name@);
        assert(ns[b] == procs[b].name@);
    }
    lemma_distinct_names_alone(ns, ks);
    lemma_arranged_unique(rows(grouped), rows(alone), rows_to_rank(procs, true), row_keys(rows_to_rank(procs, true)));
}

/// The text of one ranked row: its count in brackets when `group_count`,
/// its name, its amount in the chosen unit (or the fitting one) and the
/// separator.
pub open spec fn entry_text(
    r: (nat, Seq<char>, nat),
    group_count: bool,
    unit: Option<Unit>,
    sep: Seq<char>,
    gb: Seq<char>,
) -> Seq<char> {
    let u = match unit {
        Some(u) => u,
        None => fitting_unit(r.2),
    };
    let head = if group_count {
        seq!['['] + decimal(r.0) + seq![']', ' ']
    } else {
        seq![]
    };
    head + r.1 + seq![' '] + unit_text(u, r.2, gb) + sep
}

/// The count in brackets at the head of a report entry.
pub open spec fn count_head(count: nat) -> Seq<char> {
    seq!['['] + decimal(count) + seq![']', ' ']
}

/// A chosen unit is the unit every amount is written in: the entry is the
/// count (when asked), the name, a space, the amount as `Unit::string` writes
/// it in that unit, and the separator; the fitting unit plays no part.
pub proof fn lemma_chosen_unit_written(
    r: (nat, Seq<char>, nat),
    group_count: bool,
    u: Unit,
    sep: Seq<char>,
    gb: Seq<char>,
)
    ensures
        entry_text(r, group_count, Some(u), sep, gb) == (if group_count {
            count_head(r.0)
        } else {
            seq![]
        }) + r.1 + seq![' '] + unit_text(u, r.2, gb) + sep,
        entry_text(r, group_count, None, sep, gb) == (if group_count {
            count_head(r.0)
        } else {
            seq![]
        }) + r.1 + seq![' '] + unit_text(fitting_unit(r.2), r.2, gb) + sep,
{
}

/// The report of the first `m + 1` rows is that of the first `m` rows
/// followed by the entry of row `m`.
pub proof fn lemma_shown_text_grows(
    rs: Seq<(nat, Seq<char>, nat)>,
    gbs: Seq<Seq<char>>,
    m: nat,
    group_count: bool,
    unit: Option<Unit>,
    sep: Seq<char>,
)
    ensures
        shown_text(rs, gbs, m + 1, group_count, unit, sep) == shown_text(rs, gbs, m, group_count, unit, sep)
            + entry_text(rs[m as int], group_count, unit, sep, gbs[m as int]),
        shown_text(rs, gbs, 0, group_count, unit, sep) == Seq::<char>::empty(),
{
}

/// The figure in brackets at the head of an entry with counts is the whole
/// count: a run of digits, closed by `]`, that reads back as the count.
pub proof fn lemma_count_in_brackets(
    r: (nat, Seq<char>, nat),
    unit: Option<Unit>,
    sep: Seq<char>,
    gb: Seq<char>,
)
    requires
        r.0 <= usize::MAX,
    ensures
        ({
            let t = entry_text(r, true, unit, sep, gb);
            t[0] == '[' && exists|j: int|
                1 < j < t.len() && t[j] == ']' && all_digits(t.subrange(1, j)) && parsed_usize(
                    t.subrange(1, j),
                ) == Some(r.0 as usize)
        }),
{
    let t = entry_text(r, true, unit, sep, gb);
    let d = decimal(r.0);
    lemma_decimal_digits(r.0);
    lemma_parse_decimal(r.0 as usize);
    let j: int = 1 + d.len() as int;
    assert(t.subrange(1, j) =~= d);
    assert(t[j] == ']');
}

/// The texts of the first `m` rows, one after the other.
pub open spec fn shown_text(
    rs: Seq<(nat, Seq<char>, nat)>,
    gbs: Seq<Seq<char>>,
    m: nat,
    group_count: bool,
    unit: Option<Unit>,
    sep: Seq<char>,
) -> Seq<char>
    decreases m,
{
    if m == 0 {
        seq![]
    } else {
        shown_text(rs, gbs, (m - 1) as nat, group_count, unit, sep) + entry_text(
            rs[m - 1],
            group_count,
            unit,
            sep,
            gbs[m - 1],
        )
    }
}


/// The report of the first `first_n_elements` ranked rows; `gigabytes[i]`
/// is the gigabyte figure of row `i`.
pub fn display_processes(
    collection: &Vec<(u32, Process)>,
    first_n_elements: usize,
    group_count: bool,
    unit: Option<Unit>,
    separator: Layout,
    gigabytes: &Vec<String>,
) -> (out: String)
    requires
        gigabytes.len() == collection.len(),
    ensures
        out@ == shown_text(
            rows(collection@),
            text_views(gigabytes@),
            at_most(first_n_elements as nat, collection.len() as nat),
            group_count,
            unit,
            layout_text(separator),
        ),
{
    let ghost rs = rows(collection@);
    let ghost gbs = text_views(gigabytes@);
    let ghost sep = layout_text(separator);
    let sep_text = separator.to_string();
    let shown = if first_n_elements < collection.len() {
        first_n_elements
    } else {
        collection.len()
    };
    let mut out = String::new();
    for i in 0..shown
        invariant
            shown <= collection.len(),
            gigabytes.len() == collection.len(),
            rs == rows(collection@),
            gbs == text_views(gigabytes@),
            sep_text@ == sep,
            out@ == shown_text(rs, gbs, i as nat, group_count, unit, sep),
    {
        let count = collection[i].0;
        let p = &collection[i].1;
        let u = match unit {
            Some(u) => u,
            None => Unit::fitting(p.kB),
        };
        let ghost r = rs[i as int];
        let ghost head = if group_count {
            seq!['['] + decimal(r.0) + seq![']', ' ']
        } else {
            seq![]
        };
        proof {
            assert(r == row(collection[i as int]));
            reveal_strlit("[");
            reveal_strlit("] ");
            reveal_strlit(" ");
        }
        let mut entry = String::new();
        if group_count {
            entry.append("[");
            entry.append(usize_text(count as usize).as_str());
            entry.append("] ");
        }
        assert(entry@ =~= head);
        entry.append(p.name.as_str());
        assert(entry@ =~= head + r.1);
        entry.append(" ");
        assert(entry@ =~= head + r.1 + seq![' ']);
        let amount = u.string(p.kB, gigabytes[i].as_str());
        entry.append(amount.as_str());
        entry.append(sep_text.as_str());
        proof {
            assert(u == match unit {
                Some(u) => u,
                None => fitting_unit(r.2),
            });
            assert(rs[i as int] == row(collection[i as int]));
            assert(gbs[i as int] == gigabytes[i as int]@);
            assert(entry@ =~= entry_text(rs[i as int], group_count, unit, sep, gbs[i as int]));
        }
        out.append(entry.as_str());
    }
    out
}

} // verus!
