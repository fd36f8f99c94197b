//! The report by resident set size (`VmRSS` of `status`).
use vstd::prelude::*;
use crate::number::{
    all_digits, decimal, lemma_decimal_digits, lemma_megabytes_grow, lemma_parse_decimal, parsed_usize, size_class,
    size_class_of, usize_text,
};
use crate::ranking::{
    arranged, at_most, counts_fit, descending_order, firsts, group_by_name, grouped_rows,
    lemma_arranged_largest_first, lemma_groups_rows, measured_amounts, measured_names,
    names_and_amounts, nat_keys, Measured,
};
use crate::text::{
    amount_of, chars_of, find_line, find_name_line, first_with_prefix, label_fits,
    label_fits_check, label_text, label_value, line_amount, lines, name_line, text_views,
};

verus! {

/// The unit in which an amount of memory is shown.
#[allow(non_camel_case_types)]
#[derive(Clone, Copy, Debug, PartialEq, Eq, Structural)]
pub enum Unit {
    kB,
    MB,
    GB,
}

/// The unit that suits an amount of `kb` kilobytes: kilobytes below one
/// megabyte, megabytes below one gigabyte, gigabytes above.
pub open spec fn fitting_unit(kb: nat) -> Unit {
    if size_class(kb) == 0 {
        Unit::kB
    } else if size_class(kb) == 1 {
        Unit::MB
    } else {
        Unit::GB
    }
}

/// The name of a unit.
pub open spec fn unit_name(u: Unit) -> Seq<char> {
    match u {
        Unit::kB => seq!['k', 'B'],
        Unit::MB => seq!['M', 'B'],
        Unit::GB => seq!['G', 'B'],
    }
}

/// An amount of kilobytes, as the process status gives it.
#[allow(non_camel_case_types)]
#[derive(Clone, Copy, Debug)]
pub struct kB {
    #[allow(non_snake_case)]
    pub kB: usize,
}

/// An amount converted to a unit: a whole number, or the gigabyte figure of
/// so many kilobytes, which is computed in floating point outside the library.
#[derive(Clone, Copy, Debug)]
pub enum Number {
    Usize(usize),
    Gigabytes(usize),
}

/// The text of a converted amount; `gb` is the gigabyte figure.
pub open spec fn number_text(n: Number, gb: Seq<char>) -> Seq<char> {
    match n {
        Number::Usize(u) => decimal(u as nat),
        Number::Gigabytes(_) => gb,
    }
}

/// An amount of `kb` kilobytes converted to unit `u`.
pub open spec fn converted(u: Unit, kb: usize) -> Number {
    match u {
        Unit::kB => Number::Usize(kb),
        Unit::MB => Number::Usize(kb / 1024),
        Unit::GB => Number::Gigabytes(kb),
    }
}

/// Amounts below 1024 kB are written in kilobytes, amounts below 1024 MB
/// (1048576 kB) in megabytes, larger ones in gigabytes.
pub proof fn lemma_fitting_thresholds(kb: nat)
    ensures
        kb < 1024 ==> fitting_unit(kb) == Unit::kB,
        1024 <= kb < 1048576 ==> fitting_unit(kb) == Unit::MB,
        1048576 <= kb ==> fitting_unit(kb) == Unit::GB,
{
    assert(1024 <= kb < 1048576 ==> kb / 1024 < 1024) by (nonlinear_arith);
    assert(1048576 <= kb ==> kb / 1024 >= 1024) by (nonlinear_arith);
}

/// A larger amount never prints a smaller number in kilobytes or megabytes:
/// both convert to whole numbers, written in decimal, and the number grows
/// with the amount. (The gigabyte figure is computed in floating point
/// outside the library.)
pub proof fn lemma_larger_amount_larger_figure(u: Unit, k1: usize, k2: usize, gb1: Seq<char>, gb2: Seq<char>)
    requires
        k1 <= k2,
        u != Unit::GB,
    ensures
        converted(u, k1) matches Number::Usize(a) && converted(u, k2) matches Number::Usize(b) && a
            <= b && parsed_usize(number_text(converted(u, k1), gb1)) == Some(a) && parsed_usize(
            number_text(converted(u, k2), gb2),
        ) == Some(b),
{
    lemma_megabytes_grow(k1 as nat, k2 as nat);
    match (converted(u, k1), converted(u, k2)) {
        (Number::Usize(a), Number::Usize(b)) => {
            lemma_parse_decimal(a);
            lemma_parse_decimal(b);
        },
        _ => {},
    }
}

impl Unit {
    /// The unit that suits an amount of memory.
    pub fn fitting(kb: usize) -> (u: Unit)
        ensures
            u == fitting_unit(kb as nat),
    {
        match size_class_of(kb) {
            0 => Unit::kB,
            1 => Unit::MB,
            _ => Unit::GB,
        }
    }

    /// The amount `rss` in this unit.
    pub fn convert(&self, rss: kB) -> (n: Number)
        ensures
            n == converted(*self, rss.kB),
    {
        match self {
            Unit::kB => Number::Usize(rss.kB),
            Unit::MB => Number::Usize(rss.kB / 1024),
            Unit::GB => Number::Gigabytes(rss.kB),
        }
    }

    /// The name of the unit.
    pub fn to_string(&self) -> (s: String)
        ensures
            s@ == unit_name(*self),
    {
        proof {
            reveal_strlit("kB");
            reveal_strlit("MB");
            reveal_strlit("GB");
        }
        match self {
            Unit::kB => String::from_str("kB"),
            Unit::MB => String::from_str("MB"),
            Unit::GB => String::from_str("GB"),
        }
    }
}

impl Number {
    /// The text of the amount; `gigabytes` is the gigabyte figure, used when
    /// the amount is one.
    pub fn to_string(&self, gigabytes: &str) -> (s: String)
        ensures
            s@ == number_text(*self, gigabytes@),
    {
        match self {
            Number::Usize(u) => usize_text(*u),
            Number::Gigabytes(_) => String::from_str(gigabytes),
        }
    }
}

/// Whether each process stands on a line of its own or all on one line.
#[derive(Clone, Copy, Debug, PartialEq, Eq, Structural)]
pub enum Layout {
    Lines,
    Line,
}

/// A process: its name, its resident set size and the unit it is shown in,
/// if one was chosen.
pub struct Process {
    pub name: String,
    pub rss: kB,
    pub unit: Option<Unit>,
}

/// The unit a process is shown in: the chosen one, or the one that fits.
pub open spec fn shown_unit(unit: Option<Unit>, kb: usize) -> Unit {
    match unit {
        Some(u) => u,
        None => fitting_unit(kb as nat),
    }
}

/// How a process is written: `name: amount unit`.
pub open spec fn process_text(name: Seq<char>, kb: usize, unit: Option<Unit>, gb: Seq<char>) -> Seq<char> {
    let u = shown_unit(unit, kb);
    name + seq![':', ' '] + number_text(converted(u, kb), gb) + seq![' '] + unit_name(u)
}

impl Process {
    /// How the process is written; `gigabytes` is the gigabyte figure of its
    /// amount.
    pub fn to_string(&self, gigabytes: &str) -> (s: String)
        ensures
            s@ == process_text(self.name@, self.rss.kB, self.unit, gigabytes@),
    {
        let unit = match self.unit {
            Some(u) => u,
            None => Unit::fitting(self.rss.kB),
        };
        proof {
            reveal_strlit(": ");
            reveal_strlit(" ");
        }
        let mut s = String::from_str(self.name.as_str());
        s.append(": ");
        s.append(unit.convert(self.rss).to_string(gigabytes).as_str());
        s.append(" ");
        s.append(unit.to_string().as_str());
        s
    }
}

/// `VmRSS:`
pub open spec fn rss_label() -> Seq<char> {
    seq!['V', 'm', 'R', 'S', 'S', ':']
}

/// The first line of a status text that begins with `VmRSS:`.
pub open spec fn rss_line(status: Seq<char>) -> Option<Seq<char>> {
    first_with_prefix(lines(status), rss_label())
}

/// The status text can be read without failing: where both the name and
/// the `VmRSS:` line are there, the line's second word is a number and the
/// name line can lose its label.
pub open spec fn readable(status: Seq<char>) -> bool {
    name_line(status) is Some && rss_line(status) is Some ==> amount_of(rss_line(status)->0) is Some
        && label_fits(name_line(status)->0)
}

fn find_rss_line(text: &Vec<char>) -> (r: Option<(usize, usize)>)
    ensures
        match r {
            Some((s, e)) => s <= e <= text.len() && rss_line(text@) == Some(
                text@.subrange(s as int, e as int),
            ),
            None => rss_line(text@) is None,
        },
{
    let rss_prefix = vec!['V', 'm', 'R', 'S', 'S', ':'];
    proof {
        assert(rss_prefix@ =~= rss_label());
    }
    find_line(text, &rss_prefix)
}

/// Reads a process from its status text: the name is what follows `Name:`
/// and a tab, the amount is the `VmRSS:` figure. There is no process where
/// either line is missing.
pub fn try_new_process(content: String, unit: Option<Unit>) -> (r: Option<Process>)
    requires
        readable(content@),
    ensures
        r is Some <==> name_line(content@) is Some && rss_line(content@) is Some,
        r matches Some(p) ==> {
            &&& p.name@ == label_value(name_line(content@)->0)
            &&& p.rss.kB == amount_of(rss_line(content@)->0)->0
            &&& p.unit == unit
        },
{
    let text = chars_of(content.as_str());
    match find_name_line(&text) {
        Some((ns, ne)) => match find_rss_line(&text) {
            Some((rs, re)) => {
                let kb = match line_amount(&text, rs, re) {
                    Some(v) => v,
                    None => {
                        return None;
                    },
                };
                let name = label_text(content.as_str(), ns, ne);
                Some(Process { name, rss: kB { kB: kb }, unit })
            },
            None => None,
        },
        None => None,
    }
}

/// Whether the status text can be read without failing.
pub fn can_read(content: &str) -> (b: bool)
    ensures
        b == readable(content@),
{
    let text = chars_of(content);
    match (find_name_line(&text), find_rss_line(&text)) {
        (Some((ns, ne)), Some((rs, re))) => line_amount(&text, rs, re).is_some()
            && label_fits_check(&text, ns, ne),
        _ => true,
    }
}

/// What a process holds: name, amount and chosen unit.
pub open spec fn process_view(p: Process) -> (Seq<char>, usize, Option<Unit>) {
    (p.name@, p.rss.kB, p.unit)
}

/// What the processes hold.
pub open spec fn process_views(ps: Seq<Process>) -> Seq<(Seq<char>, usize, Option<Unit>)> {
    ps.map_values(|p: Process| process_view(p))
}

impl Measured for Process {
    open spec fn name_view(&self) -> Seq<char> {
        self.name@
    }

    open spec fn amount(&self) -> usize {
        self.rss.kB
    }

    fn name_text(&self) -> (r: &String) {
        &self.name
    }

    fn amount_kb(&self) -> (r: usize) {
        self.rss.kB
    }
}

/// A gathered process: the count, and the first process of its name with the
/// amounts of all of them summed.
pub open spec fn group_view(e: (u32, Process)) -> (nat, Seq<char>, nat, Option<Unit>) {
    (e.0 as nat, e.1.name@, e.1.rss.kB as nat, e.1.unit)
}

/// What the gathered processes hold.
pub open spec fn group_views(v: Seq<(u32, Process)>) -> Seq<(nat, Seq<char>, nat, Option<Unit>)> {
    v.map_values(|e: (u32, Process)| group_view(e))
}

/// The processes gathered by name, in the order of first occurrence: how many
/// bear the name, the name, their summed amount and the unit of the first.
pub open spec fn gathered(ps: Seq<Process>) -> Seq<(nat, Seq<char>, nat, Option<Unit>)> {
    let ns = measured_names(ps);
    let ks = measured_amounts(ps);
    Seq::new(
        grouped_rows(ns, ks).len(),
        |k: int|
            (
                grouped_rows(ns, ks)[k].0,
                grouped_rows(ns, ks)[k].1,
                grouped_rows(ns, ks)[k].2,
                ps[firsts(ns)[k]].unit,
            ),
    )
}

/// The amounts of gathered processes.
pub open spec fn gathered_keys(g: Seq<(nat, Seq<char>, nat, Option<Unit>)>) -> Seq<nat> {
    g.map_values(|r: (nat, Seq<char>, nat, Option<Unit>)| r.2)
}

/// Ranks the processes by amount, largest first; among equal amounts the
/// later process comes first.
pub fn rank_ungrouped(procs: Vec<Process>) -> (ranked: Vec<Process>)
    ensures
        arranged(
            process_views(ranked@),
            process_views(procs@),
            nat_keys(measured_amounts(procs@)),
        ),
        ranked.len() == procs.len(),
        forall|a: int, b: int| 0 <= a < b < ranked.len() ==> #[trigger] ranked[a].rss.kB >= #[trigger] ranked[b].rss.kB,
        forall|i: int| 0 <= i < procs.len() ==> process_views(ranked@).contains(#[trigger] process_view(procs[i])),
{
    let n = procs.len();
    let (_, kbs) = names_and_amounts(&procs);
    let order = descending_order(&kbs);
    let ghost items = process_views(procs@);
    let mut ranked: Vec<Process> = Vec::new();
    for j in 0..n
        invariant
            n == procs.len(),
            items == process_views(procs@),
            order.len() == n,
            forall|a: int| 0 <= a < n ==> #[trigger] order[a] < n,
            ranked.len() == j,
            forall|a: int| 0 <= a < j ==> #[trigger] process_view(ranked[a]) == items[order[a] as int],
    {
        let p = &procs[order[j]];
        ranked.push(Process { name: p.name.clone(), rss: p.rss, unit: p.unit });
    }
    proof {
        assert forall|a: int| 0 <= a < process_views(ranked@).len() implies #[trigger] process_views(
            ranked@,
        )[a] == items[order@[a] as int] by {
            assert(process_view(ranked[a]) == items[order[a] as int]);
        }
        let key = |v: (Seq<char>, usize, Option<Unit>)| v.1 as nat;
        assert(nat_keys(measured_amounts(procs@)) =~= items.map_values(key));
        lemma_arranged_largest_first(process_views(ranked@), items, nat_keys(measured_amounts(procs@)), key);
        assert forall|a: int, b: int| 0 <= a < b < ranked.len() implies #[trigger] ranked[a].rss.kB >= #[trigger] ranked[b].rss.kB by {
            assert(key(process_views(ranked@)[a]) >= key(process_views(ranked@)[b]));
        }
        assert forall|i: int| 0 <= i < procs.len() implies process_views(ranked@).contains(#[trigger] process_view(procs[i])) by {
            assert(items[i] == process_view(procs[i]));
        }
    }
    ranked
}

/// Gathers the processes by name and ranks the groups by their summed amount,
/// largest first; among equal amounts the group of the later first process
/// comes first.
pub fn rank_grouped(procs: Vec<Process>) -> (ranked: Vec<(u32, Process)>)
    requires
        counts_fit(measured_names(procs@), measured_amounts(procs@)),
    ensures
        arranged(group_views(ranked@), gathered(procs@), gathered_keys(gathered(procs@))),
        ranked.len() == gathered(procs@).len(),
        forall|a: int, b: int| 0 <= a < b < ranked.len() ==> #[trigger] ranked[a].1.rss.kB >= #[trigger] ranked[b].1.rss.kB,
        forall|i: int| 0 <= i < gathered(procs@).len() ==> group_views(ranked@).contains(#[trigger] gathered(procs@)[i]),
{
    let n = procs.len();
    let (names, kbs) = names_and_amounts(&procs);
    let ghost ns = measured_names(procs@);
    let ghost ks = measured_amounts(procs@);
    let ghost target = gathered(procs@);
    let groups = group_by_name(&names, &kbs);
    let m = groups.len();
    let mut totals: Vec<usize> = Vec::new();
    proof {
        lemma_groups_rows(groups@, ns, ks);
    }
    for j in 0..m
        invariant
            m == groups.len(),
            totals.len() == j,
            forall|a: int| 0 <= a < j ==> #[trigger] totals[a] == groups[a].total,
    {
        totals.push(groups[j].total);
    }
    proof {
        assert(target.len() == m);
        assert forall|a: int| 0 <= a < m implies #[trigger] nat_keys(totals@)[a] == gathered_keys(
            target,
        )[a] by {
            assert(totals[a] == groups[a].total);
            assert(grouped_rows(ns, ks)[a] == (
                groups@[a].count as nat,
                ns[groups@[a].first as int],
                groups@[a].total as nat,
            ));
        }
        assert(nat_keys(totals@) =~= gathered_keys(target));
    }
    let order = descending_order(&totals);
    let mut ranked: Vec<(u32, Process)> = Vec::new();
    for j in 0..m
        invariant
            m == groups.len(),
            n == names.len(),
            n == procs.len(),
            target == gathered(procs@),
            ns == measured_names(procs@),
            ns == text_views(names@),
            ks == measured_amounts(procs@),
            crate::ranking::groups_of(groups@, ns, ks),
            order.len() == m,
            forall|a: int| 0 <= a < m ==> #[trigger] order[a] < m,
            forall|a: int| 0 <= a < m ==> #[trigger] groups[a].first < n,
            ranked.len() == j,
            forall|a: int| 0 <= a < j ==> #[trigger] group_view(ranked[a]) == target[order[a] as int],
    {
        let g = groups[order[j]];
        let first = &procs[g.first];
        ranked.push((g.count, Process { name: names[g.first].clone(), rss: kB { kB: g.total }, unit: first.unit }));
        proof {
            lemma_groups_rows(groups@, ns, ks);
            crate::ranking::lemma_group_firsts(groups@, ns, ks);
        }
    }
    proof {
        assert forall|a: int| 0 <= a < group_views(ranked@).len() implies #[trigger] group_views(
            ranked@,
        )[a] == target[order@[a] as int] by {
            assert(group_view(ranked[a]) == target[order[a] as int]);
        }
        let key = |r: (nat, Seq<char>, nat, Option<Unit>)| r.2;
        assert(gathered_keys(target) =~= target.map_values(key));
        lemma_arranged_largest_first(group_views(ranked@), target, gathered_keys(target), key);
        assert forall|a: int, b: int| 0 <= a < b < ranked.len() implies #[trigger] ranked[a].1.rss.kB >= #[trigger] ranked[b].1.rss.kB by {
            assert(key(group_views(ranked@)[a]) >= key(group_views(ranked@)[b]));
        }
    }
    ranked
}

/// The separator after each process in a layout.
pub open spec fn layout_text(l: Layout) -> Seq<char> {
    match l {
        Layout::Lines => seq!['\n'],
        Layout::Line => seq![' '],
    }
}

/// What ends the report: a line feed after a one-line report.
pub open spec fn closing_text(l: Layout) -> Seq<char> {
    match l {
        Layout::Lines => seq![],
        Layout::Line => seq!['\n'],
    }
}

/// The text of one gathered process: its count in brackets when
/// `group_count`, the process, and the separator.
pub open spec fn grouped_entry(
    r: (nat, Seq<char>, nat, Option<Unit>),
    group_count: bool,
    layout: Layout,
    gb: Seq<char>,
) -> Seq<char> {
    let head = if group_count {
        seq!['['] + decimal(r.0) + seq![']', ' ']
    } else {
        seq![]
    };
    head + process_text(r.1, r.2 as usize, r.3, gb) + layout_text(layout)
}

/// The texts of the first `m` gathered processes.
pub open spec fn grouped_lines(
    rs: Seq<(nat, Seq<char>, nat, Option<Unit>)>,
    gbs: Seq<Seq<char>>,
    m: nat,
    group_count: bool,
    layout: Layout,
) -> Seq<char>
    decreases m,
{
    if m == 0 {
        seq![]
    } else {
        grouped_lines(rs, gbs, (m - 1) as nat, group_count, layout) + grouped_entry(
            rs[m - 1],
            group_count,
            layout,
            gbs[m - 1],
        )
    }
}

/// A chosen unit is the unit a process is written in: its name, a colon, the
/// amount converted to that unit, and the unit's name; the fitting unit plays
/// no part.
pub proof fn lemma_chosen_unit_written(name: Seq<char>, kb: usize, u: Unit, gb: Seq<char>)
    ensures
        process_text(name, kb, Some(u), gb) == name + seq![':', ' '] + number_text(
            converted(u, kb),
            gb,
        ) + seq![' '] + unit_name(u),
        process_text(name, kb, None, gb) == name + seq![':', ' '] + number_text(
            converted(fitting_unit(kb as nat), kb),
            gb,
        ) + seq![' '] + unit_name(fitting_unit(kb as nat)),
{
}

/// The one-line report ends with a line feed; the report on lines has no
/// more after its last line.
pub proof fn lemma_report_endings()
    ensures
        closing_text(Layout::Line) == seq!['\n'],
        closing_text(Layout::Lines) == Seq::<char>::empty(),
        layout_text(Layout::Line) == seq![' '],
        layout_text(Layout::Lines) == seq!['\n'],
{
}

/// The report of the first `m + 1` gathered processes is that of the first
/// `m` followed by the entry of process `m`.
pub proof fn lemma_grouped_lines_grow(
    rs: Seq<(nat, Seq<char>, nat, Option<Unit>)>,
    gbs: Seq<Seq<char>>,
    m: nat,
    group_count: bool,
    layout: Layout,
)
    ensures
        grouped_lines(rs, gbs, m + 1, group_count, layout) == grouped_lines(rs, gbs, m, group_count, layout)
            + grouped_entry(rs[m as int], group_count, layout, gbs[m as int]),
        grouped_lines(rs, gbs, 0, group_count, layout) == Seq::<char>::empty(),
{
}

/// An entry of the gathered report is the count (when asked), then the
/// gathered process written as `Process::to_string` writes it, with the unit
/// chosen for it, then the separator.
pub proof fn lemma_grouped_entry_is_process_text(
    r: (nat, Seq<char>, nat, Option<Unit>),
    group_count: bool,
    layout: Layout,
    gb: Seq<char>,
)
    ensures
        grouped_entry(r, group_count, layout, gb) == (if group_count {
            seq!['['] + decimal(r.0) + seq![']', ' ']
        } else {
            seq![]
        }) + process_text(r.1, r.2 as usize, r.3, gb) + layout_text(layout),
{
}

/// The figure in brackets at the head of an entry with counts is the whole
/// count: a run of digits, closed by `]`, that reads back as the count.
pub proof fn lemma_count_in_brackets(
    r: (nat, Seq<char>, nat, Option<Unit>),
    layout: Layout,
    gb: Seq<char>,
)
    requires
        r.0 <= usize::MAX,
    ensures
        ({
            let t = grouped_entry(r, true, layout, gb);
            t[0] == '[' && exists|j: int|
                1 < j < t.len() && t[j] == ']' && all_digits(t.subrange(1, j)) && parsed_usize(
                    t.subrange(1, j),
                ) == Some(r.0 as usize)
        }),
{
    let t = grouped_entry(r, true, layout, gb);
    let d = decimal(r.0);
    lemma_decimal_digits(r.0);
    lemma_parse_decimal(r.0 as usize);
    let j: int = 1 + d.len() as int;
    assert(t.subrange(1, j) =~= d);
    assert(t[j] == ']');
}

/// The report of processes one by one is each process written as
/// `Process::to_string` writes it, with its own chosen unit, followed by the
/// separator: one more process adds exactly its text.
pub proof fn lemma_ungrouped_lines_are_process_texts(
    rs: Seq<(Seq<char>, usize, Option<Unit>)>,
    gbs: Seq<Seq<char>>,
    m: nat,
    layout: Layout,
)
    ensures
        ungrouped_lines(rs, gbs, m + 1, layout) == ungrouped_lines(rs, gbs, m, layout) + process_text(
            rs[m as int].0,
            rs[m as int].1,
            rs[m as int].2,
            gbs[m as int],
        ) + layout_text(layout),
        ungrouped_lines(rs, gbs, 0, layout) == Seq::<char>::empty(),
{
}

/// The texts of the first `m` processes.
pub open spec fn ungrouped_lines(
    rs: Seq<(Seq<char>, usize, Option<Unit>)>,
    gbs: Seq<Seq<char>>,
    m: nat,
    layout: Layout,
) -> Seq<char>
    decreases m,
{
    if m == 0 {
        seq![]
    } else {
        ungrouped_lines(rs, gbs, (m - 1) as nat, layout) + process_text(
            rs[m - 1].0,
            rs[m - 1].1,
            rs[m - 1].2,
            gbs[m - 1],
        ) + layout_text(layout)
    }
}


fn separator(layout: Layout) -> (s: &'static str)
    ensures
        s@ == layout_text(layout),
{
    proof {
        reveal_strlit("\n");
        reveal_strlit(" ");
    }
    match layout {
        Layout::Lines => "\n",
        Layout::Line => " ",
    }
}

fn closing(layout: Layout) -> (s: &'static str)
    ensures
        s@ == closing_text(layout),
{
    proof {
        reveal_strlit("\n");
        reveal_strlit("");
    }
    match layout {
        Layout::Lines => "",
        Layout::Line => "\n",
    }
}

/// The report of the first `how_many` gathered processes; `gigabytes[i]` is
/// the gigabyte figure of entry `i`.
pub fn display_processes_grouped(
    collection: &Vec<(u32, Process)>,
    group_count: bool,
    how_many: usize,
    layout: Layout,
    gigabytes: &Vec<String>,
) -> (out: String)
    requires
        gigabytes.len() == collection.len(),
    ensures
        out@ == grouped_lines(
            group_views(collection@),
            text_views(gigabytes@),
            at_most(how_many as nat, collection.len() as nat),
            group_count,
            layout,
        ) + closing_text(layout),
{
    let ghost rs = group_views(collection@);
    let ghost gbs = text_views(gigabytes@);
    let shown = if how_many < collection.len() {
        how_many
    } else {
        collection.len()
    };
    let mut out = String::new();
    for i in 0..shown
        invariant
            shown <= collection.len(),
            gigabytes.len() == collection.len(),
            rs == group_views(collection@),
            gbs == text_views(gigabytes@),
            out@ == grouped_lines(rs, gbs, i as nat, group_count, layout),
    {
        let ghost r = rs[i as int];
        let ghost head = if group_count {
            seq!['['] + decimal(r.0) + seq![']', ' ']
        } else {
            seq![]
        };
        proof {
            assert(r == group_view(collection[i as int]));
            assert(gbs[i as int] == gigabytes[i as int]@);
            reveal_strlit("[");
            reveal_strlit("] ");
        }
        let mut entry = String::new();
        if group_count {
            entry.append("[");
            entry.append(usize_text(collection[i].0 as usize).as_str());
            entry.append("] ");
        }
        assert(entry@ =~= head);
        entry.append(collection[i].1.to_string(gigabytes[i].as_str()).as_str());
        entry.append(separator(layout));
        proof {
            assert(entry@ =~= grouped_entry(r, group_count, layout, gbs[i as int]));
        }
        out.append(entry.as_str());
    }
    out.append(closing(layout));
    out
}

/// The report of the first `how_many` processes; `gigabytes[i]` is the
/// gigabyte figure of entry `i`.
pub fn display_processes_ungrouped(
    collection: &Vec<Process>,
    how_many: usize,
    layout: Layout,
    gigabytes: &Vec<String>,
) -> (out: String)
    requires
        gigabytes.len() == collection.len(),
    ensures
        out@ == ungrouped_lines(
            process_views(collection@),
            text_views(gigabytes@),
            at_most(how_many as nat, collection.len() as nat),
            layout,
        ) + closing_text(layout),
{
    let ghost rs = process_views(collection@);
    let ghost gbs = text_views(gigabytes@);
    let shown = if how_many < collection.len() {
        how_many
    } else {
        collection.len()
    };
    let mut out = String::new();
    for i in 0..shown
        invariant
            shown <= collection.len(),
            gigabytes.len() == collection.len(),
            rs == process_views(collection@),
            gbs == text_views(gigabytes@),
            out@ == ungrouped_lines(rs, gbs, i as nat, layout),
    {
        proof {
            assert(rs[i as int] == process_view(collection[i as int]));
            assert(gbs[i as int] == gigabytes[i as int]@);
        }
        out.append(collection[i].to_string(gigabytes[i].as_str()).as_str());
        out.append(separator(layout));
    }
    out.append(closing(layout));
    out
}

} // verus!
