//! Grouping of processes by name and ranking by memory use.
use vstd::prelude::*;
use crate::text::text_views;

verus! {

/// `a` is listed before `b`: more memory first, and among equal amounts the
/// later item first (the order of a stable ascending sort, reversed).
pub open spec fn precedes(keys: Seq<nat>, a: int, b: int) -> bool {
    keys[a] > keys[b] || (keys[a] == keys[b] && a > b)
}

/// `order` lists every index of `keys` once, from the largest key down.
pub open spec fn is_ranking(order: Seq<usize>, keys: Seq<nat>) -> bool {
    &&& order.len() == keys.len()
    &&& order.len() <= usize::MAX
    &&& forall|a: int| 0 <= a < order.len() ==> #[trigger] order[a] < keys.len()
    &&& forall|i: usize| i < keys.len() ==> #[trigger] order.contains(i)
    &&& forall|a: int, b: int|
        0 <= a < b < order.len() ==> precedes(keys, #[trigger] order[a] as int, #[trigger] order[b] as int)
}

/// The keys of a vector of amounts, as natural numbers.
pub open spec fn nat_keys(v: Seq<usize>) -> Seq<nat> {
    v.map_values(|x: usize| x as nat)
}

/// `out` holds the items of `items` in the order of some ranking of `keys`.
pub open spec fn arranged<T>(out: Seq<T>, items: Seq<T>, keys: Seq<nat>) -> bool {
    exists|order: Seq<usize>|
        is_ranking(order, keys) && out.len() == order.len() && forall|k: int|
            0 <= k < out.len() ==> #[trigger] out[k] == items[order[k] as int]
}

proof fn lemma_rankings_agree_below(o1: Seq<usize>, o2: Seq<usize>, keys: Seq<nat>, k: int)
    requires
        is_ranking(o1, keys),
        is_ranking(o2, keys),
        0 <= k <= o1.len(),
    ensures
        forall|a: int| 0 <= a < k ==> o1[a] == o2[a],
    decreases k,
{
    if k > 0 {
        lemma_rankings_agree_below(o1, o2, keys, k - 1);
        let a = k - 1;
        let x = o1[a];
        let y = o2[a];
        if x != y {
            assert(o1.contains(y));
            let c = choose|c: int| 0 <= c < o1.len() && o1[c] == y;
            assert(o2.contains(x));
            let d = choose|d: int| 0 <= d < o2.len() && o2[d] == x;
            if c < a {
                assert(o2[c] == y);
                assert(precedes(keys, o2[c] as int, o2[a] as int));
            } else if d < a {
                assert(o1[d] == x);
                assert(precedes(keys, o1[d] as int, o1[a] as int));
            } else {
                assert(c != a && d != a);
                assert(precedes(keys, o1[a] as int, o1[c] as int));
                assert(precedes(keys, o2[a] as int, o2[d] as int));
            }
        }
    }
}

/// The amounts decide the ranking: two rankings of the same amounts are the
/// same.
pub proof fn lemma_ranking_unique(o1: Seq<usize>, o2: Seq<usize>, keys: Seq<nat>)
    requires
        is_ranking(o1, keys),
        is_ranking(o2, keys),
    ensures
        o1 == o2,
{
    lemma_rankings_agree_below(o1, o2, keys, o1.len() as int);
    assert(o1 =~= o2);
}

/// The amounts decide the arrangement: two arrangements of the same items by
/// the same amounts are the same.
pub proof fn lemma_arranged_unique<T>(out1: Seq<T>, out2: Seq<T>, items: Seq<T>, keys: Seq<nat>)
    requires
        arranged(out1, items, keys),
        arranged(out2, items, keys),
    ensures
        out1 == out2,
{
    let o1 = choose|order: Seq<usize>|
        is_ranking(order, keys) && out1.len() == order.len() && forall|k: int|
            0 <= k < out1.len() ==> #[trigger] out1[k] == items[order[k] as int];
    let o2 = choose|order: Seq<usize>|
        is_ranking(order, keys) && out2.len() == order.len() && forall|k: int|
            0 <= k < out2.len() ==> #[trigger] out2[k] == items[order[k] as int];
    lemma_ranking_unique(o1, o2, keys);
    assert forall|k: int| 0 <= k < out1.len() implies out1[k] == out2[k] by {
        assert(out1[k] == items[o1[k] as int]);
        assert(out2[k] == items[o2[k] as int]);
    }
    assert(out1 =~= out2);
}

/// An arrangement lists every item once, by key from the largest down.
pub proof fn lemma_arranged_largest_first<T>(
    out: Seq<T>,
    items: Seq<T>,
    keys: Seq<nat>,
    key: spec_fn(T) -> nat,
)
    requires
        arranged(out, items, keys),
        keys == items.map_values(key),
    ensures
        out.len() == items.len(),
        forall|a: int, b: int| 0 <= a < b < out.len() ==> key(#[trigger] out[a]) >= key(#[trigger] out[b]),
        forall|i: int| 0 <= i < items.len() ==> out.contains(#[trigger] items[i]),
{
    assert(keys.len() == items.len());
    let order = choose|order: Seq<usize>|
        is_ranking(order, keys) && out.len() == order.len() && forall|k: int|
            0 <= k < out.len() ==> #[trigger] out[k] == items[order[k] as int];
    assert forall|a: int, b: int| 0 <= a < b < out.len() implies key(#[trigger] out[a]) >= key(#[trigger] out[b]) by {
        assert(precedes(keys, order[a] as int, order[b] as int));
        assert(out[a] == items[order[a] as int]);
        assert(out[b] == items[order[b] as int]);
    }
    assert forall|i: int| 0 <= i < items.len() implies out.contains(#[trigger] items[i]) by {
        assert(order.contains(i as usize));
        let a = choose|a: int| 0 <= a < order.len() && order[a] == i as usize;
        assert(out[a] == items[order[a] as int]);
        assert(out[a] == items[i]);
    }
}

/// The positions of `keys` from the largest key down; among equal keys the
/// later position comes first.
pub fn descending_order(keys: &Vec<usize>) -> (order: Vec<usize>)
    ensures
        is_ranking(order@, nat_keys(keys@)),
{
    let ghost ks = nat_keys(keys@);
    let n = keys.len();
    let mut order: Vec<usize> = Vec::new();
    for i in 0..n
        invariant
            n == keys.len(),
            ks == nat_keys(keys@),
            order.len() == i,
            forall|a: int| 0 <= a < order.len() ==> #[trigger] order[a] < i,
            forall|j: usize| j < i ==> #[trigger] order@.contains(j),
            forall|a: int, b: int|
                0 <= a < b < order.len() ==> precedes(ks, #[trigger] order[a] as int, #[trigger] order[b] as int),
    {
        let key = keys[i];
        let mut p: usize = 0;
        while p < order.len() && keys[order[p]] > key
            invariant
                n == keys.len(),
                ks == nat_keys(keys@),
                i < n,
                key == keys[i as int],
                p <= order.len(),
                forall|a: int| 0 <= a < order.len() ==> #[trigger] order[a] < i,
                forall|a: int| 0 <= a < p ==> keys[#[trigger] order[a] as int] > key,
            decreases order.len() - p,
        {
            p = p + 1;
        }
        let ghost old_order = order@;
        order.insert(p, i);
        proof {
            old_order.insert_ensures(p as int, i);
            assert forall|j: usize| j < i + 1 implies #[trigger] order@.contains(j) by {
                if j == i {
                    assert(order@[p as int] == i);
                } else {
                    assert(old_order.contains(j));
                    let q = choose|q: int| 0 <= q < old_order.len() && old_order[q] == j;
                    if q < p {
                        assert(order@[q] == j);
                    } else {
                        assert(order@[q + 1] == j);
                    }
                }
            }
            assert forall|a: int, b: int|
                0 <= a < b < order.len() implies precedes(ks, #[trigger] order[a] as int, #[trigger] order[b] as int) by {
                if a < p && b < p {
                } else if a < p && b == p {
                    assert(keys[order[a] as int] > key);
                } else if a < p && b > p {
                    assert(order[b] == old_order[b - 1]);
                } else if a == p {
                    let x = old_order[b - 1];
                    assert(order[b] == x);
                    if p < old_order.len() {
                        assert(keys[old_order[p as int] as int] <= key);
                        if b - 1 > p {
                            assert(precedes(ks, old_order[p as int] as int, old_order[b - 1] as int));
                        }
                    }
                } else {
                    assert(order[a] == old_order[a - 1]);
                    assert(order[b] == old_order[b - 1]);
                }
            }
        }
    }
    order
}


/// The processes that share a name, gathered: `first` is the position of the
/// first one, `count` how many there are and `total` the sum of their amounts.
#[derive(Clone, Copy, Debug)]
pub struct Group {
    pub first: usize,
    pub count: u32,
    pub total: usize,
}

/// No earlier name equals the name at `i`.
pub open spec fn is_first(ns: Seq<Seq<char>>, i: int) -> bool {
    forall|j: int| 0 <= j < i ==> ns[j] != ns[i]
}

/// The positions at which a name occurs for the first time, in increasing order.
pub open spec fn firsts(ns: Seq<Seq<char>>) -> Seq<int>
    decreases ns.len(),
{
    if ns.len() == 0 {
        seq![]
    } else if is_first(ns, ns.len() - 1) {
        firsts(ns.drop_last()).push(ns.len() - 1)
    } else {
        firsts(ns.drop_last())
    }
}

/// How many times `x` occurs in `ns`.
pub open spec fn name_count(ns: Seq<Seq<char>>, x: Seq<char>) -> nat
    decreases ns.len(),
{
    if ns.len() == 0 {
        0
    } else {
        name_count(ns.drop_last(), x) + if ns.last() == x { 1nat } else { 0nat }
    }
}

/// The sum of the amounts `ks` at the positions where `ns` holds `x`.
pub open spec fn name_total(ns: Seq<Seq<char>>, ks: Seq<usize>, x: Seq<char>) -> nat
    decreases ns.len(),
{
    if ns.len() == 0 || ks.len() == 0 {
        0
    } else {
        name_total(ns.drop_last(), ks.drop_last(), x) + if ns.last() == x {
            ks.last() as nat
        } else {
            0nat
        }
    }
}

/// The sum of all amounts.
pub open spec fn amount_sum(ks: Seq<usize>) -> nat
    decreases ks.len(),
{
    if ks.len() == 0 {
        0
    } else {
        amount_sum(ks.drop_last()) + ks.last() as nat
    }
}

/// The sum of the counts of the groups.
pub open spec fn count_sum(gs: Seq<Group>) -> nat
    decreases gs.len(),
{
    if gs.len() == 0 {
        0
    } else {
        count_sum(gs.drop_last()) + gs.last().count as nat
    }
}

/// The sum of the totals of the groups.
pub open spec fn total_sum(gs: Seq<Group>) -> nat
    decreases gs.len(),
{
    if gs.len() == 0 {
        0
    } else {
        total_sum(gs.drop_last()) + gs.last().total as nat
    }
}

/// `gs` gathers the names `ns` with amounts `ks`: one group per distinct name,
/// in the order of first occurrence.
#[verifier::opaque]
pub open spec fn groups_of(gs: Seq<Group>, ns: Seq<Seq<char>>, ks: Seq<usize>) -> bool {
    &&& gs.len() == firsts(ns).len()
    &&& forall|k: int|
        0 <= k < gs.len() ==> {
            &&& #[trigger] gs[k].first == firsts(ns)[k]
            &&& gs[k].count == name_count(ns, ns[gs[k].first as int])
            &&& gs[k].total == name_total(ns, ks, ns[gs[k].first as int])
        }
}

/// No group's count or total overflows its machine integer.
pub open spec fn counts_fit(ns: Seq<Seq<char>>, ks: Seq<usize>) -> bool {
    forall|i: int|
        0 <= i < ns.len() ==> name_count(ns, #[trigger] ns[i]) <= u32::MAX && name_total(
            ns,
            ks,
            ns[i],
        ) <= usize::MAX
}

/// One row per process: a count of one, its name and its amount.
pub open spec fn single_rows(ns: Seq<Seq<char>>, ks: Seq<usize>) -> Seq<(nat, Seq<char>, nat)> {
    Seq::new(ns.len(), |i: int| (1nat, ns[i], ks[i] as nat))
}

/// One row per distinct name, in the order of first occurrence: how many
/// processes bear the name, the name, and the sum of their amounts.
pub open spec fn grouped_rows(ns: Seq<Seq<char>>, ks: Seq<usize>) -> Seq<(nat, Seq<char>, nat)> {
    Seq::new(
        firsts(ns).len(),
        |k: int|
            (
                name_count(ns, ns[firsts(ns)[k]]),
                ns[firsts(ns)[k]],
                name_total(ns, ks, ns[firsts(ns)[k]]),
            ),
    )
}

/// The amounts of the rows, by which they are ranked.
pub open spec fn row_keys(rows: Seq<(nat, Seq<char>, nat)>) -> Seq<nat> {
    rows.map_values(|r: (nat, Seq<char>, nat)| r.2)
}

proof fn lemma_count_single(ns: Seq<Seq<char>>, ks: Seq<usize>, i: int)
    requires
        0 <= i < ns.len(),
        ns.len() == ks.len(),
        forall|a: int, b: int| 0 <= a < b < ns.len() ==> ns[a] != ns[b],
    ensures
        name_count(ns, ns[i]) == 1,
        name_total(ns, ks, ns[i]) == ks[i],
    decreases ns.len(),
{
    let x = ns[i];
    let d = ns.drop_last();
    let dk = ks.drop_last();
    if i == ns.len() - 1 {
        assert forall|j: int| 0 <= j < d.len() implies d[j] != x by {
            assert(ns[j] != ns[i]);
        }
        lemma_count_absent(d, x);
        lemma_total_absent(d, dk, x);
    } else {
        assert(d[i] == x);
        lemma_count_single(d, dk, i);
        assert(ns.last() != x);
    }
}

proof fn lemma_firsts_all(ns: Seq<Seq<char>>)
    requires
        forall|a: int, b: int| 0 <= a < b < ns.len() ==> ns[a] != ns[b],
    ensures
        firsts(ns).len() == ns.len(),
        forall|k: int| 0 <= k < ns.len() ==> #[trigger] firsts(ns)[k] == k,
    decreases ns.len(),
{
    if ns.len() > 0 {
        let d = ns.drop_last();
        lemma_firsts_all(d);
        assert(is_first(ns, ns.len() - 1));
    }
}

/// Gathering by name changes nothing where no two names are equal: each
/// group holds one process.
pub proof fn lemma_distinct_names_alone(ns: Seq<Seq<char>>, ks: Seq<usize>)
    requires
        ns.len() == ks.len(),
        forall|a: int, b: int| 0 <= a < b < ns.len() ==> ns[a] != ns[b],
    ensures
        grouped_rows(ns, ks) == single_rows(ns, ks),
{
    lemma_firsts_all(ns);
    assert forall|k: int| 0 <= k < ns.len() implies grouped_rows(ns, ks)[k] == single_rows(ns, ks)[k] by {
        assert(firsts(ns)[k] == k);
        lemma_count_single(ns, ks, k);
    }
    assert(grouped_rows(ns, ks) =~= single_rows(ns, ks));
}

/// A process as far as ranking goes: a name and an amount of memory.
pub trait Measured {
    /// The name.
    spec fn name_view(&self) -> Seq<char>;

    /// The amount, in kilobytes.
    spec fn amount(&self) -> usize;

    /// The name.
    fn name_text(&self) -> (r: &String)
        ensures
            r@ == self.name_view(),
    ;

    /// The amount, in kilobytes.
    fn amount_kb(&self) -> (r: usize)
        ensures
            r == self.amount(),
    ;
}

/// The names of the processes.
pub open spec fn measured_names<P: Measured>(ps: Seq<P>) -> Seq<Seq<char>> {
    ps.map_values(|p: P| p.name_view())
}

/// The amounts of the processes.
pub open spec fn measured_amounts<P: Measured>(ps: Seq<P>) -> Seq<usize> {
    ps.map_values(|p: P| p.amount())
}

/// The names and the amounts of the processes, copied out.
pub fn names_and_amounts<P: Measured>(procs: &Vec<P>) -> (r: (Vec<String>, Vec<usize>))
    ensures
        text_views(r.0@) == measured_names(procs@),
        r.1@ == measured_amounts(procs@),
{
    let n = procs.len();
    let mut names: Vec<String> = Vec::new();
    let mut kbs: Vec<usize> = Vec::new();
    for i in 0..n
        invariant
            n == procs.len(),
            names.len() == i,
            kbs.len() == i,
            forall|j: int| 0 <= j < i ==> #[trigger] names[j]@ == procs[j].name_view(),
            forall|j: int| 0 <= j < i ==> #[trigger] kbs[j] == procs[j].amount(),
    {
        names.push(procs[i].name_text().clone());
        kbs.push(procs[i].amount_kb());
    }
    proof {
        assert(text_views(names@) =~= measured_names(procs@));
        assert(kbs@ =~= measured_amounts(procs@));
    }
    (names, kbs)
}

/// Whether the processes can be gathered by name without a count or a total
/// overflowing.
pub fn can_group<P: Measured>(procs: &Vec<P>) -> (b: bool)
    ensures
        b == counts_fit(measured_names(procs@), measured_amounts(procs@)),
{
    let (names, kbs) = names_and_amounts(procs);
    counts_fit_check(&names, &kbs)
}

/// The smaller of two counts.
pub open spec fn at_most(n: nat, len: nat) -> nat {
    if n < len {
        n
    } else {
        len
    }
}

/// A report of the first `n` of `len` rows shows `n` rows where there are
/// enough, and all of them otherwise.
pub proof fn lemma_at_most(n: nat, len: nat)
    ensures
        at_most(n, len) <= n,
        at_most(n, len) <= len,
        at_most(n, len) == n || at_most(n, len) == len,
{
}

proof fn lemma_first_prefix(ns: Seq<Seq<char>>, m: int, i: int)
    requires
        0 <= i < m <= ns.len(),
    ensures
        is_first(ns.take(m), i) == is_first(ns, i),
{
    assert(forall|j: int| 0 <= j <= i ==> ns.take(m)[j] == ns[j]);
}

/// Some first occurrence in `ns` bears the name `x`.
pub open spec fn has_group(ns: Seq<Seq<char>>, x: Seq<char>) -> bool {
    exists|k: int| 0 <= k < firsts(ns).len() && ns[#[trigger] firsts(ns)[k]] == x
}

/// What `firsts` holds: increasing first positions that cover every name.
proof fn lemma_firsts(ns: Seq<Seq<char>>)
    ensures
        forall|k: int|
            0 <= k < firsts(ns).len() ==> 0 <= #[trigger] firsts(ns)[k] < ns.len() && is_first(
                ns,
                firsts(ns)[k],
            ),
        forall|a: int, b: int|
            0 <= a < b < firsts(ns).len() ==> #[trigger] firsts(ns)[a] < #[trigger] firsts(ns)[b],
        forall|j: int| 0 <= j < ns.len() ==> #[trigger] has_group(ns, ns[j]),
    decreases ns.len(),
{
    if ns.len() > 0 {
        let d = ns.drop_last();
        lemma_firsts(d);
        let fd = firsts(d);
        let f = firsts(ns);
        assert forall|k: int| 0 <= k < fd.len() implies is_first(ns, #[trigger] fd[k]) by {
            assert(d =~= ns.take(ns.len() - 1));
            lemma_first_prefix(ns, ns.len() - 1, fd[k]);
        }
        assert forall|j: int| 0 <= j < ns.len() implies #[trigger] has_group(ns, ns[j]) by {
            if j < ns.len() - 1 {
                assert(d[j] == ns[j]);
                assert(has_group(d, d[j]));
                let k = choose|k: int| 0 <= k < fd.len() && d[#[trigger] fd[k]] == d[j];
                assert(f[k] == fd[k]);
                assert(ns[f[k]] == ns[j]);
            } else if is_first(ns, j) {
                assert(f[f.len() - 1] == j);
            } else {
                let j2 = choose|j2: int| 0 <= j2 < j && ns[j2] == ns[j];
                assert(d[j2] == ns[j2]);
                assert(has_group(d, d[j2]));
                let k = choose|k: int| 0 <= k < fd.len() && d[#[trigger] fd[k]] == d[j2];
                assert(f[k] == fd[k]);
                assert(ns[f[k]] == ns[j]);
            }
        }
    }
}

proof fn lemma_count_absent(ns: Seq<Seq<char>>, x: Seq<char>)
    requires
        forall|j: int| 0 <= j < ns.len() ==> ns[j] != x,
    ensures
        name_count(ns, x) == 0,
    decreases ns.len(),
{
    if ns.len() > 0 {
        lemma_count_absent(ns.drop_last(), x);
    }
}

proof fn lemma_total_absent(ns: Seq<Seq<char>>, ks: Seq<usize>, x: Seq<char>)
    requires
        forall|j: int| 0 <= j < ns.len() ==> ns[j] != x,
    ensures
        name_total(ns, ks, x) == 0,
    decreases ns.len(),
{
    if ns.len() > 0 && ks.len() > 0 {
        lemma_total_absent(ns.drop_last(), ks.drop_last(), x);
    }
}

proof fn lemma_count_prefix(ns: Seq<Seq<char>>, ks: Seq<usize>, i: int, x: Seq<char>)
    requires
        0 <= i <= ns.len(),
        ns.len() == ks.len(),
    ensures
        name_count(ns.take(i), x) <= name_count(ns, x),
        name_total(ns.take(i), ks.take(i), x) <= name_total(ns, ks, x),
    decreases ns.len(),
{
    if i == ns.len() {
        assert(ns.take(i) =~= ns);
        assert(ks.take(i) =~= ks);
    } else {
        assert(ns.take(i) =~= ns.drop_last().take(i));
        assert(ks.take(i) =~= ks.drop_last().take(i));
        lemma_count_prefix(ns.drop_last(), ks.drop_last(), i, x);
    }
}

proof fn lemma_count_sum_update(gs: Seq<Group>, k: int, g: Group)
    requires
        0 <= k < gs.len(),
    ensures
        count_sum(gs.update(k, g)) == count_sum(gs) - gs[k].count + g.count,
        total_sum(gs.update(k, g)) == total_sum(gs) - gs[k].total + g.total,
    decreases gs.len(),
{
    if k == gs.len() - 1 {
        assert(gs.update(k, g).drop_last() =~= gs.drop_last());
    } else {
        assert(gs.update(k, g).drop_last() =~= gs.drop_last().update(k, g));
        lemma_count_sum_update(gs.drop_last(), k, g);
    }
}

/// What the groups of a prefix say of their first positions.
pub proof fn lemma_group_firsts(gs: Seq<Group>, ns: Seq<Seq<char>>, ks: Seq<usize>)
    requires
        groups_of(gs, ns, ks),
    ensures
        gs.len() == firsts(ns).len(),
        forall|a: int| 0 <= a < gs.len() ==> #[trigger] gs[a].first == firsts(ns)[a],
        forall|a: int| 0 <= a < gs.len() ==> 0 <= #[trigger] gs[a].first < ns.len(),
        forall|a: int, b: int|
            0 <= a < b < gs.len() ==> ns[#[trigger] gs[a].first as int] != ns[#[trigger] gs[b].first as int],
{
    reveal(groups_of);
    lemma_firsts(ns);
    assert forall|a: int, b: int|
        0 <= a < b < gs.len() implies ns[#[trigger] gs[a].first as int] != ns[#[trigger] gs[b].first as int] by {
        assert(firsts(ns)[a] < firsts(ns)[b]);
    }
}

/// The groups of `ns` are its grouped rows.
pub proof fn lemma_groups_rows(gs: Seq<Group>, ns: Seq<Seq<char>>, ks: Seq<usize>)
    requires
        groups_of(gs, ns, ks),
    ensures
        gs.len() == grouped_rows(ns, ks).len(),
        forall|a: int| 0 <= a < gs.len() ==> #[trigger] gs[a].first < ns.len(),
        forall|a: int|
            0 <= a < gs.len() ==> grouped_rows(ns, ks)[a] == (
                gs[a].count as nat,
                ns[#[trigger] gs[a].first as int],
                gs[a].total as nat,
            ),
{
    reveal(groups_of);
    lemma_firsts(ns);
}

/// The count and total of the group `k` that bears the name at `i` still fit
/// once the process at `i` joins it.
proof fn lemma_group_join_fits(ns: Seq<Seq<char>>, ks: Seq<usize>, i: int, gs: Seq<Group>, k: int)
    requires
        0 <= i < ns.len(),
        ns.len() == ks.len(),
        counts_fit(ns, ks),
        groups_of(gs, ns.take(i), ks.take(i)),
        0 <= k < gs.len(),
        ns[gs[k].first as int] == ns[i],
    ensures
        gs[k].count + 1 <= u32::MAX,
        gs[k].total + ks[i] <= usize::MAX,
{
    let pre = ns.take(i);
    let pk = ks.take(i);
    let x = ns[i];
    let f = gs[k].first as int;
    lemma_group_firsts(gs, pre, pk);
    assert(gs[k].count == name_count(pre, pre[f]) && gs[k].total == name_total(pre, pk, pre[f])) by {
        reveal(groups_of);
    }
    assert(pre[f] == x);
    lemma_count_prefix(ns, ks, i + 1, x);
    let post = ns.take(i + 1);
    assert(post.drop_last() =~= pre);
    assert(ks.take(i + 1).drop_last() =~= pk);
    assert(post.last() == x);
    assert(name_count(post, x) == gs[k].count + 1);
    assert(name_total(post, ks.take(i + 1), x) == gs[k].total + ks[i]);
    assert(name_count(ns, ns[i]) <= u32::MAX);
}

/// Adding the process at `i` to the group `k` that already bears its name.
proof fn lemma_group_join(ns: Seq<Seq<char>>, ks: Seq<usize>, i: int, gs: Seq<Group>, k: int, g: Group)
    requires
        0 <= i < ns.len(),
        ns.len() == ks.len(),
        counts_fit(ns, ks),
        groups_of(gs, ns.take(i), ks.take(i)),
        0 <= k < gs.len(),
        ns[gs[k].first as int] == ns[i],
        g.first == gs[k].first,
        g.count == gs[k].count + 1,
        g.total == gs[k].total + ks[i],
    ensures
        groups_of(gs.update(k, g), ns.take(i + 1), ks.take(i + 1)),
{
    reveal(groups_of);
    let pre = ns.take(i);
    let post = ns.take(i + 1);
    let postk = ks.take(i + 1);
    assert(post.drop_last() =~= pre);
    assert(postk.drop_last() =~= ks.take(i));
    lemma_firsts(pre);
    let f0 = gs[k].first as int;
    assert(post[f0] == pre[f0]);
    assert(!is_first(post, i));
    assert(firsts(post) == firsts(pre));
    let gs2 = gs.update(k, g);
    assert forall|a: int| 0 <= a < gs2.len() implies {
        &&& #[trigger] gs2[a].first == firsts(post)[a]
        &&& gs2[a].count == name_count(post, post[gs2[a].first as int])
        &&& gs2[a].total == name_total(post, postk, post[gs2[a].first as int])
    } by {
        let f = gs2[a].first as int;
        assert(post[f] == pre[f]);
        if a != k {
            assert(firsts(pre)[a] != firsts(pre)[k]);
            assert(pre[f] != pre[f0]);
        }
    }
}

/// The process at `i` opens a new group: no group bears its name yet.
proof fn lemma_group_open(ns: Seq<Seq<char>>, ks: Seq<usize>, i: int, gs: Seq<Group>, g: Group)
    requires
        0 <= i < ns.len(),
        ns.len() == ks.len(),
        groups_of(gs, ns.take(i), ks.take(i)),
        forall|a: int| 0 <= a < gs.len() ==> ns[#[trigger] gs[a].first as int] != ns[i],
        g.first == i,
        g.count == 1,
        g.total == ks[i],
    ensures
        groups_of(gs.push(g), ns.take(i + 1), ks.take(i + 1)),
{
    reveal(groups_of);
    let pre = ns.take(i);
    let pk = ks.take(i);
    let post = ns.take(i + 1);
    let postk = ks.take(i + 1);
    assert(post.drop_last() =~= pre);
    assert(postk.drop_last() =~= pk);
    lemma_firsts(pre);
    assert forall|j: int| 0 <= j < i implies ns[j] != ns[i] by {
        assert(pre[j] == ns[j]);
        assert(has_group(pre, pre[j]));
        let a = choose|a: int| 0 <= a < firsts(pre).len() && pre[#[trigger] firsts(pre)[a]] == pre[j];
        assert(gs[a].first == firsts(pre)[a]);
    }
    assert(is_first(post, i));
    lemma_count_absent(pre, ns[i]);
    lemma_total_absent(pre, pk, ns[i]);
    let gs2 = gs.push(g);
    assert forall|a: int| 0 <= a < gs2.len() implies {
        &&& #[trigger] gs2[a].first == firsts(post)[a]
        &&& gs2[a].count == name_count(post, post[gs2[a].first as int])
        &&& gs2[a].total == name_total(post, postk, post[gs2[a].first as int])
    } by {
        if a < gs.len() {
            let f = gs2[a].first as int;
            assert(post[f] == pre[f]);
            assert(pre[f] != ns[i]);
        }
    }
}

/// Gathers the processes by name, as a map from name to count and total
/// would: one group per distinct name, in the order in which the names first
/// occur.
pub fn group_by_name(names: &Vec<String>, kbs: &Vec<usize>) -> (groups: Vec<Group>)
    requires
        names.len() == kbs.len(),
        counts_fit(text_views(names@), kbs@),
    ensures
        groups_of(groups@, text_views(names@), kbs@),
        forall|a: int, b: int|
            0 <= a < b < groups.len() ==> text_views(names@)[#[trigger] groups[a].first as int]
                != text_views(names@)[#[trigger] groups[b].first as int],
        count_sum(groups@) == names.len(),
        total_sum(groups@) == amount_sum(kbs@),
{
    let ghost ns = text_views(names@);
    let ghost ks = kbs@;
    let n = names.len();
    let mut groups: Vec<Group> = Vec::new();
    proof {
        assert(ns.take(0) =~= seq![]);
        assert(ks.take(0) =~= seq![]);
        reveal(groups_of);
    }
    for i in 0..n
        invariant
            n == names.len(),
            n == kbs.len(),
            ns == text_views(names@),
            ks == kbs@,
            counts_fit(ns, ks),
            groups_of(groups@, ns.take(i as int), ks.take(i as int)),
            count_sum(groups@) == i,
            total_sum(groups@) == amount_sum(ks.take(i as int)),
    {
        let ghost pre = ns.take(i as int);
        proof {
            lemma_group_firsts(groups@, pre, ks.take(i as int));
            assert(ks.take(i + 1).drop_last() =~= ks.take(i as int));
        }
        let mut k: usize = 0;
        let mut found = false;
        while !found && k < groups.len()
            invariant
                n == names.len(),
                ns == text_views(names@),
                i < n,
                k <= groups.len(),
                forall|a: int| 0 <= a < groups.len() ==> 0 <= #[trigger] groups[a].first < i,
                pre == ns.take(i as int),
                found ==> k < groups.len() && ns[groups[k as int].first as int] == ns[i as int],
                !found ==> forall|a: int| 0 <= a < k ==> ns[#[trigger] groups[a].first as int] != ns[i as int],
            decreases groups.len() - k + if found { 0int } else { 1int },
        {
            if names[groups[k].first] == names[i] {
                found = true;
            } else {
                k = k + 1;
            }
        }
        let kb = kbs[i];
        let ghost before = groups@;
        if found {
            let old = groups[k];
            proof {
                lemma_group_join_fits(ns, ks, i as int, before, k as int);
            }
            let g = Group { first: old.first, count: old.count + 1, total: old.total + kb };
            groups.set(k, g);
            proof {
                lemma_group_join(ns, ks, i as int, before, k as int, g);
                lemma_count_sum_update(before, k as int, g);
            }
        } else {
            let g = Group { first: i, count: 1, total: kb };
            groups.push(g);
            proof {
                lemma_group_open(ns, ks, i as int, before, g);
                assert(groups@.drop_last() =~= before);
            }
        }
    }
    proof {
        assert(ns.take(n as int) =~= ns);
        assert(ks.take(n as int) =~= ks);
        lemma_group_firsts(groups@, ns, ks);
    }
    groups
}

/// Whether gathering by name keeps every count and total within its machine
/// integer.
pub fn counts_fit_check(names: &Vec<String>, kbs: &Vec<usize>) -> (b: bool)
    requires
        names.len() == kbs.len(),
    ensures
        b == counts_fit(text_views(names@), kbs@),
{
    let ghost ns = text_views(names@);
    let ghost ks = kbs@;
    let n = names.len();
    for i in 0..n
        invariant
            n == names.len(),
            n == kbs.len(),
            ns == text_views(names@),
            ks == kbs@,
            forall|a: int|
                0 <= a < i ==> name_count(ns, #[trigger] ns[a]) <= u32::MAX && name_total(ns, ks, ns[a])
                    <= usize::MAX,
    {
        let ghost x = ns[i as int];
        let mut count: u32 = 0;
        let mut total: usize = 0;
        for j in 0..n
            invariant
                n == names.len(),
                n == kbs.len(),
                ns == text_views(names@),
                ks == kbs@,
                i < n,
                x == ns[i as int],
                count == name_count(ns.take(j as int), x),
                total == name_total(ns.take(j as int), ks.take(j as int), x),
        {
            let ghost post = ns.take(j + 1);
            proof {
                assert(post.drop_last() =~= ns.take(j as int));
                assert(ks.take(j + 1).drop_last() =~= ks.take(j as int));
                assert(post.last() == ns[j as int]);
                assert(names[j as int]@ == ns[j as int]);
                assert(names[i as int]@ == x);
            }
            if names[j] == names[i] {
                if count == u32::MAX || total > usize::MAX - kbs[j] {
                    proof {
                        lemma_count_prefix(ns, ks, j + 1, x);
                    }
                    return false;
                }
                count = count + 1;
                total = total + kbs[j];
            }
        }
        proof {
            assert(ns.take(n as int) =~= ns);
            assert(ks.take(n as int) =~= ks);
        }
    }
    true
}

} // verus!
