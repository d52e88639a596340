//! Turning the collected outcomes into the final report.
//!
//! The report lists the open ports in ascending order and counts every
//! outcome received. It depends on the outcomes as a collection only: the
//! order in which the probes finished leaves no trace in it.

use crate::probe::ProbeOutcome;
use vstd::prelude::*;
use vstd::relations::{sorted_by, total_ordering};
use vstd::seq_lib::{
    lemma_multiset_commutative, lemma_sorted_unique, to_multiset_build, to_multiset_len,
};

verus! {

/// What a finished scan reports.
#[derive(Clone, Debug, PartialEq, Eq)]
pub struct ScanResult {
    /// The ports found open, ascending.
    pub open_ports: Vec<u16>,
    /// How many outcomes were received, open or not.
    pub total_scanned: usize,
    /// The concurrency ceiling the scan ran under.
    pub concurrency_used: usize,
}

/// The mathematical content of a [`ScanResult`].
pub struct Report {
    pub open_ports: Seq<u16>,
    pub total_scanned: nat,
    pub concurrency_used: nat,
}

impl View for ScanResult {
    type V = Report;

    open spec fn view(&self) -> Report {
        Report {
            open_ports: self.open_ports@,
            total_scanned: self.total_scanned as nat,
            concurrency_used: self.concurrency_used as nat,
        }
    }
}

/// The order the report lists ports in.
pub open spec fn port_order() -> spec_fn(u16, u16) -> bool {
    |a: u16, b: u16| a <= b
}

/// No port is followed, anywhere later, by a smaller one.
pub open spec fn ascending(ports: Seq<u16>) -> bool {
    forall|i: int, j: int| 0 <= i < j < ports.len() ==> ports[i] <= ports[j]
}

/// Every port is smaller than all that follow it: ascending without repeats.
pub open spec fn strictly_ascending(ports: Seq<u16>) -> bool {
    forall|i: int, j: int| 0 <= i < j < ports.len() ==> ports[i] < ports[j]
}

/// No two outcomes speak of the same port.
pub open spec fn distinct_ports(outcomes: Seq<ProbeOutcome>) -> bool {
    forall|i: int, j: int|
        0 <= i < j < outcomes.len() ==> (#[trigger] outcomes[i]).port != (#[trigger] outcomes[j]).port
}

/// The ports of the open outcomes, in the order the outcomes arrived.
pub open spec fn open_ports_of(outcomes: Seq<ProbeOutcome>) -> Seq<u16> {
    outcomes.filter(|o: ProbeOutcome| o.open).map_values(|o: ProbeOutcome| o.port)
}

/// The report that belongs to `outcomes`: the open ports in ascending order,
/// and the number of outcomes.
pub open spec fn summarize(outcomes: Seq<ProbeOutcome>, concurrency_used: nat) -> Report {
    Report {
        open_ports: open_ports_of(outcomes).sort_by(port_order()),
        total_scanned: outcomes.len(),
        concurrency_used,
    }
}

/// `<=` on ports is a total order.
pub proof fn lemma_port_order_total()
    ensures
        total_ordering(port_order()),
{
    let leq = port_order();
    assert forall|x: u16, y: u16| #[trigger] leq(x, y) && #[trigger] leq(y, x) implies x == y by {}
    assert forall|x: u16, y: u16, z: u16| #[trigger] leq(x, y) && #[trigger] leq(y, z) implies leq(
        x,
        z,
    ) by {}
}

/// Two ascending sequences that hold the same ports, each as often as the
/// other, are the same sequence.
pub proof fn lemma_ascending_unique(x: Seq<u16>, y: Seq<u16>)
    requires
        ascending(x),
        ascending(y),
        x.to_multiset() == y.to_multiset(),
    ensures
        x == y,
{
    lemma_port_order_total();
    assert(sorted_by(x, port_order()));
    assert(sorted_by(y, port_order()));
    lemma_sorted_unique(x, y, port_order());
}

/// The report's port list is the ascending arrangement of the open ports:
/// it is ascending and holds each open port as often as the outcomes do.
pub proof fn lemma_summarize_arranges(outcomes: Seq<ProbeOutcome>, concurrency_used: nat)
    ensures
        ascending(summarize(outcomes, concurrency_used).open_ports),
        summarize(outcomes, concurrency_used).open_ports.to_multiset() == open_ports_of(
            outcomes,
        ).to_multiset(),
        summarize(outcomes, concurrency_used).open_ports.len() == open_ports_of(outcomes).len(),
{
    lemma_port_order_total();
    let ports = open_ports_of(outcomes);
    let sorted = ports.sort_by(port_order());
    ports.lemma_sort_by_ensures(port_order());
    assert forall|i: int, j: int| 0 <= i < j < sorted.len() implies sorted[i] <= sorted[j] by {
        assert(port_order()(sorted[i], sorted[j]));
    }
    to_multiset_len(ports);
    to_multiset_len(sorted);
}

/// Conversely, whatever ascending sequence holds exactly the open ports is
/// the report's port list.
pub proof fn lemma_arrangement_is_summary(
    ports: Seq<u16>,
    outcomes: Seq<ProbeOutcome>,
    concurrency_used: nat,
)
    requires
        ascending(ports),
        ports.to_multiset() == open_ports_of(outcomes).to_multiset(),
    ensures
        ports == summarize(outcomes, concurrency_used).open_ports,
{
    lemma_summarize_arranges(outcomes, concurrency_used);
    lemma_ascending_unique(ports, summarize(outcomes, concurrency_used).open_ports);
}

/// Adding one outcome at the end adds its port to the open ports if it is
/// open, and nothing otherwise.
pub proof fn lemma_open_ports_push(outcomes: Seq<ProbeOutcome>, last: ProbeOutcome)
    ensures
        open_ports_of(outcomes.push(last)) == if last.open {
            open_ports_of(outcomes).push(last.port)
        } else {
            open_ports_of(outcomes)
        },
{
    let keep = |o: ProbeOutcome| o.open;
    let port = |o: ProbeOutcome| o.port;
    outcomes.lemma_filter_push(last, keep);
    if last.open {
        assert(outcomes.filter(keep).push(last).map_values(port) =~= outcomes.filter(
            keep,
        ).map_values(port).push(last.port));
    }
}

/// A port occurs among the open ports as often as the outcomes hold an open
/// outcome for it.
pub proof fn lemma_open_ports_count(outcomes: Seq<ProbeOutcome>, port: u16)
    ensures
        open_ports_of(outcomes).to_multiset().count(port) == outcomes.to_multiset().count(
            ProbeOutcome { port, open: true },
        ),
    decreases outcomes.len(),
{
    broadcast use vstd::seq_lib::group_to_multiset_ensures;

    if outcomes.len() == 0 {
        lemma_open_ports_empty();
    } else {
        let front = outcomes.drop_last();
        let last = outcomes.last();
        assert(outcomes =~= front.push(last));
        lemma_open_ports_count(front, port);
        lemma_open_ports_push(front, last);
        if last.open {
            assert(open_ports_of(outcomes).to_multiset() =~= open_ports_of(
                front,
            ).to_multiset().insert(last.port));
        }
    }
}

/// No outcomes, no open ports.
pub proof fn lemma_open_ports_empty()
    ensures
        open_ports_of(Seq::<ProbeOutcome>::empty()) == Seq::<u16>::empty(),
{
    reveal(Seq::filter);
}

/// Rearranging the outcomes rearranges the open ports and does no more.
pub proof fn lemma_open_ports_permutation(a: Seq<ProbeOutcome>, b: Seq<ProbeOutcome>)
    requires
        a.to_multiset() == b.to_multiset(),
    ensures
        open_ports_of(a).to_multiset() == open_ports_of(b).to_multiset(),
{
    assert forall|port: u16|
        open_ports_of(a).to_multiset().count(port) == open_ports_of(b).to_multiset().count(
            port,
        ) by {
        lemma_open_ports_count(a, port);
        lemma_open_ports_count(b, port);
    }
}

/// The report does not depend on the order of arrival: two sequences that
/// hold the same outcomes, each as often as the other, have the same report.
pub proof fn lemma_aggregate_order_independent(
    a: Seq<ProbeOutcome>,
    b: Seq<ProbeOutcome>,
    concurrency_used: nat,
)
    requires
        a.to_multiset() == b.to_multiset(),
    ensures
        summarize(a, concurrency_used) == summarize(b, concurrency_used),
{
    lemma_open_ports_permutation(a, b);
    lemma_summarize_arranges(a, concurrency_used);
    lemma_summarize_arranges(b, concurrency_used);
    lemma_ascending_unique(
        summarize(a, concurrency_used).open_ports,
        summarize(b, concurrency_used).open_ports,
    );
    to_multiset_len(a);
    to_multiset_len(b);
}

/// Where no two outcomes speak of the same port, the report lists no port
/// twice: its port list is strictly ascending.
pub proof fn lemma_distinct_ports_strict(outcomes: Seq<ProbeOutcome>, concurrency_used: nat)
    requires
        distinct_ports(outcomes),
    ensures
        strictly_ascending(summarize(outcomes, concurrency_used).open_ports),
{
    let listed = summarize(outcomes, concurrency_used).open_ports;
    lemma_summarize_arranges(outcomes, concurrency_used);
    outcomes.lemma_multiset_has_no_duplicates();
    assert forall|port: u16| listed.to_multiset().contains(port) implies listed.to_multiset().count(
        port,
    ) == 1 by {
        lemma_open_ports_count(outcomes, port);
    }
    listed.lemma_multiset_has_no_duplicates_conv();
}

/// Aggregating the same outcomes twice gives the same report twice,
/// whichever way round they were handed over, and arranging a report's port
/// list once more leaves it as it is.
pub proof fn lemma_aggregate_idempotent(
    first: Report,
    second: Report,
    a: Seq<ProbeOutcome>,
    b: Seq<ProbeOutcome>,
    concurrency_used: nat,
)
    requires
        a.to_multiset() == b.to_multiset(),
        first == summarize(a, concurrency_used),
        second == summarize(b, concurrency_used),
    ensures
        first == second,
        first.open_ports.sort_by(port_order()) == first.open_ports,
{
    lemma_aggregate_order_independent(a, b, concurrency_used);
    lemma_port_order_total();
    lemma_summarize_arranges(a, concurrency_used);
    let listed = first.open_ports;
    let again = listed.sort_by(port_order());
    listed.lemma_sort_by_ensures(port_order());
    assert forall|i: int, j: int| 0 <= i < j < again.len() implies again[i] <= again[j] by {
        assert(port_order()(again[i], again[j]));
    }
    lemma_ascending_unique(again, listed);
}

/// Copies `ports[from..to]`.
fn copy_range(ports: &Vec<u16>, from: usize, to: usize) -> (part: Vec<u16>)
    requires
        from <= to <= ports.len(),
    ensures
        part@ == ports@.subrange(from as int, to as int),
{
    let mut part: Vec<u16> = Vec::with_capacity(to - from);
    let mut k: usize = from;
    while k < to
        invariant
            from <= k <= to <= ports.len(),
            part@ == ports@.subrange(from as int, k as int),
        decreases to - k,
    {
        part.push(ports[k]);
        k += 1;
    }
    part
}

/// Merges two ascending sequences into one.
fn merge(left: &Vec<u16>, right: &Vec<u16>) -> (merged: Vec<u16>)
    requires
        ascending(left@),
        ascending(right@),
    ensures
        ascending(merged@),
        merged@.to_multiset() == left@.to_multiset().add(right@.to_multiset()),
{
    let mut merged: Vec<u16> = Vec::new();
    let mut i: usize = 0;
    let mut j: usize = 0;
    proof {
        assert(left@.take(0) =~= merged@);
        assert(right@.take(0) =~= merged@);
        to_multiset_len(merged@);
    }
    while i < left.len() || j < right.len()
        invariant
            i <= left.len(),
            j <= right.len(),
            ascending(left@),
            ascending(right@),
            ascending(merged@),
            merged@.len() > 0 && i < left.len() ==> merged@.last() <= left@[i as int],
            merged@.len() > 0 && j < right.len() ==> merged@.last() <= right@[j as int],
            merged@.to_multiset() == left@.take(i as int).to_multiset().add(
                right@.take(j as int).to_multiset(),
            ),
        decreases left.len() - i + right.len() - j,
    {
        let from_left: bool = if i == left.len() {
            false
        } else if j == right.len() {
            true
        } else {
            left[i] <= right[j]
        };
        let ghost before = merged@;
        if from_left {
            let port: u16 = left[i];
            merged.push(port);
            proof {
                let taken = left@.take(i as int);
                assert(left@.take(i + 1) =~= taken.push(port));
                to_multiset_build(before, port);
                to_multiset_build(taken, port);
                assert(before.to_multiset().insert(port) =~= taken.to_multiset().insert(port).add(
                    right@.take(j as int).to_multiset(),
                ));
            }
            i += 1;
        } else {
            let port: u16 = right[j];
            merged.push(port);
            proof {
                let taken = right@.take(j as int);
                assert(right@.take(j + 1) =~= taken.push(port));
                to_multiset_build(before, port);
                to_multiset_build(taken, port);
                assert(before.to_multiset().insert(port) =~= left@.take(i as int).to_multiset().add(
                    taken.to_multiset().insert(port),
                ));
            }
            j += 1;
        }
    }
    assert(left@.take(i as int) =~= left@);
    assert(right@.take(j as int) =~= right@);
    merged
}

/// Arranges `ports` in ascending order by merging sorted halves.
fn sort_ports(ports: &Vec<u16>) -> (sorted: Vec<u16>)
    ensures
        ascending(sorted@),
        sorted@.to_multiset() == ports@.to_multiset(),
    decreases ports.len(),
{
    let n: usize = ports.len();
    if n <= 1 {
        let same = copy_range(ports, 0, n);
        assert(same@ =~= ports@);
        return same;
    }
    let mid: usize = n / 2;
    let left = copy_range(ports, 0, mid);
    let right = copy_range(ports, mid, n);
    proof {
        assert(ports@ =~= left@ + right@);
        lemma_multiset_commutative(left@, right@);
    }
    let left_sorted = sort_ports(&left);
    let right_sorted = sort_ports(&right);
    merge(&left_sorted, &right_sorted)
}

/// Picks the ports of the open outcomes, in the order the outcomes arrived.
fn collect_open_ports(outcomes: &Vec<ProbeOutcome>) -> (ports: Vec<u16>)
    ensures
        ports@ == open_ports_of(outcomes@),
{
    let mut ports: Vec<u16> = Vec::new();
    let mut k: usize = 0;
    proof {
        lemma_open_ports_empty();
    }
    while k < outcomes.len()
        invariant
            k <= outcomes.len(),
            ports@ == open_ports_of(outcomes@.take(k as int)),
        decreases outcomes.len() - k,
    {
        let outcome: ProbeOutcome = outcomes[k];
        proof {
            lemma_open_ports_push(outcomes@.take(k as int), outcome);
            assert(outcomes@.take(k + 1) =~= outcomes@.take(k as int).push(outcome));
        }
        if outcome.open {
            ports.push(outcome.port);
        }
        k += 1;
    }
    assert(outcomes@.take(k as int) =~= outcomes@);
    ports
}

/// Builds the report of a scan from the outcomes of its probes, in whatever
/// order they arrived: the open ports in ascending order, the number of
/// outcomes received, and the concurrency ceiling the scan ran under. No port
/// is removed from the list: it holds a port twice only where two open
/// outcomes speak of it.
pub fn aggregate(outcomes: &Vec<ProbeOutcome>, concurrency_used: usize) -> (result: ScanResult)
    ensures
        result@ == summarize(outcomes@, concurrency_used as nat),
        ascending(result@.open_ports),
        result@.open_ports.to_multiset() == open_ports_of(outcomes@).to_multiset(),
        result@.total_scanned == outcomes@.len(),
        result@.concurrency_used == concurrency_used,
        distinct_ports(outcomes@) ==> strictly_ascending(result@.open_ports),
{
    let open = collect_open_ports(outcomes);
    let open_ports = sort_ports(&open);
    proof {
        lemma_arrangement_is_summary(open_ports@, outcomes@, concurrency_used as nat);
        if distinct_ports(outcomes@) {
            lemma_distinct_ports_strict(outcomes@, concurrency_used as nat);
        }
    }
    ScanResult { open_ports, total_scanned: outcomes.len(), concurrency_used }
}

} // verus!
