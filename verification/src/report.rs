//! What the fetchers report, and what is made of it.

use vstd::prelude::*;

verus! {

/// What a fetcher reports. Times are in nanoseconds.
#[derive(Debug, Clone, Copy, PartialEq, Eq, Structural)]
pub enum Event {
    Connection { id: usize, conn_time: u128, tls_time: Option<u128>, conn_ready: u128 },
    Request { id: usize, request_time: u128 },
}

/// The whole milliseconds in a number of nanoseconds.
pub open spec fn millis(nanos: u128) -> u128 {
    nanos / 1_000_000
}

/// The sum of some times.
pub open spec fn total(times: Seq<u128>) -> nat
    decreases times.len(),
{
    if times.len() == 0 {
        0
    } else {
        total(times.drop_last()) + times.last() as nat
    }
}

/// How two times are ordered.
pub open spec fn not_longer() -> spec_fn(u128, u128) -> bool {
    |a: u128, b: u128| a <= b
}

/// Some times, the shortest first.
pub open spec fn ascending(times: Seq<u128>) -> Seq<u128> {
    times.sort_by(not_longer())
}

/// What was reported: the number of connections, and how long each request took
/// in milliseconds.
pub struct ReportModel {
    pub connections: nat,
    pub times: Seq<u128>,
}

impl ReportModel {
    /// With another event.
    pub open spec fn record(self, event: Event) -> ReportModel {
        match event {
            Event::Connection { .. } => ReportModel { connections: self.connections + 1, ..self },
            Event::Request { id, request_time } => ReportModel {
                times: self.times.push(millis(request_time)),
                ..self
            },
        }
    }
}

/// A report in the making.
#[derive(Debug)]
pub struct Report {
    connections: usize,
    times: Vec<u128>,
}

impl View for Report {
    type V = ReportModel;

    closed spec fn view(&self) -> ReportModel {
        ReportModel { connections: self.connections as nat, times: self.times@ }
    }
}

/// What is said of a run. Times are in milliseconds.
#[derive(Debug, Clone, Copy, PartialEq, Eq, Structural)]
pub struct Summary {
    pub connections: usize,
    pub requests: usize,
    /// The sum of the times of all requests.
    pub total: u128,
    pub median: u128,
    pub p95: u128,
    pub p99: u128,
}

/// `slice::sort` on integers: the same items, the smallest first.
#[verifier::external_body]
fn sort(times: &mut Vec<u128>)
    ensures
        final(times)@.to_multiset() == old(times)@.to_multiset(),
        forall|i: int, j: int|
            0 <= i < j < final(times)@.len() ==> final(times)@[i] <= final(times)@[j],
{
    times.sort();
}

proof fn lemma_ascending(times: Seq<u128>)
    ensures
        ascending(times).to_multiset() == times.to_multiset(),
        ascending(times).len() == times.len(),
        vstd::relations::sorted_by(ascending(times), not_longer()),
{
    let order = not_longer();
    assert(vstd::relations::total_ordering(order)) by {
        assert(vstd::relations::reflexive(order));
        assert(vstd::relations::antisymmetric(order));
        assert(vstd::relations::transitive(order));
        assert(vstd::relations::strongly_connected(order));
    }
    times.lemma_sort_by_ensures(order);
    times.to_multiset_ensures();
    ascending(times).to_multiset_ensures();
}

proof fn lemma_total_steps(times: Seq<u128>, i: int)
    requires
        0 <= i <= times.len(),
    ensures
        total(times.take(i)) <= total(times),
    decreases times.len() - i,
{
    if i < times.len() {
        assert(times.take(i + 1).drop_last() =~= times.take(i));
        lemma_total_steps(times, i + 1);
    } else {
        assert(times.take(i) =~= times);
    }
}

impl Report {
    /// Nothing was reported.
    pub fn new() -> (res: Self)
        ensures
            res@ == (ReportModel { connections: 0, times: Seq::empty() }),
    {
        Report { connections: 0, times: Vec::new() }
    }

    /// How many connections were reported.
    pub fn connections(&self) -> (res: usize)
        ensures
            res == self@.connections,
    {
        self.connections
    }

    /// How many requests were reported.
    pub fn requests(&self) -> (res: usize)
        ensures
            res == self@.times.len(),
    {
        self.times.len()
    }

    /// Notes an event.
    pub fn record(&mut self, event: &Event)
        requires
            *event is Connection ==> old(self)@.connections < usize::MAX,
        ensures
            final(self)@ == old(self)@.record(*event),
            match *event {
                Event::Connection { .. } => {
                    &&& final(self)@.connections == old(self)@.connections + 1
                    &&& final(self)@.times == old(self)@.times
                },
                Event::Request { id, request_time } => {
                    &&& final(self)@.connections == old(self)@.connections
                    &&& final(self)@.times.len() == old(self)@.times.len() + 1
                    &&& final(self)@.times.drop_last() == old(self)@.times
                    &&& final(self)@.times.last() * 1_000_000 <= request_time
                    &&& request_time < (final(self)@.times.last() + 1) * 1_000_000
                },
            },
    {
        match *event {
            Event::Connection { .. } => {
                self.connections = self.connections + 1;
            },
            Event::Request { id: _, request_time } => {
                self.times.push(request_time / 1_000_000);
                assert(self@.times.drop_last() =~= old(self)@.times);
            },
        }
    }

    /// The sum of all times, where a `u128` can hold it.
    pub fn total(&self) -> (res: Option<u128>)
        ensures
            res is Some <==> total(self@.times) <= u128::MAX,
            res matches Some(sum) ==> sum == total(self@.times),
    {
        let ghost times = self.times@;
        let mut sum: u128 = 0;
        let mut i: usize = 0;
        assert(times.take(0) =~= Seq::empty());
        while i < self.times.len()
            invariant
                0 <= i <= self.times@.len(),
                times == self.times@,
                times == self@.times,
                sum == total(times.take(i as int)),
            decreases self.times@.len() - i,
        {
            proof {
                assert(times.take(i + 1).drop_last() =~= times.take(i as int));
                lemma_total_steps(times, i + 1);
            }
            match sum.checked_add(self.times[i]) {
                Some(next) => {
                    sum = next;
                },
                None => {
                    return None;
                },
            }
            i = i + 1;
        }
        assert(times.take(i as int) =~= times);
        Some(sum)
    }

    /// Sums up what was reported, where there was a request. `p95` and `p99`
    /// are the places of the 95th and the 99th percentile among the times.
    pub fn summary(self, p95: usize, p99: usize) -> (res: Option<Summary>)
        requires
            self@.times.len() > 0 ==> p95 < self@.times.len() && p99 < self@.times.len(),
            total(self@.times) <= u128::MAX,
        ensures
            res is None <==> self@.times.len() == 0,
            res matches Some(summary) ==> {
                let times = ascending(self@.times);
                &&& summary.connections == self@.connections
                &&& summary.requests == self@.times.len()
                &&& summary.total == total(self@.times)
                &&& summary.median == times[self@.times.len() as int / 2]
                &&& summary.p95 == times[p95 as int]
                &&& summary.p99 == times[p99 as int]
            },
    {
        if self.times.len() == 0 {
            return None;
        }
        let sum: u128 = match self.total() {
            Some(sum) => sum,
            None => 0,
        };
        let ghost before = self.times@;
        let connections: usize = self.connections;
        let mut times = self.times;
        sort(&mut times);
        proof {
            lemma_ascending(before);
            assert(vstd::relations::sorted_by(times@, not_longer()));
            vstd::seq_lib::lemma_sorted_unique(times@, ascending(before), not_longer());
        }
        let mid: usize = times.len() / 2;
        Some(
            Summary {
                connections,
                requests: times.len(),
                total: sum,
                median: times[mid],
                p95: times[p95],
                p99: times[p99],
            },
        )
    }
}

/// What was reported by some events.
pub open spec fn recorded(events: Seq<Event>) -> ReportModel
    decreases events.len(),
{
    if events.len() == 0 {
        ReportModel { connections: 0, times: Seq::empty() }
    } else {
        recorded(events.drop_last()).record(events.last())
    }
}

/// Every connection and every request that was reported counts once.
pub proof fn law_every_event_counts_once(events: Seq<Event>)
    ensures
        recorded(events).connections == events.filter(|event: Event| event is Connection).len(),
        recorded(events).times.len() == events.filter(|event: Event| event is Request).len(),
    decreases events.len(),
{
    reveal(Seq::filter);
    if events.len() > 0 {
        law_every_event_counts_once(events.drop_last());
    }
}

/// The median and the percentiles are times that were measured, in their order:
/// no more than `k` of the times can be below the one in place `k`.
pub proof fn law_places_are_in_order(times: Seq<u128>, k: int)
    requires
        0 <= k < times.len(),
    ensures
        ascending(times).len() == times.len(),
        times.contains(ascending(times)[k]),
        forall|i: int|
            0 <= i < times.len() && #[trigger] ascending(times)[i] < ascending(times)[k] ==> i < k,
{
    lemma_ascending(times);
    let sorted = ascending(times);
    times.to_multiset_ensures();
    sorted.to_multiset_ensures();
    assert(sorted.to_multiset().count(sorted[k]) > 0) by {
        assert(sorted.contains(sorted[k]));
    }
    assert forall|i: int|
        0 <= i < times.len() && #[trigger] sorted[i] < sorted[k] implies i < k by {
        if k < i {
            assert(not_longer()(sorted[k], sorted[i]));
        }
    }
}

/// How the fetchers ended.
#[derive(Debug, Clone, Copy, PartialEq, Eq, Structural)]
pub struct Failures {
    pub failed: usize,
    pub succeeded: usize,
    /// The first fetcher that failed.
    pub first: usize,
}

/// How many of some fetchers succeeded.
pub open spec fn successes(results: Seq<bool>) -> nat {
    results.filter(|ok: bool| ok).len()
}

/// Counts the fetchers that failed, where some did.
pub fn failures(results: &[bool]) -> (res: Option<Failures>)
    ensures
        match res {
            None => !results@.contains(false),
            Some(failures) => {
                &&& failures.succeeded == successes(results@)
                &&& failures.failed == results@.len() - successes(results@)
                &&& failures.succeeded == results@.filter(|ok: bool| ok).len()
                &&& results@.index_of_first(false) == Some(failures.first as int)
            },
        },
{
    let ghost is_ok = |ok: bool| ok;
    let mut succeeded: usize = 0;
    let mut first: Option<usize> = None;
    let mut i: usize = 0;
    proof {
        reveal(Seq::filter);
        assert(results@.take(0) =~= Seq::empty());
    }
    while i < results.len()
        invariant
            0 <= i <= results@.len(),
            is_ok == (|ok: bool| ok),
            succeeded == results@.take(i as int).filter(is_ok).len(),
            succeeded <= i,
            first matches Some(at) ==> at < i && !results@[at as int] && (forall|j: int|
                0 <= j < at ==> results@[j]),
            first is None ==> forall|j: int| 0 <= j < i ==> results@[j],
        decreases results@.len() - i,
    {
        proof {
            reveal(Seq::filter);
            assert(results@.take(i + 1).drop_last() =~= results@.take(i as int));
        }
        if results[i] {
            succeeded = succeeded + 1;
        } else if first.is_none() {
            first = Some(i);
        }
        i = i + 1;
    }
    proof {
        assert(results@.take(i as int) =~= results@);
        results@.index_of_first_ensures(false);
    }
    match first {
        None => None,
        Some(first) => Some(
            Failures { failed: results.len() - succeeded, succeeded, first },
        ),
    }
}

/// A time in milliseconds is the greatest whole number of them in the time that
/// was measured.
pub proof fn law_times_are_whole_milliseconds(nanos: u128)
    ensures
        millis(nanos) * 1_000_000 <= nanos,
        nanos < (millis(nanos) + 1) * 1_000_000,
{
}

/// A connection adds one to the connections and leaves the times as they were; a
/// request adds its time behind those before it and leaves the connections as
/// they were, whichever fetcher reports it and however long it took.
pub proof fn law_events_are_kept_apart(report: ReportModel, event: Event)
    ensures
        match event {
            Event::Connection { .. } => {
                &&& report.record(event).connections == report.connections + 1
                &&& report.record(event).times == report.times
            },
            Event::Request { id, request_time } => {
                &&& report.record(event).connections == report.connections
                &&& report.record(event).times == report.times.push(millis(request_time))
            },
        },
{
}

/// The sum of the times of two runs is what their sums make together, and the
/// sum of one time is that time.
pub proof fn law_times_add_up(first: Seq<u128>, second: Seq<u128>, time: u128)
    ensures
        total(first + second) == total(first) + total(second),
        total(seq![time]) == time,
        total(Seq::empty()) == 0,
    decreases second.len(),
{
    reveal_with_fuel(total, 2);
    assert(seq![time].drop_last() =~= Seq::empty());
    if second.len() == 0 {
        assert(first + second =~= first);
    } else {
        let both = first + second;
        law_times_add_up(first, second.drop_last(), time);
        assert(both.drop_last() =~= first + second.drop_last());
    }
}

/// Putting times in order keeps each as often as it was measured, and of two
/// places the later one never has the shorter time.
pub proof fn law_order_keeps_times(times: Seq<u128>, i: int, j: int)
    requires
        0 <= i <= j < times.len(),
    ensures
        ascending(times).to_multiset() == times.to_multiset(),
        ascending(times).len() == times.len(),
        ascending(times)[i] <= ascending(times)[j],
{
    lemma_ascending(times);
    if i < j {
        assert(not_longer()(ascending(times)[i], ascending(times)[j]));
    }
}

/// The fetchers that succeeded are counted each on its own: two groups have as
/// many as both together, and one fetcher counts where it succeeded.
pub proof fn law_successes_add_up(first: Seq<bool>, second: Seq<bool>, ok: bool)
    ensures
        successes(first + second) == successes(first) + successes(second),
        successes(seq![ok]) == if ok {
            1nat
        } else {
            0nat
        },
        successes(Seq::empty()) == 0,
{
    let is_ok = |ok: bool| ok;
    reveal_with_fuel(Seq::filter, 2);
    Seq::filter_distributes_over_add(first, second, is_ok);
    assert(seq![ok].drop_last() =~= Seq::empty());
}

} // verus!
