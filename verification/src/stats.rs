//! The statistics task: it counts the latencies of each host and decides when they are summed up.
use vstd::prelude::*;

use crate::clock::{rfc3339_text, Timestamp};
use crate::report::{summary_line_at, summary_view};
use crate::sample::{PingSample, SampleView};
use crate::table::{with_name, Table};

verus! {

/// The nanoseconds of a second.
pub const NANOS_PER_SEC: u128 = 1_000_000_000;

/// What happens to the statistics task. `now_nanos` is the time of a clock that never goes back, in
/// nanoseconds since some fixed start.
#[derive(Debug)]
pub enum StatsEvent<L> {
    /// A host task sent a sample
    Sample { sample: PingSample<L>, now_nanos: u128 },
    /// All host tasks are gone
    Closed,
    /// The program is to end
    Shutdown,
}

/// What happens to the statistics task, as mathematical values.
pub enum StatsEventView<L> {
    Sample { sample: SampleView<L>, now_nanos: int },
    Closed,
    Shutdown,
}

impl<L> View for StatsEvent<L> {
    type V = StatsEventView<L>;

    open spec fn view(&self) -> StatsEventView<L> {
        match self {
            StatsEvent::Sample { sample, now_nanos } => StatsEventView::Sample {
                sample: sample@,
                now_nanos: *now_nanos as int,
            },
            StatsEvent::Closed => StatsEventView::Closed,
            StatsEvent::Shutdown => StatsEventView::Shutdown,
        }
    }
}

/// What the statistics task does next.
#[derive(Debug, Clone, Copy, PartialEq, Eq, Structural)]
pub struct StatsAction {
    /// The position of the host whose statistics the latency of the sample goes into
    pub fold: Option<usize>,
    /// Whether to log the summary of every host
    pub summary: bool,
    /// Whether to end after that
    pub stop: bool,
}

/// The state of the statistics task: how many latencies each host had, when the last summary was
/// logged, and the time between two summaries, both in nanoseconds.
#[verifier::ext_equal]
pub struct StatsView {
    pub names: Seq<Seq<char>>,
    pub counts: Seq<nat>,
    pub last_summary: int,
    pub interval: int,
}

/// One count for each name, and no name twice.
pub open spec fn tidy(v: StatsView) -> bool {
    &&& v.names.len() == v.counts.len()
    &&& v.names.no_duplicates()
}

/// The position of `name`, or the next free one.
pub open spec fn slot(names: Seq<Seq<char>>, name: Seq<char>) -> int {
    if names.contains(name) {
        names.index_of(name)
    } else {
        names.len() as int
    }
}

/// How many latencies the host `name` had.
pub open spec fn count_of(v: StatsView, name: Seq<char>) -> nat {
    if v.names.contains(name) {
        v.counts[v.names.index_of(name)]
    } else {
        0
    }
}

/// The counts with one more latency of `name`.
pub open spec fn counted(v: StatsView, name: Seq<char>) -> Seq<nat> {
    if v.names.contains(name) {
        v.counts.update(v.names.index_of(name), count_of(v, name) + 1)
    } else {
        v.counts.push(1)
    }
}

/// Whether a summary is due.
pub open spec fn is_due(v: StatsView, now_nanos: int) -> bool {
    let elapsed = if now_nanos >= v.last_summary {
        now_nanos - v.last_summary
    } else {
        0
    };
    elapsed >= v.interval
}

/// The state after an event: a sample with a latency is counted for its host, and a summary that is
/// due starts a new interval.
pub open spec fn next_stats<L>(v: StatsView, event: StatsEventView<L>) -> StatsView {
    match event {
        StatsEventView::Sample { sample, now_nanos } => {
            let has_latency = sample.latency_ms is Some;
            StatsView {
                names: if has_latency {
                    with_name(v.names, sample.host_name)
                } else {
                    v.names
                },
                counts: if has_latency {
                    counted(v, sample.host_name)
                } else {
                    v.counts
                },
                last_summary: if is_due(v, now_nanos) {
                    now_nanos
                } else {
                    v.last_summary
                },
                interval: v.interval,
            }
        },
        _ => v,
    }
}

/// What an event makes the task do: a sample goes into the statistics of its host, a summary is
/// logged after a sample where one is due and once more at the end, and without host tasks there is
/// nothing left to do.
pub open spec fn stats_action<L>(v: StatsView, event: StatsEventView<L>) -> StatsAction {
    match event {
        StatsEventView::Sample { sample, now_nanos } => StatsAction {
            fold: if sample.latency_ms is Some {
                Some(slot(v.names, sample.host_name) as usize)
            } else {
                None
            },
            summary: is_due(v, now_nanos),
            stop: false,
        },
        StatsEventView::Closed => StatsAction { fold: None, summary: false, stop: true },
        StatsEventView::Shutdown => StatsAction { fold: None, summary: true, stop: true },
    }
}

/// The state of the statistics task.
pub struct StatsAggregator {
    counts: Table<u64>,
    last_summary: u128,
    interval_secs: u64,
}

impl StatsAggregator {
    /// The state as mathematical values.
    pub closed spec fn view(&self) -> StatsView {
        StatsView {
            names: self.counts.names(),
            counts: self.counts.values().map_values(|n: u64| n as nat),
            last_summary: self.last_summary as int,
            interval: self.interval_secs * NANOS_PER_SEC,
        }
    }

    /// One count for each name, and no name twice.
    pub open spec fn wf(&self) -> bool {
        tidy(self@)
    }

    /// No host was heard of yet, and the first interval starts now.
    pub fn new(summary_interval_secs: u64, now_nanos: u128) -> (r: StatsAggregator)
        ensures
            r.wf(),
            r@ == (StatsView {
                names: Seq::empty(),
                counts: Seq::empty(),
                last_summary: now_nanos as int,
                interval: summary_interval_secs * NANOS_PER_SEC,
            }),
            r@.interval == summary_interval_secs * 1_000_000_000,
            r@.last_summary == now_nanos,
            r@.names.len() == 0,
    {
        let r: StatsAggregator = StatsAggregator {
            counts: Table::new(),
            last_summary: now_nanos,
            interval_secs: summary_interval_secs,
        };
        assert(r@.counts =~= Seq::empty());
        r
    }

    /// The number of hosts that had a latency.
    pub fn len(&self) -> (r: usize)
        requires
            self.wf(),
        ensures
            r == self@.names.len(),
    {
        self.counts.len()
    }

    /// The name of the host at position `i`.
    pub fn name(&self, i: usize) -> (r: &String)
        requires
            self.wf(),
            i < self@.names.len(),
        ensures
            r@ == self@.names[i as int],
    {
        self.counts.name(i)
    }

    /// The number of latencies of the host at position `i`.
    pub fn count(&self, i: usize) -> (r: u64)
        requires
            self.wf(),
            i < self@.names.len(),
        ensures
            r == self@.counts[i as int],
    {
        *self.counts.value(i)
    }

    /// Whether one more latency of `host` can be counted.
    pub fn has_room(&self, host: &String) -> (r: bool)
        requires
            self.wf(),
        ensures
            r == (count_of(self@, host@) < u64::MAX),
    {
        match self.counts.position(host) {
            Some(i) => {
                assert(self@.names.index_of(host@) == i);
                *self.counts.value(i) < u64::MAX
            },
            None => true,
        }
    }

    /// Takes an event in, and says what to do next.
    pub fn step<L>(&mut self, event: &StatsEvent<L>) -> (r: StatsAction)
        requires
            old(self).wf(),
            event@ matches StatsEventView::Sample { sample, .. } ==> sample.latency_ms is Some
                ==> count_of(old(self)@, sample.host_name) < u64::MAX,
        ensures
            final(self).wf(),
            final(self)@ == next_stats(old(self)@, event@),
            r == stats_action(old(self)@, event@),
            final(self)@.interval == old(self)@.interval,
            event matches StatsEvent::Sample { sample, now_nanos } ==> {
                &&& !r.stop
                &&& r.fold is Some <==> sample.latency_ms is Some
                &&& r.fold is None ==> final(self)@.names == old(self)@.names
                    && final(self)@.counts == old(self)@.counts
                &&& r.fold matches Some(i) ==> {
                    &&& i < final(self)@.names.len()
                    &&& final(self)@.names[i as int] == sample.host_name@
                    &&& final(self)@.counts[i as int] == (if i < old(self)@.names.len() {
                        old(self)@.counts[i as int] + 1
                    } else {
                        1
                    })
                }
                &&& r.summary <==> (if now_nanos >= old(self)@.last_summary {
                    now_nanos - old(self)@.last_summary
                } else {
                    0
                }) >= old(self)@.interval
                &&& final(self)@.last_summary == (if r.summary {
                    now_nanos as int
                } else {
                    old(self)@.last_summary
                })
            },
            event is Closed ==> r.stop && !r.summary && r.fold is None && final(self)@
                == old(self)@,
            event is Shutdown ==> r.stop && r.summary && r.fold is None && final(self)@
                == old(self)@,
    {
        match event {
            StatsEvent::Sample { sample, now_nanos } => {
                let ghost before = self@;
                let mut fold: Option<usize> = None;
                if sample.latency_ms.is_some() {
                    let i: usize = self.counts.entry(&sample.host_name, 0);
                    let ghost names = self.counts.names();
                    let ghost counts = self.counts.values();
                    proof {
                        assert(names.index_of(sample.host_name@) == i);
                        if !before.names.contains(sample.host_name@) {
                            assert(i == before.names.len()) by {
                                if i < before.names.len() {
                                    assert(before.names[i as int] == sample.host_name@);
                                }
                            }
                        } else {
                            assert(before.counts[i as int] == counts[i as int]);
                        }
                    }
                    let n: u64 = *self.counts.value(i);
                    *self.counts.value_mut(i) = n + 1;
                    assert(self@.counts =~= counted(before, sample.host_name@));
                    fold = Some(i);
                }
                let elapsed: u128 = if *now_nanos >= self.last_summary {
                    *now_nanos - self.last_summary
                } else {
                    0
                };
                let summary: bool = elapsed >= self.interval_secs as u128 * NANOS_PER_SEC;
                if summary {
                    self.last_summary = *now_nanos;
                }
                StatsAction { fold, summary, stop: false }
            },
            StatsEvent::Closed => StatsAction { fold: None, summary: false, stop: true },
            StatsEvent::Shutdown => StatsAction { fold: None, summary: true, stop: true },
        }
    }

    /// The summary lines with the time `stamp`, one for each host that had a latency. `means` and
    /// `stddevs` hold, for each of them, the mean and the standard deviation as they are to be shown.
    pub fn summary_lines_at(&self, stamp: &str, means: &Vec<String>, stddevs: &Vec<String>) -> (r:
        Vec<String>)
        requires
            self.wf(),
            means@.len() == self@.names.len(),
            stddevs@.len() == self@.names.len(),
        ensures
            r@.len() == self@.names.len(),
            forall|i: int|
                0 <= i < r@.len() ==> (#[trigger] r@[i])@ == summary_view(
                    stamp@,
                    self@.names[i],
                    self@.counts[i],
                    means@[i]@,
                    stddevs@[i]@,
                ),
    {
        let mut r: Vec<String> = Vec::new();
        let mut i: usize = 0;
        while i < self.counts.len()
            invariant
                self.wf(),
                means@.len() == self@.names.len(),
                stddevs@.len() == self@.names.len(),
                i <= self@.names.len(),
                r@.len() == i,
                forall|j: int|
                    0 <= j < i ==> (#[trigger] r@[j])@ == summary_view(
                        stamp@,
                        self@.names[j],
                        self@.counts[j],
                        means@[j]@,
                        stddevs@[j]@,
                    ),
            decreases self@.names.len() - i,
        {
            r.push(
                summary_line_at(
                    stamp,
                    self.counts.name(i).as_str(),
                    *self.counts.value(i),
                    means[i].as_str(),
                    stddevs[i].as_str(),
                ),
            );
            i += 1;
        }
        r
    }

    /// The summary lines with the time `ts`.
    pub fn summary_lines(&self, ts: Timestamp, means: &Vec<String>, stddevs: &Vec<String>) -> (r:
        Vec<String>)
        requires
            self.wf(),
            ts.valid(),
            means@.len() == self@.names.len(),
            stddevs@.len() == self@.names.len(),
        ensures
            r@.len() == self@.names.len(),
            forall|i: int|
                0 <= i < r@.len() ==> (#[trigger] r@[i])@ == summary_view(
                    ts.text(),
                    self@.names[i],
                    self@.counts[i],
                    means@[i]@,
                    stddevs@[i]@,
                ),
            forall|i: int|
                0 <= i < r@.len() ==> (#[trigger] r@[i])@ == summary_view(
                    rfc3339_text(ts.secs as int, ts.nanos as int),
                    self@.names[i],
                    self@.counts[i],
                    means@[i]@,
                    stddevs@[i]@,
                ),
    {
        self.summary_lines_at(ts.to_rfc3339().as_str(), means, stddevs)
    }
}

/// The state after a row of events.
pub open spec fn run_stats<L>(v: StatsView, events: Seq<StatsEventView<L>>) -> StatsView
    decreases events.len(),
{
    if events.len() == 0 {
        v
    } else {
        next_stats(run_stats(v, events.drop_last()), events.last())
    }
}

/// Whether the event is a sample of `name` with a latency.
pub open spec fn is_latency_of<L>(event: StatsEventView<L>, name: Seq<char>) -> bool {
    event matches StatsEventView::Sample { sample, .. } && sample.host_name == name
        && sample.latency_ms is Some
}

/// How many of the events are samples of `name` with a latency.
pub open spec fn latencies_of<L>(events: Seq<StatsEventView<L>>, name: Seq<char>) -> nat {
    events.filter(|e: StatsEventView<L>| is_latency_of(e, name)).len()
}

/// An event counts for the host that it is a latency of, and for no other.
proof fn lemma_step_counts<L>(v: StatsView, event: StatsEventView<L>, name: Seq<char>)
    requires
        tidy(v),
    ensures
        tidy(next_stats(v, event)),
        next_stats(v, event).names.contains(name) <==> v.names.contains(name) || is_latency_of(
            event,
            name,
        ),
        count_of(next_stats(v, event), name) == count_of(v, name) + (if is_latency_of(event, name) {
            1nat
        } else {
            0nat
        }),
{
    match event {
        StatsEventView::Sample { sample, .. } => {
            if sample.latency_ms is Some {
                let host = sample.host_name;
                let after = next_stats(v, event);
                if v.names.contains(host) {
                    let k = v.names.index_of(host);
                    assert(v.names[k] == host);
                    if v.names.contains(name) {
                        assert(v.names[v.names.index_of(name)] == name);
                    }
                } else {
                    let n = v.names.len() as int;
                    assert(after.names[n] == host);
                    assert(after.names.no_duplicates());
                    if after.names.contains(name) {
                        let k = after.names.index_of(name);
                        assert(after.names[k] == name);
                        if k < n {
                            assert(v.names[k] == name);
                            assert(v.names.index_of(name) == k);
                        }
                    } else {
                        assert(name != host);
                        if v.names.contains(name) {
                            let k = v.names.index_of(name);
                            assert(after.names[k] == name);
                        }
                    }
                }
            }
        },
        _ => {},
    }
}

/// The count of a host is the number of its samples with a latency, whatever the other hosts send in
/// between, and a host without one comes up in no summary: the hosts are those known at the start and
/// those with a latency since then.
pub proof fn lemma_counts_latencies<L>(
    v: StatsView,
    events: Seq<StatsEventView<L>>,
    name: Seq<char>,
)
    requires
        tidy(v),
    ensures
        tidy(run_stats(v, events)),
        count_of(run_stats(v, events), name) == count_of(v, name) + latencies_of(events, name),
        run_stats(v, events).names.contains(name) <==> v.names.contains(name) || latencies_of(
            events,
            name,
        ) > 0,
    decreases events.len(),
{
    reveal(Seq::filter);
    if events.len() > 0 {
        lemma_counts_latencies(v, events.drop_last(), name);
        lemma_step_counts(run_stats(v, events.drop_last()), events.last(), name);
    }
}

/// A latency goes into the statistics of the host that sent it: the position that the action names
/// is that host's.
pub proof fn lemma_latency_goes_to_its_host<L>(v: StatsView, sample: SampleView<L>, now_nanos: int)
    requires
        tidy(v),
        v.names.len() < usize::MAX,
        sample.latency_ms is Some,
    ensures
        ({
            let event = StatsEventView::Sample { sample, now_nanos };
            let after = next_stats(v, event);
            stats_action(v, event).fold matches Some(i) && i < after.names.len()
                && after.names[i as int] == sample.host_name && forall|j: int|
                0 <= j < v.names.len() ==> #[trigger] after.names[j] == v.names[j] && (j != i
                    ==> after.counts[j] == v.counts[j])
        }),
{
    if v.names.contains(sample.host_name) {
        assert(v.names[v.names.index_of(sample.host_name)] == sample.host_name);
    }
}

/// Summaries are logged after samples, with at least the interval between two of them, and as soon
/// after it as a sample comes in.
pub proof fn lemma_summaries_keep_their_distance<L>(
    v: StatsView,
    first: SampleView<L>,
    t1: int,
    second: SampleView<L>,
    t2: int,
)
    requires
        stats_action(v, StatsEventView::Sample { sample: first, now_nanos: t1 }).summary,
        t1 <= t2,
    ensures
        ({
            let between = next_stats(v, StatsEventView::Sample { sample: first, now_nanos: t1 });
            stats_action(between, StatsEventView::Sample { sample: second, now_nanos: t2 }).summary
                <==> t2 - t1 >= v.interval
        }),
{
}

/// At shutdown there is one last summary, of all that was counted; when the host tasks are gone
/// there is none. Either way the task ends.
pub proof fn lemma_last_summary<L>(v: StatsView)
    ensures
        stats_action(v, StatsEventView::<L>::Shutdown).summary,
        stats_action(v, StatsEventView::<L>::Shutdown).stop,
        next_stats(v, StatsEventView::<L>::Shutdown) == v,
        !stats_action(v, StatsEventView::<L>::Closed).summary,
        stats_action(v, StatsEventView::<L>::Closed).stop,
{
}

/// What one event does to the counts: a sample with a latency makes the count of its host one more,
/// or puts the host at the end with a count of one where it is new, and the action names its
/// position. No other name or count changes, and no other event changes any.
pub proof fn lemma_event_counts_once<L>(v: StatsView, event: StatsEventView<L>, host: Seq<char>)
    requires
        v.names.len() == v.counts.len(),
        v.names.no_duplicates(),
        v.names.len() < usize::MAX,
    ensures
        ({
            let after = next_stats(v, event);
            let fold = stats_action(v, event).fold;
            if event matches StatsEventView::Sample { sample, .. } && sample.latency_ms is Some
                && sample.host_name == host {
                &&& forall|k: int|
                    0 <= k < v.names.len() && #[trigger] v.names[k] == host ==> {
                        &&& fold == Some(k as usize)
                        &&& after.names == v.names
                        &&& after.counts.len() == v.counts.len()
                        &&& after.counts[k] == v.counts[k] + 1
                        &&& forall|j: int|
                            0 <= j < v.counts.len() && j != k ==> #[trigger] after.counts[j]
                                == v.counts[j]
                    }
                &&& (forall|k: int| 0 <= k < v.names.len() ==> #[trigger] v.names[k] != host) ==> {
                    &&& fold == Some(v.names.len() as usize)
                    &&& after.names == v.names.push(host)
                    &&& after.counts == v.counts.push(1)
                }
            } else {
                !(event matches StatsEventView::Sample { sample, .. } && sample.latency_ms is Some)
                    ==> fold is None && after.names == v.names && after.counts == v.counts
            }
        }),
{
    if event matches StatsEventView::Sample { sample, .. } && sample.latency_ms is Some
        && sample.host_name == host {
        if v.names.contains(host) {
            assert(v.names[v.names.index_of(host)] == host);
        }
        assert forall|k: int| 0 <= k < v.names.len() && #[trigger] v.names[k] == host implies {
            &&& stats_action(v, event).fold == Some(k as usize)
            &&& next_stats(v, event).names == v.names
            &&& next_stats(v, event).counts.len() == v.counts.len()
            &&& next_stats(v, event).counts[k] == v.counts[k] + 1
            &&& forall|j: int|
                0 <= j < v.counts.len() && j != k ==> #[trigger] next_stats(v, event).counts[j]
                    == v.counts[j]
        } by {
            assert(v.names.contains(host));
            assert(v.names.index_of(host) == k);
        }
    }
}

/// Only a summary starts a new interval: a sample at the time `t` makes a summary exactly where the
/// interval has passed since the last one, and a sample that makes none, like every other event,
/// leaves the time of the last one and the interval as they are.
pub proof fn lemma_only_a_summary_restarts<L>(v: StatsView, event: StatsEventView<L>)
    ensures
        next_stats(v, event).interval == v.interval,
        event matches StatsEventView::Sample { now_nanos, .. } ==> {
            &&& now_nanos >= v.last_summary ==> (stats_action(v, event).summary <==> now_nanos
                - v.last_summary >= v.interval)
            &&& now_nanos < v.last_summary ==> (stats_action(v, event).summary <==> v.interval <= 0)
            &&& stats_action(v, event).summary ==> next_stats(v, event).last_summary == now_nanos
            &&& !stats_action(v, event).summary ==> next_stats(v, event).last_summary
                == v.last_summary
            &&& !stats_action(v, event).stop
        },
        !(event is Sample) ==> next_stats(v, event) == v && stats_action(v, event).stop,
        event is Shutdown <==> stats_action(v, event).stop && stats_action(v, event).summary,
{
}

/// The time of the last summary in a row of events is that of the last sample that made one, or that
/// of the start where none did.
proof fn lemma_last_summary_time<L>(v: StatsView, events: Seq<StatsEventView<L>>, k: int)
    requires
        -1 <= k < events.len(),
        k >= 0 ==> events[k] is Sample && stats_action(
            run_stats(v, events.take(k)),
            events[k],
        ).summary,
        forall|i: int|
            k < i < events.len() ==> !(#[trigger] events[i] is Sample && stats_action(
                run_stats(v, events.take(i)),
                events[i],
            ).summary),
    ensures
        run_stats(v, events).interval == v.interval,
        run_stats(v, events).last_summary == (if k < 0 {
            v.last_summary
        } else {
            events[k]->now_nanos
        }),
    decreases events.len(),
{
    if events.len() > 0 {
        let n = events.len() - 1;
        let front = events.drop_last();
        assert(events.take(n) =~= front);
        assert(events[n] == events.last());
        lemma_run_keeps_interval(v, front);
        if k < n {
            assert forall|i: int| k < i < front.len() implies !(#[trigger] front[i] is Sample
                && stats_action(run_stats(v, front.take(i)), front[i]).summary) by {
                assert(front[i] == events[i]);
                assert(front.take(i) =~= events.take(i));
            }
            if k >= 0 {
                assert(front.take(k) =~= events.take(k));
            }
            lemma_last_summary_time(v, front, k);
        }
    }
}

/// The interval stays what it was at the start.
proof fn lemma_run_keeps_interval<L>(v: StatsView, events: Seq<StatsEventView<L>>)
    ensures
        run_stats(v, events).interval == v.interval,
    decreases events.len(),
{
    if events.len() > 0 {
        lemma_run_keeps_interval(v, events.drop_last());
    }
}

/// Over any row of events from the start on, whatever samples of whatever hosts came in, with or
/// without a latency: a sample at the time `t` makes a summary exactly where the interval has passed
/// since the last sample that made one, or since the start where none did. `k` is the position of
/// that sample, or -1.
pub proof fn lemma_summary_once_per_interval<L>(
    v: StatsView,
    events: Seq<StatsEventView<L>>,
    k: int,
    sample: SampleView<L>,
    t: int,
)
    requires
        -1 <= k < events.len(),
        k >= 0 ==> events[k] is Sample && stats_action(
            run_stats(v, events.take(k)),
            events[k],
        ).summary,
        forall|i: int|
            k < i < events.len() ==> !(#[trigger] events[i] is Sample && stats_action(
                run_stats(v, events.take(i)),
                events[i],
            ).summary),
    ensures
        ({
            let since = if k < 0 {
                v.last_summary
            } else {
                events[k]->now_nanos
            };
            let event = StatsEventView::Sample { sample, now_nanos: t };
            t >= since ==> (stats_action(run_stats(v, events), event).summary <==> t - since
                >= v.interval)
        }),
{
    lemma_last_summary_time(v, events, k);
}

} // verus!
