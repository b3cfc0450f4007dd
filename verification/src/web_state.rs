//! What the web dashboard shows: for each host the last status, the last changes of it and the
//! recent latencies.
use std::collections::VecDeque;
use vstd::prelude::*;

use crate::clock::{lemma_ago_is_not_later, Timestamp, MAX_SPAN_SECS};
use crate::config::HostConfig;
use crate::sample::{PingSample, SampleView};
use crate::table::{with_name, Table};

verus! {

/// How many changes of reachability are kept for each host.
pub const MAX_REACHABILITY_EVENTS: usize = 3;

/// How long latency samples are kept, in seconds: three hours.
pub const MAX_WINDOW_SECS: u64 = 10_800;

/// The longest time window of the latency chart, in seconds: 24 hours.
pub const CHART_WINDOW_SECS: u64 = 86_400;

/// A host turned reachable or unreachable.
#[derive(Debug, Clone, Copy, PartialEq, Eq)]
pub struct ReachabilityEvent {
    pub timestamp: Timestamp,
    pub reachable: bool,
}

/// The latency of one ping, if there was an answer.
#[derive(Debug, Clone, Copy)]
pub struct LatencySample<L> {
    pub timestamp: Timestamp,
    pub latency_ms: Option<L>,
}

/// What the dashboard shows of one host.
#[derive(Debug)]
pub struct HostWebState<L> {
    pub last_status: Option<bool>,
    /// The last changes, the newest first
    pub reachability_events: VecDeque<ReachabilityEvent>,
    /// The samples of the time window, the oldest first
    pub latency_samples: VecDeque<LatencySample<L>>,
}

/// What the dashboard shows of one host, as mathematical values.
#[verifier::ext_equal]
pub struct HostHistory<L> {
    pub last_status: Option<bool>,
    pub events: Seq<ReachabilityEvent>,
    pub samples: Seq<LatencySample<L>>,
}

impl<L> View for HostWebState<L> {
    type V = HostHistory<L>;

    open spec fn view(&self) -> HostHistory<L> {
        HostHistory {
            last_status: self.last_status,
            events: self.reachability_events@,
            samples: self.latency_samples@,
        }
    }
}

/// Nothing is known of the host yet.
pub open spec fn blank<L>() -> HostHistory<L> {
    HostHistory { last_status: None, events: Seq::empty(), samples: Seq::empty() }
}

/// The first `MAX_REACHABILITY_EVENTS` events.
pub open spec fn newest(events: Seq<ReachabilityEvent>) -> Seq<ReachabilityEvent> {
    if events.len() > MAX_REACHABILITY_EVENTS {
        events.take(MAX_REACHABILITY_EVENTS as int)
    } else {
        events
    }
}

/// `samples` from the first one on that does not come before `cutoff`.
pub open spec fn from_cutoff<L>(
    samples: Seq<LatencySample<L>>,
    cutoff: Timestamp,
) -> Seq<LatencySample<L>>
    decreases samples.len(),
{
    if samples.len() > 0 && samples[0].timestamp.is_before(cutoff) {
        from_cutoff(samples.drop_first(), cutoff)
    } else {
        samples
    }
}

/// What is shown of a host after one more sample: an event where the status changed, the sample's
/// latency, and no sample at the old end that is older than `window` seconds.
pub open spec fn recorded<L>(h: HostHistory<L>, s: SampleView<L>, window: int) -> HostHistory<L> {
    let event = ReachabilityEvent { timestamp: s.timestamp, reachable: s.reachable };
    let latency = LatencySample { timestamp: s.timestamp, latency_ms: s.latency_ms };
    HostHistory {
        last_status: Some(s.reachable),
        events: if h.last_status != Some(s.reachable) {
            newest(seq![event] + h.events)
        } else {
            h.events
        },
        samples: from_cutoff(h.samples.push(latency), s.timestamp.ago(window)),
    }
}

/// Whether `after` is `before` with one more change in front, cut to the three newest changes,
/// whatever their times are.
pub open spec fn change_is_in_front(
    before: Seq<ReachabilityEvent>,
    after: Seq<ReachabilityEvent>,
    timestamp: Timestamp,
    reachable: bool,
) -> bool {
    &&& after.len() == (if before.len() < 3 {
        before.len() + 1
    } else {
        3
    })
    &&& after[0].timestamp == timestamp
    &&& after[0].reachable == reachable
    &&& forall|i: int| 1 <= i < after.len() ==> #[trigger] after[i] == before[i - 1]
}

impl<L> Default for HostWebState<L> {
    /// The state of a host of which nothing is known yet.
    fn default() -> (r: HostWebState<L>)
        ensures
            r@ == blank::<L>(),
            r.last_status is None,
            r.reachability_events@.len() == 0,
            r.latency_samples@.len() == 0,
    {
        HostWebState {
            last_status: None,
            reachability_events: VecDeque::new(),
            latency_samples: VecDeque::new(),
        }
    }
}

/// A copy of `d`.
fn copied<T: Copy>(d: &VecDeque<T>) -> (r: VecDeque<T>)
    ensures
        r@ == d@,
{
    let mut r: VecDeque<T> = VecDeque::new();
    let mut i: usize = 0;
    while i < d.len()
        invariant
            i <= d@.len(),
            r@ == d@.take(i as int),
        decreases d@.len() - i,
    {
        r.push_back(d[i]);
        assert(r@ =~= d@.take(i + 1));
        i += 1;
    }
    assert(d@.take(i as int) =~= d@);
    r
}

impl<L: Copy> Clone for HostWebState<L> {
    fn clone(&self) -> (r: HostWebState<L>)
        ensures
            r@ == self@,
            r.last_status == self.last_status,
            r.reachability_events@ == self.reachability_events@,
            r.latency_samples@ == self.latency_samples@,
    {
        HostWebState {
            last_status: self.last_status,
            reachability_events: copied(&self.reachability_events),
            latency_samples: copied(&self.latency_samples),
        }
    }
}

impl<L: Copy> HostWebState<L> {
    /// Takes one more sample in, and lets go of latencies older than `window` seconds.
    pub fn record(&mut self, sample: &PingSample<L>, window: u64)
        requires
            window <= MAX_SPAN_SECS,
            sample.timestamp.valid(),
            sample.timestamp.reaches_back(window as int),
        ensures
            final(self)@ == recorded(old(self)@, sample@, window as int),
            final(self).last_status == Some(sample.reachable),
            old(self).last_status == Some(sample.reachable) ==> final(self).reachability_events@
                == old(self).reachability_events@,
            old(self).last_status != Some(sample.reachable) ==> change_is_in_front(
                old(self).reachability_events@,
                final(self).reachability_events@,
                sample.timestamp,
                sample.reachable,
            ),
            final(self).latency_samples@.len() > 0,
            final(self).latency_samples@.last().timestamp == sample.timestamp,
            final(self).latency_samples@.last().latency_ms == sample.latency_ms,
    {
        // reachability change detection
        let changed: bool = match self.last_status {
            Some(status) => status != sample.reachable,
            None => true,
        };
        if changed {
            let ghost before = self.reachability_events@;
            let event: ReachabilityEvent = ReachabilityEvent {
                timestamp: sample.timestamp,
                reachable: sample.reachable,
            };
            self.reachability_events.push_front(event);
            let ghost all = seq![event] + before;
            while self.reachability_events.len() > MAX_REACHABILITY_EVENTS
                invariant
                    newest(self.reachability_events@) == newest(all),
                    self.latency_samples == old(self).latency_samples,
                    self.last_status == old(self).last_status,
                decreases self.reachability_events@.len(),
            {
                let ghost longer = self.reachability_events@;
                self.reachability_events.pop_back();
                assert(newest(self.reachability_events@) =~= newest(longer));
            }
            self.last_status = Some(sample.reachable);
        }
        let ghost events = self.reachability_events@;
        // latency samples

        self.latency_samples.push_back(
            LatencySample { timestamp: sample.timestamp, latency_ms: sample.latency_ms },
        );
        let ghost all = self.latency_samples@;
        // trim old samples

        proof {
            lemma_events_kept(old(self)@, sample@, window as int);
            lemma_samples_of_window(old(self)@, sample@, window as int);
        }
        if let Some(cutoff) = sample.timestamp.back(window) {
            while self.latency_samples.len() > 0 && self.latency_samples[0].timestamp.before(&cutoff)
                invariant
                    from_cutoff(self.latency_samples@, cutoff) == from_cutoff(all, cutoff),
                    self.reachability_events@ == events,
                    self.last_status == Some(sample.reachable),
                decreases self.latency_samples@.len(),
            {
                let ghost longer = self.latency_samples@;
                self.latency_samples.pop_front();
                assert(self.latency_samples@ =~= longer.drop_first());
            }
        }
    }
}

/// The map that a list of named histories stands for.
pub open spec fn map_of<L>(list: Seq<(Seq<char>, HostHistory<L>)>) -> Map<
    Seq<char>,
    HostHistory<L>,
>
    decreases list.len(),
{
    if list.len() == 0 {
        Map::empty()
    } else {
        map_of(list.drop_last()).insert(list.last().0, list.last().1)
    }
}

/// Whether no name stands twice in the list.
pub open spec fn distinct<L>(list: Seq<(Seq<char>, HostHistory<L>)>) -> bool {
    forall|i: int, j: int|
        #![trigger list[i], list[j]]
        0 <= i < j < list.len() ==> list[i].0 != list[j].0
}

/// The list of named histories in a table.
pub open spec fn listed<L>(names: Seq<Seq<char>>, values: Seq<HostWebState<L>>) -> Seq<
    (Seq<char>, HostHistory<L>),
> {
    Seq::new(names.len(), |i: int| (names[i], values[i]@))
}

/// The map holds what the list holds.
pub proof fn lemma_map_of<L>(list: Seq<(Seq<char>, HostHistory<L>)>, name: Seq<char>)
    requires
        distinct(list),
    ensures
        map_of(list).contains_key(name) <==> exists|i: int|
            0 <= i < list.len() && #[trigger] list[i].0 == name,
        forall|i: int|
            0 <= i < list.len() && #[trigger] list[i].0 == name ==> map_of(list)[name] == list[i].1,
    decreases list.len(),
{
    if list.len() > 0 {
        let front = list.drop_last();
        lemma_map_of(front, name);
        assert(forall|i: int| 0 <= i < front.len() ==> #[trigger] list[i] == front[i]);
        assert(list[list.len() - 1] == list.last());
        if map_of(front).contains_key(name) {
            let i = choose|i: int| 0 <= i < front.len() && #[trigger] front[i].0 == name;
            assert(list[i].0 == name);
        }
    }
}

/// Changing the history of one name changes the map at that name only.
proof fn lemma_map_of_update<L>(
    list: Seq<(Seq<char>, HostHistory<L>)>,
    k: int,
    h: HostHistory<L>,
)
    requires
        distinct(list),
        0 <= k < list.len(),
    ensures
        distinct(list.update(k, (list[k].0, h))),
        map_of(list.update(k, (list[k].0, h))) == map_of(list).insert(list[k].0, h),
    decreases list.len(),
{
    let changed = list.update(k, (list[k].0, h));
    let front = list.drop_last();
    if k == list.len() - 1 {
        assert(changed.drop_last() =~= front);
        assert(map_of(changed) =~= map_of(list).insert(list[k].0, h));
    } else {
        lemma_map_of_update(front, k, h);
        assert(changed.drop_last() =~= front.update(k, (list[k].0, h)));
        assert(list[k].0 != list.last().0);
        assert(map_of(changed) =~= map_of(list).insert(list[k].0, h));
    }
}

/// The state behind the dashboard: what is shown of each host.
pub struct WebState<L> {
    hosts: Table<HostWebState<L>>,
    window: u64,
}

impl<L> WebState<L> {
    /// The hosts in the order in which they came up, each with its history.
    pub closed spec fn list(&self) -> Seq<(Seq<char>, HostHistory<L>)> {
        listed(self.hosts.names(), self.hosts.values())
    }

    /// How long latency samples are kept, in seconds.
    pub closed spec fn window(&self) -> int {
        self.window as int
    }

    /// No host is listed twice, and the calendar can count the window.
    pub closed spec fn wf(&self) -> bool {
        &&& self.hosts.wf()
        &&& self.window <= MAX_SPAN_SECS
    }

    /// The history of each host, by its name.
    pub open spec fn view(&self) -> Map<Seq<char>, HostHistory<L>> {
        map_of(self.list())
    }
}

/// What the dashboard starts with: each configured host once, with nothing known of it.
pub open spec fn blank_list<L>(names: Seq<Seq<char>>) -> Seq<(Seq<char>, HostHistory<L>)> {
    Seq::new(names.len(), |i: int| (names[i], blank::<L>()))
}

/// The names of `hosts` in their order, each once.
pub open spec fn host_names(hosts: Seq<HostConfig>) -> Seq<Seq<char>>
    decreases hosts.len(),
{
    if hosts.len() == 0 {
        Seq::empty()
    } else {
        with_name(host_names(hosts.drop_last()), hosts.last().name@)
    }
}

impl<L> WebState<L> {
    /// The state for `hosts`, which keeps latency samples for three hours.
    pub fn new(hosts: &[HostConfig]) -> (r: WebState<L>)
        ensures
            r.wf(),
            r.window() == MAX_WINDOW_SECS,
            r.window() == 3 * 60 * 60,
            r.list() == blank_list::<L>(host_names(hosts@)),
            forall|name: Seq<char>| #[trigger]
                r@.contains_key(name) <==> exists|i: int|
                    0 <= i < hosts@.len() && #[trigger] hosts@[i].name@ == name,
            forall|name: Seq<char>| #[trigger]
                r@.contains_key(name) ==> r@[name].last_status is None && r@[name].events.len() == 0
                    && r@[name].samples.len() == 0,
    {
        WebState::with_window(hosts, MAX_WINDOW_SECS)
    }

    /// The state for `hosts`, which keeps latency samples for `window` seconds.
    pub fn with_window(hosts: &[HostConfig], window: u64) -> (r: WebState<L>)
        requires
            window <= MAX_SPAN_SECS,
        ensures
            r.wf(),
            r.window() == window,
            r.list() == blank_list::<L>(host_names(hosts@)),
            forall|name: Seq<char>| #[trigger]
                r@.contains_key(name) <==> exists|i: int|
                    0 <= i < hosts@.len() && #[trigger] hosts@[i].name@ == name,
            forall|name: Seq<char>| #[trigger]
                r@.contains_key(name) ==> r@[name].last_status is None && r@[name].events.len() == 0
                    && r@[name].samples.len() == 0,
    {
        let mut table: Table<HostWebState<L>> = Table::new();
        let mut i: usize = 0;
        assert(hosts@.take(0) =~= Seq::empty());
        while i < hosts.len()
            invariant
                i <= hosts@.len(),
                table.wf(),
                table.names() == host_names(hosts@.take(i as int)),
                forall|j: int|
                    0 <= j < table.values().len() ==> #[trigger] table.values()[j]@ == blank::<L>(),
            decreases hosts@.len() - i,
        {
            assert(hosts@.take(i + 1).drop_last() =~= hosts@.take(i as int));
            table.entry(&hosts[i].name, HostWebState::default());
            i += 1;
        }
        assert(hosts@.take(i as int) =~= hosts@);
        let r: WebState<L> = WebState { hosts: table, window };
        assert(r.list() =~= blank_list::<L>(host_names(hosts@)));
        proof {
            assert forall|name: Seq<char>| #[trigger]
                r@.contains_key(name) <==> exists|i: int|
                    0 <= i < hosts@.len() && #[trigger] hosts@[i].name@ == name by {
                lemma_new_dashboard::<L>(hosts@, name);
            }
            assert forall|name: Seq<char>| #[trigger] r@.contains_key(name) implies r@[name]
                == blank::<L>() by {
                lemma_new_dashboard::<L>(hosts@, name);
            }
        }
        r
    }
}

/// The history of `name` in `m`, blank where there is none.
pub open spec fn history<L>(m: Map<Seq<char>, HostHistory<L>>, name: Seq<char>) -> HostHistory<L> {
    if m.contains_key(name) {
        m[name]
    } else {
        blank()
    }
}

/// The histories after one more sample: that of its host takes the sample in, the others stay.
pub open spec fn updated<L>(
    m: Map<Seq<char>, HostHistory<L>>,
    s: SampleView<L>,
    window: int,
) -> Map<Seq<char>, HostHistory<L>> {
    m.insert(s.host_name, recorded(history(m, s.host_name), s, window))
}

impl<L: Copy> WebState<L> {
    /// Takes a sample into the history of its host. The other hosts stay as they are.
    pub fn update_from_sample(&mut self, sample: &PingSample<L>)
        requires
            old(self).wf(),
            sample.timestamp.valid(),
            sample.timestamp.reaches_back(old(self).window()),
        ensures
            final(self).wf(),
            final(self).window() == old(self).window(),
            final(self)@ == updated(old(self)@, sample@, old(self).window()),
            final(self)@.contains_key(sample.host_name@),
            final(self)@[sample.host_name@].last_status == Some(sample.reachable),
            forall|name: Seq<char>|
                name != sample.host_name@ ==> (#[trigger] final(self)@.contains_key(name) <==> old(
                    self,
                )@.contains_key(name)) && (old(self)@.contains_key(name) ==> final(self)@[name]
                    == old(self)@[name]),
    {
        let ghost name = sample.host_name@;
        let ghost before = self.list();
        proof {
            lemma_map_of(before, name);
        }
        let i: usize = self.hosts.entry(&sample.host_name, HostWebState::default());
        let window: u64 = self.window;
        self.hosts.value_mut(i).record(sample, window);
        proof {
            let after = recorded(history(map_of(before), name), sample@, window as int);
            if old(self).hosts.names().contains(name) {
                assert(before[i as int].0 == name);
                lemma_map_of_update(before, i as int, after);
                assert(self.list() =~= before.update(i as int, (name, after)));
            } else {
                assert forall|j: int| 0 <= j < before.len() implies #[trigger] before[j].0
                    != name by {
                    assert(old(self).hosts.names()[j] != name);
                }
                assert(self.list() =~= before.push((name, after)));
                assert(self.list().drop_last() =~= before);
            }
        }
    }

    /// A copy of what the dashboard shows now: each host once, with its history.
    pub fn snapshot(&self) -> (r: Vec<(String, HostWebState<L>)>)
        requires
            self.wf(),
        ensures
            distinct(snapshot_list(r@)),
            map_of(snapshot_list(r@)) == self@,
            snapshot_list(r@) == self.list(),
            forall|i: int, j: int|
                #![trigger r@[i], r@[j]]
                0 <= i < j < r@.len() ==> r@[i].0@ != r@[j].0@,
            forall|i: int|
                0 <= i < r@.len() ==> {
                    let e = #[trigger] r@[i];
                    &&& self@.contains_key(e.0@)
                    &&& self@[e.0@].last_status == e.1.last_status
                    &&& self@[e.0@].events == e.1.reachability_events@
                    &&& self@[e.0@].samples == e.1.latency_samples@
                },
            forall|name: Seq<char>| #[trigger]
                self@.contains_key(name) ==> exists|i: int|
                    0 <= i < r@.len() && (#[trigger] r@[i]).0@ == name,
    {
        let mut r: Vec<(String, HostWebState<L>)> = Vec::new();
        let mut i: usize = 0;
        while i < self.hosts.len()
            invariant
                self.wf(),
                i <= self.list().len(),
                snapshot_list(r@) == self.list().take(i as int),
            decreases self.list().len() - i,
        {
            let ghost before = snapshot_list(r@);
            let name: String = self.hosts.name(i).clone();
            let state: HostWebState<L> = self.hosts.value(i).clone();
            r.push((name, state));
            assert(snapshot_list(r@) =~= before.push(self.list()[i as int]));
            assert(self.list().take(i + 1) =~= before.push(self.list()[i as int]));
            i += 1;
        }
        assert(self.list().take(i as int) =~= self.list());
        proof {
            let list = snapshot_list(r@);
            assert(forall|k: int| 0 <= k < r@.len() ==> #[trigger] list[k] == (r@[k].0@, r@[k].1@));
            assert forall|a: int, b: int|
                #![trigger r@[a], r@[b]]
                0 <= a < b < r@.len() implies r@[a].0@ != r@[b].0@ by {
                assert(list[a].0 != list[b].0);
            }
            assert forall|k: int| 0 <= k < r@.len() implies {
                let e = #[trigger] r@[k];
                &&& self@.contains_key(e.0@)
                &&& self@[e.0@] == e.1@
            } by {
                lemma_map_of(list, r@[k].0@);
                assert(list[k].0 == r@[k].0@);
            }
            assert forall|name: Seq<char>| #[trigger] self@.contains_key(name) implies exists|k: int|
                0 <= k < r@.len() && (#[trigger] r@[k]).0@ == name by {
                lemma_map_of(list, name);
                let k = choose|k: int| 0 <= k < list.len() && #[trigger] list[k].0 == name;
                assert(r@[k].0@ == name);
            }
        }
        r
    }
}

/// The list that a snapshot stands for.
pub open spec fn snapshot_list<L>(s: Seq<(String, HostWebState<L>)>) -> Seq<
    (Seq<char>, HostHistory<L>),
> {
    s.map_values(|e: (String, HostWebState<L>)| (e.0@, e.1@))
}

/// The names of a list of hosts are distinct, and are those of the hosts.
proof fn lemma_host_names(hosts: Seq<HostConfig>)
    ensures
        host_names(hosts).no_duplicates(),
        forall|name: Seq<char>|
            host_names(hosts).contains(name) <==> exists|i: int|
                0 <= i < hosts.len() && #[trigger] hosts[i].name@ == name,
    decreases hosts.len(),
{
    if hosts.len() > 0 {
        let front = hosts.drop_last();
        let names = host_names(front);
        let last = hosts.last().name@;
        lemma_host_names(front);
        assert forall|name: Seq<char>| host_names(hosts).contains(name) <==> exists|i: int|
            0 <= i < hosts.len() && #[trigger] hosts[i].name@ == name by {
            if host_names(hosts).contains(name) {
                if names.contains(name) {
                    let i = choose|i: int| 0 <= i < front.len() && #[trigger] front[i].name@ == name;
                    assert(hosts[i].name@ == name);
                } else {
                    assert(hosts[hosts.len() - 1].name@ == name);
                }
            }
            if exists|i: int| 0 <= i < hosts.len() && #[trigger] hosts[i].name@ == name {
                let i = choose|i: int| 0 <= i < hosts.len() && #[trigger] hosts[i].name@ == name;
                if i < front.len() {
                    assert(front[i].name@ == name);
                    assert(names.contains(name));
                    let k = choose|k: int| 0 <= k < names.len() && names[k] == name;
                    assert(host_names(hosts)[k] == name);
                } else if !names.contains(last) {
                    assert(names.push(last)[names.len() as int] == last);
                }
            }
        }
    }
}

/// A new dashboard shows exactly the configured hosts, and nothing is known of any of them.
pub proof fn lemma_new_dashboard<L>(hosts: Seq<HostConfig>, name: Seq<char>)
    ensures
        distinct(blank_list::<L>(host_names(hosts))),
        map_of(blank_list::<L>(host_names(hosts))).contains_key(name) <==> exists|i: int|
            0 <= i < hosts.len() && #[trigger] hosts[i].name@ == name,
        history(map_of(blank_list::<L>(host_names(hosts))), name) == blank::<L>(),
{
    lemma_host_names(hosts);
    let names = host_names(hosts);
    let list = blank_list::<L>(names);
    assert(forall|i: int| 0 <= i < list.len() ==> (#[trigger] list[i]).0 == names[i]);
    lemma_map_of(list, name);
    if names.contains(name) {
        let k = choose|k: int| 0 <= k < names.len() && names[k] == name;
        assert(list[k].0 == name);
    }
}

/// What always holds of the history of a host: no more events than are kept, no two neighbours with
/// the same status, the last status is that of the newest event, and it is unknown exactly as long as
/// there is no sample.
pub open spec fn consistent<L>(h: HostHistory<L>) -> bool {
    &&& h.events.len() <= MAX_REACHABILITY_EVENTS
    &&& forall|i: int, j: int|
        #![trigger h.events[i], h.events[j]]
        0 <= i && j == i + 1 && j < h.events.len() ==> h.events[i].reachable
            != h.events[j].reachable
    &&& h.last_status == (if h.events.len() > 0 {
        Some(h.events[0].reachable)
    } else {
        None
    })
    &&& h.last_status is None <==> h.samples.len() == 0
}

/// Histories are consistent: a blank one is, and taking in a sample keeps it so.
pub proof fn lemma_history_stays_consistent<L>(h: HostHistory<L>, s: SampleView<L>, window: int)
    requires
        s.timestamp.valid(),
        s.timestamp.reaches_back(window),
        0 <= window,
    ensures
        consistent(blank::<L>()),
        consistent(h) ==> consistent(recorded(h, s, window)),
{
    lemma_samples_of_window(h, s, window);
    if consistent(h) && h.last_status != Some(s.reachable) {
        let event = ReachabilityEvent { timestamp: s.timestamp, reachable: s.reachable };
        let all = seq![event] + h.events;
        let kept = recorded(h, s, window).events;
        assert(kept[0] == event);
        assert forall|i: int, j: int|
            #![trigger kept[i], kept[j]]
            0 <= i && j == i + 1 && j < kept.len() implies kept[i].reachable
            != kept[j].reachable by {
            assert(kept[i] == all[i] && kept[j] == all[j]);
            assert(all[j] == h.events[j - 1]);
            if i > 0 {
                assert(all[i] == h.events[i - 1]);
            }
        }
    }
}

/// Every history on the dashboard is consistent: so it is at the start, and `update_from_sample`
/// keeps it so.
pub proof fn lemma_dashboard_stays_consistent<L>(
    hosts: Seq<HostConfig>,
    m: Map<Seq<char>, HostHistory<L>>,
    s: SampleView<L>,
    window: int,
    name: Seq<char>,
)
    requires
        s.timestamp.valid(),
        s.timestamp.reaches_back(window),
        0 <= window,
    ensures
        consistent(history(map_of(blank_list::<L>(host_names(hosts))), name)),
        consistent(history(m, name)) && consistent(history(m, s.host_name)) ==> consistent(
            history(updated(m, s, window), name),
        ),
{
    lemma_new_dashboard::<L>(hosts, name);
    lemma_history_stays_consistent(history(m, s.host_name), s, window);
}

/// A sample makes an event exactly where the status differs from the last one; the event comes
/// first, and without it the events stay as they are.
pub proof fn lemma_event_on_change_only<L>(h: HostHistory<L>, s: SampleView<L>, window: int)
    ensures
        h.last_status == Some(s.reachable) ==> recorded(h, s, window).events == h.events,
        h.last_status != Some(s.reachable) ==> {
            let kept = recorded(h, s, window).events;
            &&& kept.len() > 0
            &&& kept[0] == (ReachabilityEvent { timestamp: s.timestamp, reachable: s.reachable })
        },
{
}

/// Trimming cuts samples off at the old end, all of them older than the cutoff.
proof fn lemma_from_cutoff<L>(samples: Seq<LatencySample<L>>, cutoff: Timestamp) -> (n: int)
    ensures
        0 <= n <= samples.len(),
        from_cutoff(samples, cutoff) == samples.skip(n),
        forall|i: int| 0 <= i < n ==> (#[trigger] samples[i]).timestamp.is_before(cutoff),
        n < samples.len() ==> !samples[n].timestamp.is_before(cutoff),
    decreases samples.len(),
{
    if samples.len() > 0 && samples[0].timestamp.is_before(cutoff) {
        let rest = samples.drop_first();
        let n = lemma_from_cutoff(rest, cutoff);
        assert forall|i: int| 0 <= i < n + 1 implies (#[trigger] samples[i]).timestamp.is_before(
            cutoff,
        ) by {
            if i > 0 {
                assert(samples[i] == rest[i - 1]);
            }
        }
        assert(rest.skip(n) =~= samples.skip(n + 1));
        n + 1
    } else {
        assert(samples.skip(0) =~= samples);
        0
    }
}

/// Whether the samples are in the order of their times.
pub open spec fn in_order<L>(samples: Seq<LatencySample<L>>) -> bool {
    forall|i: int, j: int|
        #![trigger samples[i], samples[j]]
        0 <= i < j < samples.len() ==> !samples[j].timestamp.is_before(samples[i].timestamp)
}

/// The newest sample is always kept, as the last one. What is cut off is older than the window, and
/// stood at the old end. Where the samples come in the order of their times, those that are kept are
/// exactly the ones that are not older than the window, and they stay in order.
pub proof fn lemma_samples_of_window<L>(h: HostHistory<L>, s: SampleView<L>, window: int)
    requires
        s.timestamp.valid(),
        s.timestamp.reaches_back(window),
        0 <= window,
    ensures
        ({
            let latency = LatencySample { timestamp: s.timestamp, latency_ms: s.latency_ms };
            let all = h.samples.push(latency);
            let kept = recorded(h, s, window).samples;
            let cutoff = s.timestamp.ago(window);
            let n = all.len() - kept.len();
            &&& kept.len() > 0
            &&& kept.last() == latency
            &&& kept == all.skip(n)
            &&& !kept[0].timestamp.is_before(cutoff)
            &&& forall|i: int| 0 <= i < n ==> (#[trigger] all[i]).timestamp.is_before(cutoff)
            &&& in_order(all) ==> in_order(kept) && forall|i: int|
                0 <= i < kept.len() ==> !(#[trigger] kept[i]).timestamp.is_before(cutoff)
        }),
{
    let latency = LatencySample { timestamp: s.timestamp, latency_ms: s.latency_ms };
    let all = h.samples.push(latency);
    let kept = recorded(h, s, window).samples;
    let cutoff = s.timestamp.ago(window);
    lemma_ago_is_not_later(s.timestamp, window);
    let n = lemma_from_cutoff(all, cutoff);
    assert(all[all.len() - 1] == latency);
    assert(n < all.len());
    assert(kept.last() == all.last());
    if in_order(all) {
        assert forall|i: int| 0 <= i < kept.len() implies !(#[trigger] kept[i]).timestamp.is_before(
            cutoff,
        ) by {
            assert(kept[i] == all[n + i]);
            if i > 0 {
                assert(!all[n + i].timestamp.is_before(all[n].timestamp));
            }
        }
        assert forall|i: int, j: int|
            #![trigger kept[i], kept[j]]
            0 <= i < j < kept.len() implies !kept[j].timestamp.is_before(kept[i].timestamp) by {
            assert(kept[i] == all[n + i] && kept[j] == all[n + j]);
        }
    }
}

/// The dashboard shows what it was told: after `update_from_sample` the host of the sample is listed
/// with the sample's status and with its latency as the last one, and every other host is listed as
/// it was, or is as absent as it was.
pub proof fn lemma_update_is_shown<L>(
    m: Map<Seq<char>, HostHistory<L>>,
    s: SampleView<L>,
    window: int,
    other: Seq<char>,
)
    requires
        s.timestamp.valid(),
        s.timestamp.reaches_back(window),
        0 <= window,
        other != s.host_name,
    ensures
        ({
            let after = updated(m, s, window);
            let shown = after[s.host_name];
            &&& after.contains_key(s.host_name)
            &&& shown.last_status == Some(s.reachable)
            &&& shown.samples.len() > 0
            &&& shown.samples.last().timestamp == s.timestamp
            &&& shown.samples.last().latency_ms == s.latency_ms
            &&& after.contains_key(other) <==> m.contains_key(other)
            &&& m.contains_key(other) ==> after[other] == m[other]
        }),
{
    lemma_samples_of_window(history(m, s.host_name), s, window);
}

/// The history of a host after a row of samples from the start on.
pub open spec fn run_records<L>(samples: Seq<SampleView<L>>, window: int) -> HostHistory<L>
    decreases samples.len(),
{
    if samples.len() == 0 {
        blank()
    } else {
        recorded(run_records(samples.drop_last(), window), samples.last(), window)
    }
}

/// The histories after a row of samples of any hosts.
pub open spec fn run_updates<L>(
    m: Map<Seq<char>, HostHistory<L>>,
    samples: Seq<SampleView<L>>,
    window: int,
) -> Map<Seq<char>, HostHistory<L>>
    decreases samples.len(),
{
    if samples.len() == 0 {
        m
    } else {
        updated(run_updates(m, samples.drop_last(), window), samples.last(), window)
    }
}

/// The samples of the host `name`, in the order given.
pub open spec fn samples_of<L>(samples: Seq<SampleView<L>>, name: Seq<char>) -> Seq<SampleView<L>> {
    samples.filter(|s: SampleView<L>| s.host_name == name)
}

/// The time and the latency of each sample.
pub open spec fn latencies<L>(samples: Seq<SampleView<L>>) -> Seq<LatencySample<L>> {
    samples.map_values(
        |s: SampleView<L>| LatencySample { timestamp: s.timestamp, latency_ms: s.latency_ms },
    )
}

/// The samples that do not come before `cutoff`, in the order given.
pub open spec fn not_before<L>(
    samples: Seq<LatencySample<L>>,
    cutoff: Timestamp,
) -> Seq<LatencySample<L>> {
    samples.filter(|l: LatencySample<L>| !l.timestamp.is_before(cutoff))
}

/// Whether the calendar reaches back over the window from every sample, and no window before the
/// last one starts later than the last one.
pub open spec fn windows_advance<L>(samples: Seq<SampleView<L>>, window: int) -> bool {
    forall|i: int|
        0 <= i < samples.len() ==> {
            let t = (#[trigger] samples[i]).timestamp;
            &&& t.valid()
            &&& t.reaches_back(window)
            &&& !samples.last().timestamp.ago(window).is_before(t.ago(window))
        }
}

/// The start of a window advances with the time, but for a time in a leap second.
pub proof fn lemma_windows_advance<L>(samples: Seq<SampleView<L>>, window: int)
    requires
        0 <= window,
        in_order(latencies(samples)),
        forall|i: int|
            0 <= i < samples.len() ==> {
                let t = (#[trigger] samples[i]).timestamp;
                t.valid() && t.reaches_back(window) && t.nanos < 1_000_000_000
            },
    ensures
        windows_advance(samples, window),
{
    let times = latencies(samples);
    assert forall|i: int| 0 <= i < samples.len() implies ({
        let t = (#[trigger] samples[i]).timestamp;
        &&& t.valid()
        &&& t.reaches_back(window)
        &&& !samples.last().timestamp.ago(window).is_before(t.ago(window))
    }) by {
        let n = samples.len() - 1;
        assert(times[i].timestamp == samples[i].timestamp);
        assert(times[n].timestamp == samples[n].timestamp);
        if i < n {
            assert(!times[n].timestamp.is_before(times[i].timestamp));
        }
    }
}

/// What a host's history keeps of a row of samples is its end; each sample before that was older than
/// the window of some sample.
proof fn lemma_run_keeps_the_end<L>(samples: Seq<SampleView<L>>, window: int) -> (n: int)
    ensures
        0 <= n <= samples.len(),
        run_records(samples, window).samples == latencies(samples).skip(n),
        forall|i: int|
            0 <= i < n ==> exists|k: int|
                0 <= k < samples.len() && (#[trigger] latencies(samples)[i]).timestamp.is_before(
                    (#[trigger] samples[k]).timestamp.ago(window),
                ),
    decreases samples.len(),
{
    let all = latencies(samples);
    if samples.len() == 0 {
        assert(all.skip(0) =~= Seq::empty());
        0
    } else {
        let front = samples.drop_last();
        let earlier = latencies(front);
        let last = samples.last();
        let latency = LatencySample { timestamp: last.timestamp, latency_ms: last.latency_ms };
        let n = lemma_run_keeps_the_end(front, window);
        assert(all =~= earlier.push(latency));
        let pushed = run_records(front, window).samples.push(latency);
        assert(pushed =~= all.skip(n));
        let m = lemma_from_cutoff(pushed, last.timestamp.ago(window));
        assert(pushed.skip(m) =~= all.skip(n + m));
        assert forall|i: int| 0 <= i < n + m implies exists|k: int|
            0 <= k < samples.len() && (#[trigger] all[i]).timestamp.is_before(
                (#[trigger] samples[k]).timestamp.ago(window),
            ) by {
            if i < n {
                assert(earlier[i] == all[i]);
                let k = choose|k: int|
                    0 <= k < front.len() && earlier[i].timestamp.is_before(
                        (#[trigger] front[k]).timestamp.ago(window),
                    );
                assert(samples[k] == front[k]);
            } else {
                assert(pushed[i - n] == all[i]);
                assert(samples[samples.len() - 1] == last);
            }
        }
        n + m
    }
}

/// A filter that turns down the first `n` items and passes the rest leaves the rest.
proof fn lemma_filter_is_end<T>(s: Seq<T>, keep: spec_fn(T) -> bool, n: int)
    requires
        0 <= n <= s.len(),
        forall|i: int| 0 <= i < n ==> !keep(#[trigger] s[i]),
        forall|i: int| n <= i < s.len() ==> keep(#[trigger] s[i]),
    ensures
        s.filter(keep) == s.skip(n),
    decreases s.len(),
{
    reveal(Seq::filter);
    if s.len() > 0 {
        let front = s.drop_last();
        assert(s[s.len() - 1] == s.last());
        if n < s.len() {
            lemma_filter_is_end(front, keep, n);
            assert(front.skip(n).push(s.last()) =~= s.skip(n));
        } else {
            lemma_filter_is_end(front, keep, n - 1);
            assert(front.skip(n - 1) =~= Seq::empty());
            assert(s.skip(n) =~= Seq::empty());
        }
    } else {
        assert(s.skip(n) =~= s);
    }
}

/// Over any row of samples of one host, in the order of their times, its history keeps exactly the
/// samples that are not older than the window of the last one, in the order given.
pub proof fn lemma_window_of_a_host<L>(samples: Seq<SampleView<L>>, window: int)
    requires
        0 <= window,
        samples.len() > 0,
        in_order(latencies(samples)),
        windows_advance(samples, window),
    ensures
        run_records(samples, window).samples == not_before(
            latencies(samples),
            samples.last().timestamp.ago(window),
        ),
{
    let all = latencies(samples);
    let last = samples.last();
    let cutoff = last.timestamp.ago(window);
    let front = samples.drop_last();
    let kept = run_records(samples, window).samples;
    let n = lemma_run_keeps_the_end(samples, window);
    let n0 = lemma_run_keeps_the_end(front, window);
    let latency = LatencySample { timestamp: last.timestamp, latency_ms: last.latency_ms };
    let pushed = run_records(front, window).samples.push(latency);
    let m = lemma_from_cutoff(pushed, cutoff);
    assert(samples[samples.len() - 1] == last);
    lemma_samples_of_window(run_records(front, window), last, window);
    assert(all =~= latencies(front).push(latency));
    assert(pushed =~= all.skip(n0));
    assert(kept == pushed.skip(m));
    assert(kept.len() == all.len() - n);
    assert(kept[0] == all[n] && kept[0] == pushed[m]);
    let keep = |l: LatencySample<L>| !l.timestamp.is_before(cutoff);
    assert forall|i: int| 0 <= i < n implies !keep(#[trigger] all[i]) by {
        let k = choose|k: int|
            0 <= k < samples.len() && all[i].timestamp.is_before(
                (#[trigger] samples[k]).timestamp.ago(window),
            );
        assert(!cutoff.is_before(samples[k].timestamp.ago(window)));
    }
    assert forall|i: int| n <= i < all.len() implies keep(#[trigger] all[i]) by {
        if i > n {
            assert(!all[i].timestamp.is_before(all[n].timestamp));
        }
    }
    lemma_filter_is_end(all, keep, n);
}

/// The history of a host depends on its own samples only.
proof fn lemma_run_of_a_host<L>(
    m: Map<Seq<char>, HostHistory<L>>,
    given: Seq<SampleView<L>>,
    window: int,
    name: Seq<char>,
)
    requires
        history(m, name) == blank::<L>(),
    ensures
        history(run_updates(m, given, window), name) == run_records(
            samples_of(given, name),
            window,
        ),
    decreases given.len(),
{
    reveal(Seq::filter);
    if given.len() > 0 {
        let front = given.drop_last();
        lemma_run_of_a_host(m, front, window, name);
        if given.last().host_name == name {
            assert(samples_of(given, name) == samples_of(front, name).push(given.last()));
            assert(samples_of(given, name).drop_last() =~= samples_of(front, name));
        }
    }
}

/// Over any run of the dashboard, whatever the other hosts send in between, the latencies shown of a
/// host are exactly those of the samples given for it that are not older than the window of its last
/// one, in the order given; samples without an answer are among them. The times of the host must not
/// go back, nor the starts of their windows, as `lemma_windows_advance` shows outside leap seconds.
pub proof fn lemma_dashboard_shows_the_window<L>(
    hosts: Seq<HostConfig>,
    given: Seq<SampleView<L>>,
    window: int,
    name: Seq<char>,
)
    requires
        0 <= window,
        samples_of(given, name).len() > 0,
        in_order(latencies(samples_of(given, name))),
        windows_advance(samples_of(given, name), window),
    ensures
        history(
            run_updates(map_of(blank_list::<L>(host_names(hosts))), given, window),
            name,
        ).samples == not_before(
            latencies(samples_of(given, name)),
            samples_of(given, name).last().timestamp.ago(window),
        ),
{
    lemma_new_dashboard::<L>(hosts, name);
    lemma_run_of_a_host(map_of(blank_list::<L>(host_names(hosts))), given, window, name);
    lemma_window_of_a_host(samples_of(given, name), window);
}

/// A new status puts one change in front of those that are there: afterwards there is one more, or
/// three, and each of the others is the one that stood before it, whatever the times are. A status
/// that is not new leaves the changes as they are. Either way it is the last status.
pub proof fn lemma_events_kept<L>(h: HostHistory<L>, s: SampleView<L>, window: int)
    ensures
        ({
            let kept = recorded(h, s, window).events;
            &&& recorded(h, s, window).last_status == Some(s.reachable)
            &&& h.last_status == Some(s.reachable) ==> kept == h.events
            &&& h.last_status != Some(s.reachable) ==> {
                &&& kept.len() == (if h.events.len() + 1 < 3 {
                    h.events.len() + 1
                } else {
                    3
                })
                &&& kept[0].timestamp == s.timestamp
                &&& kept[0].reachable == s.reachable
                &&& forall|i: int|
                    0 <= i && i + 1 < kept.len() ==> kept[i + 1] == #[trigger] h.events[i]
                &&& change_is_in_front(h.events, kept, s.timestamp, s.reachable)
            }
        }),
{
    if h.last_status != Some(s.reachable) {
        let event = ReachabilityEvent { timestamp: s.timestamp, reachable: s.reachable };
        let all = seq![event] + h.events;
        let kept = recorded(h, s, window).events;
        assert(all[0] == event);
        assert(forall|i: int| 0 <= i < h.events.len() ==> all[i + 1] == #[trigger] h.events[i]);
        assert forall|i: int| 0 <= i && i + 1 < kept.len() implies kept[i + 1]
            == #[trigger] h.events[i] by {
            assert(kept[i + 1] == all[i + 1]);
        }
        assert forall|i: int| 1 <= i < kept.len() implies #[trigger] kept[i] == h.events[i - 1] by {
            assert(kept[i] == all[i]);
        }
    }
}

/// The positions of the samples whose status differs from that of the one before; the first one is
/// always among them.
pub open spec fn change_points<L>(samples: Seq<SampleView<L>>) -> Seq<int> {
    Seq::new(samples.len(), |i: int| i).filter(
        |i: int| i == 0 || samples[i].reachable != samples[i - 1].reachable,
    )
}

/// Filters that agree on every item leave the same items.
proof fn lemma_filters_agree<T>(s: Seq<T>, p: spec_fn(T) -> bool, q: spec_fn(T) -> bool)
    requires
        forall|i: int| 0 <= i < s.len() ==> p(#[trigger] s[i]) == q(s[i]),
    ensures
        s.filter(p) == s.filter(q),
    decreases s.len(),
{
    reveal(Seq::filter);
    if s.len() > 0 {
        assert(s[s.len() - 1] == s.last());
        lemma_filters_agree(s.drop_last(), p, q);
    }
}

/// One more sample is one more change where its status is new.
proof fn lemma_change_points_grow<L>(samples: Seq<SampleView<L>>)
    requires
        samples.len() > 0,
    ensures
        ({
            let n = samples.len() - 1;
            let before = change_points(samples.drop_last());
            if n == 0 || samples[n].reachable != samples[n - 1].reachable {
                change_points(samples) == before.push(n)
            } else {
                change_points(samples) == before
            }
        }),
{
    reveal(Seq::filter);
    let front = samples.drop_last();
    let all = Seq::new(samples.len(), |i: int| i);
    let p = |i: int| i == 0 || samples[i].reachable != samples[i - 1].reachable;
    let q = |i: int| i == 0 || front[i].reachable != front[i - 1].reachable;
    assert(all.drop_last() =~= Seq::new(front.len(), |i: int| i));
    lemma_filters_agree(all.drop_last(), p, q);
}

/// Change points are positions of samples.
proof fn lemma_change_points_in_range<L>(samples: Seq<SampleView<L>>)
    ensures
        forall|k: int|
            0 <= k < change_points(samples).len() ==> 0 <= #[trigger] change_points(samples)[k]
                < samples.len(),
    decreases samples.len(),
{
    if samples.len() > 0 {
        lemma_change_points_in_range(samples.drop_last());
        lemma_change_points_grow(samples);
    } else {
        reveal(Seq::filter);
    }
}

/// After any row of samples of a host, whatever their times are, the changes shown are the last three
/// changes of its status, or all of them where there were fewer, the newest first; and the last
/// status is that of the last sample.
pub proof fn lemma_last_three_changes<L>(samples: Seq<SampleView<L>>, window: int)
    ensures
        ({
            let h = run_records(samples, window);
            let points = change_points(samples);
            &&& h.events.len() == (if points.len() < 3 {
                points.len()
            } else {
                3
            })
            &&& forall|k: int|
                0 <= k < h.events.len() ==> (#[trigger] h.events[k]).timestamp
                    == samples[points[points.len() - 1 - k]].timestamp && h.events[k].reachable
                    == samples[points[points.len() - 1 - k]].reachable
            &&& h.last_status == (if samples.len() == 0 {
                None
            } else {
                Some(samples[samples.len() - 1].reachable)
            })
        }),
    decreases samples.len(),
{
    let points = change_points(samples);
    let events = run_records(samples, window).events;
    if samples.len() == 0 {
        reveal(Seq::filter);
    } else {
        let n = samples.len() - 1;
        let front = samples.drop_last();
        let before = change_points(front);
        let h = run_records(front, window);
        lemma_last_three_changes(front, window);
        lemma_change_points_grow(samples);
        lemma_change_points_in_range(front);
        lemma_events_kept(h, samples.last(), window);
        assert forall|k: int| 0 <= k < events.len() implies (#[trigger] events[k]).timestamp
            == samples[points[points.len() - 1 - k]].timestamp && events[k].reachable
            == samples[points[points.len() - 1 - k]].reachable by {
            let m = before.len() as int;
            if n == 0 || samples[n].reachable != samples[n - 1].reachable {
                if k > 0 {
                    assert(events[k] == h.events[k - 1]);
                    assert(points[m - k] == before[m - k]);
                    assert(0 <= before[m - k] < front.len());
                }
            } else {
                assert(events[k] == h.events[k]);
                assert(0 <= before[m - 1 - k] < front.len());
            }
        }
    }
}

/// The same over any run of the dashboard, whatever the other hosts send in between.
pub proof fn lemma_dashboard_shows_three_changes<L>(
    hosts: Seq<HostConfig>,
    given: Seq<SampleView<L>>,
    window: int,
    name: Seq<char>,
)
    ensures
        ({
            let h = history(
                run_updates(map_of(blank_list::<L>(host_names(hosts))), given, window),
                name,
            );
            let own = samples_of(given, name);
            let points = change_points(own);
            &&& h.events.len() == (if points.len() < 3 {
                points.len()
            } else {
                3
            })
            &&& forall|k: int|
                0 <= k < h.events.len() ==> (#[trigger] h.events[k]).timestamp
                    == own[points[points.len() - 1 - k]].timestamp && h.events[k].reachable
                    == own[points[points.len() - 1 - k]].reachable
            &&& h.last_status == (if own.len() == 0 {
                None
            } else {
                Some(own[own.len() - 1].reachable)
            })
        }),
{
    lemma_new_dashboard::<L>(hosts, name);
    lemma_run_of_a_host(map_of(blank_list::<L>(host_names(hosts))), given, window, name);
    lemma_last_three_changes(samples_of(given, name), window);
}

/// A host that was not heard of yet is taken in as one of which nothing is known, and any other one
/// with what is known of it; nothing else on the dashboard changes.
pub proof fn lemma_update_of_one_host<L>(
    m: Map<Seq<char>, HostHistory<L>>,
    s: SampleView<L>,
    window: int,
)
    ensures
        forall|name: Seq<char>| #[trigger]
            updated(m, s, window).contains_key(name) <==> m.contains_key(name) || name
                == s.host_name,
        forall|name: Seq<char>|
            name != s.host_name && m.contains_key(name) ==> #[trigger] updated(m, s, window)[name]
                == m[name],
        m.contains_key(s.host_name) ==> updated(m, s, window)[s.host_name] == recorded(
            m[s.host_name],
            s,
            window,
        ),
        !m.contains_key(s.host_name) ==> exists|h: HostHistory<L>|
            h.last_status is None && h.events.len() == 0 && h.samples.len() == 0 && updated(
                m,
                s,
                window,
            )[s.host_name] == #[trigger] recorded(h, s, window),
{
    if !m.contains_key(s.host_name) {
        assert(updated(m, s, window)[s.host_name] == recorded(blank::<L>(), s, window));
    }
}

/// The chart goes back a day, which is eight times what is kept otherwise.
pub proof fn lemma_windows()
    ensures
        MAX_WINDOW_SECS == 3 * 60 * 60,
        CHART_WINDOW_SECS == 24 * 60 * 60,
        CHART_WINDOW_SECS == 8 * MAX_WINDOW_SECS,
        CHART_WINDOW_SECS <= MAX_SPAN_SECS,
{
}

} // verus!
