//! The task that watches one host: ping, report, sleep, and again.
use vstd::prelude::*;

use crate::clock::{rfc3339_text, Timestamp};
use crate::config::{HostConfig, HostView};
use crate::report::{change_line, change_view};
use crate::sample::{PingSample, SampleView};
use crate::web_state::{blank, newest, recorded, HostHistory, ReachabilityEvent};

verus! {

/// How long the answer to a ping is waited for, in seconds.
pub const PING_TIMEOUT_SECS: u64 = 3;

/// How one ping went.
#[derive(Debug)]
pub enum PingResult<L> {
    /// The host answered, with this latency in milliseconds
    Reply(L),
    /// The host did not answer, or not with a latency that can be read
    NoReply,
    /// `ping` could not be run
    Failed,
}

/// What happens to the task.
#[derive(Debug)]
pub enum HostEvent<L> {
    /// The task starts, or its sleep is over
    Wake,
    /// The ping is over, at the given time
    PingDone { timestamp: Timestamp, result: PingResult<L> },
    /// The program is to end
    Shutdown,
}

/// What the task does next.
#[derive(Debug)]
pub enum HostAction<L> {
    /// Ping the host
    Ping { timeout_secs: u64 },
    /// Log the change, if there is one, hand the sample on, and sleep
    Report { change: Option<String>, sample: PingSample<L>, sleep_ms: u64 },
    /// End
    Stop,
}

/// What the task does next, as mathematical values.
pub enum ActionView<L> {
    Ping { timeout_secs: u64 },
    Report { change: Option<Seq<char>>, sample: SampleView<L>, sleep_ms: u64 },
    Stop,
}

impl<L> View for HostAction<L> {
    type V = ActionView<L>;

    open spec fn view(&self) -> ActionView<L> {
        match self {
            HostAction::Ping { timeout_secs } => ActionView::Ping { timeout_secs: *timeout_secs },
            HostAction::Report { change, sample, sleep_ms } => ActionView::Report {
                change: match change {
                    Some(line) => Some(line@),
                    None => None,
                },
                sample: sample@,
                sleep_ms: *sleep_ms,
            },
            HostAction::Stop => ActionView::Stop,
        }
    }
}

/// Whether the host is reachable, going by a ping.
pub open spec fn is_reply<L>(result: PingResult<L>) -> bool {
    result is Reply
}

/// The latency that a ping gave.
pub open spec fn latency_of<L>(result: PingResult<L>) -> Option<L> {
    match result {
        PingResult::Reply(latency) => Some(latency),
        _ => None,
    }
}

/// The sample that a ping makes.
pub open spec fn sample_of<L>(
    cfg: HostView,
    timestamp: Timestamp,
    result: PingResult<L>,
) -> SampleView<L> {
    SampleView {
        host_name: cfg.name,
        timestamp,
        reachable: is_reply(result),
        latency_ms: latency_of(result),
    }
}

/// What the task does on an event, given the status that it last logged.
pub open spec fn next_action<L>(
    status: Option<bool>,
    cfg: HostView,
    event: HostEvent<L>,
) -> ActionView<L> {
    match event {
        HostEvent::Wake => ActionView::Ping { timeout_secs: PING_TIMEOUT_SECS },
        HostEvent::PingDone { timestamp, result } => ActionView::Report {
            change: if status != Some(is_reply(result)) {
                Some(change_view(timestamp.text(), cfg.name, cfg.address, is_reply(result)))
            } else {
                None
            },
            sample: sample_of(cfg, timestamp, result),
            sleep_ms: if is_reply(result) {
                cfg.up_interval_ms
            } else {
                cfg.down_interval_ms
            },
        },
        HostEvent::Shutdown => ActionView::Stop,
    }
}

/// The status that the task last logged, after an event.
pub open spec fn next_status<L>(status: Option<bool>, event: HostEvent<L>) -> Option<bool> {
    match event {
        HostEvent::PingDone { result, .. } => Some(is_reply(result)),
        _ => status,
    }
}

/// The state of the task: whether the host was reachable at the last ping.
#[derive(Debug)]
pub struct HostTask {
    reachable: Option<bool>,
}

impl HostTask {
    /// The status at the last ping, if there was one.
    pub closed spec fn status(&self) -> Option<bool> {
        self.reachable
    }

    /// A task that has not pinged yet.
    pub fn new() -> (r: HostTask)
        ensures
            r.status() is None,
    {
        HostTask { reachable: None }
    }

    /// Takes an event in, and says what to do next.
    pub fn step<L>(&mut self, cfg: &HostConfig, event: HostEvent<L>) -> (r: HostAction<L>)
        requires
            event matches HostEvent::PingDone { timestamp, .. } ==> timestamp.valid(),
        ensures
            r@ == next_action(old(self).status(), cfg@, event),
            final(self).status() == next_status(old(self).status(), event),
            event is Wake <==> (r matches HostAction::Ping { timeout_secs } && timeout_secs == 3),
            event is Shutdown <==> r is Stop,
            event matches HostEvent::PingDone { timestamp, result } ==> {
                &&& r matches HostAction::Report { change, sample, sleep_ms }
                &&& sample.host_name@ == cfg.name@
                &&& sample.timestamp == timestamp
                &&& sample.reachable == (result is Reply)
                &&& match result {
                    PingResult::Reply(latency) => sample.latency_ms == Some(latency),
                    _ => sample.latency_ms is None,
                }
                &&& sleep_ms == (if result is Reply {
                    cfg.up_interval_ms
                } else {
                    cfg.down_interval_ms
                })
                &&& change is Some <==> old(self).status() != Some(result is Reply)
                &&& change matches Some(line) ==> line@ == rfc3339_text(
                    timestamp.secs as int,
                    timestamp.nanos as int,
                ) + " host="@ + cfg.name@ + " address="@ + cfg.address@ + " reachable="@ + (
                if result is Reply {
                    "true"@
                } else {
                    "false"@
                })
                &&& final(self).status() == Some(result is Reply)
            },
            !(event is PingDone) ==> final(self).status() == old(self).status(),
    {
        match event {
            HostEvent::Wake => HostAction::Ping { timeout_secs: PING_TIMEOUT_SECS },
            HostEvent::PingDone { timestamp, result } => {
                let (reachable, latency_ms): (bool, Option<L>) = match result {
                    PingResult::Reply(latency) => (true, Some(latency)),
                    PingResult::NoReply => (false, None),
                    PingResult::Failed => (false, None),
                };
                let changed: bool = match self.reachable {
                    Some(status) => status != reachable,
                    None => true,
                };
                let mut change: Option<String> = None;
                if changed {
                    change = Some(
                        change_line(timestamp, cfg.name.as_str(), cfg.address.as_str(), reachable),
                    );
                    self.reachable = Some(reachable);
                }
                let sleep_ms: u64 = if reachable {
                    cfg.up_interval_ms
                } else {
                    cfg.down_interval_ms
                };
                HostAction::Report {
                    change,
                    sample: PingSample {
                        host_name: cfg.name.clone(),
                        timestamp,
                        reachable,
                        latency_ms,
                    },
                    sleep_ms,
                }
            },
            HostEvent::Shutdown => HostAction::Stop,
        }
    }
}

/// A change is logged at the first ping, and then exactly where a ping turns out other than the one
/// before it.
pub proof fn lemma_changes_are_logged<L>(
    status: Option<bool>,
    cfg: HostView,
    first: HostEvent<L>,
    second: HostEvent<L>,
)
    requires
        first is PingDone,
        second is PingDone,
    ensures
        next_action(None, cfg, first)->change is Some,
        next_action(next_status(status, first), cfg, second)->change is Some <==> is_reply(
            first->result,
        ) != is_reply(second->result),
{
}

/// The rate adapts to the host: the sleep is the up interval after an answer, the down interval
/// otherwise, whatever came before.
pub proof fn lemma_rate_adapts<L>(status: Option<bool>, cfg: HostView, event: HostEvent<L>)
    requires
        event is PingDone,
    ensures
        is_reply(event->result) ==> next_action(status, cfg, event)->sleep_ms == cfg.up_interval_ms,
        !is_reply(event->result) ==> next_action(status, cfg, event)->sleep_ms
            == cfg.down_interval_ms,
        next_action(status, cfg, event)->sample.latency_ms is Some <==> is_reply(event->result),
{
}

/// The log and the dashboard agree: with the same last status they see a change at the same pings,
/// and they go on with the same last status.
pub proof fn lemma_log_and_dashboard_agree<L>(
    status: Option<bool>,
    cfg: HostView,
    event: HostEvent<L>,
    h: HostHistory<L>,
    window: int,
)
    requires
        event is PingDone,
        h.last_status == status,
    ensures
        ({
            let action = next_action(status, cfg, event);
            let after = recorded(h, action->sample, window);
            &&& after.last_status == next_status(status, event)
            &&& action->change is None <==> h.last_status == Some(action->sample.reachable)
            &&& action->change is None ==> after.events == h.events
            &&& action->change is Some ==> after.events.len() > 0 && after.events[0].timestamp
                == action->sample.timestamp && after.events[0].reachable
                == action->sample.reachable
        }),
{
}

/// The status that the task last logged, after a row of events from the start on.
pub open spec fn run_status<L>(events: Seq<HostEvent<L>>) -> Option<bool>
    decreases events.len(),
{
    if events.len() == 0 {
        None
    } else {
        next_status(run_status(events.drop_last()), events.last())
    }
}

/// The changes that the task logs in a row of events from the start on, the newest first.
pub open spec fn run_changes<L>(cfg: HostView, events: Seq<HostEvent<L>>) -> Seq<ReachabilityEvent>
    decreases events.len(),
{
    if events.len() == 0 {
        Seq::empty()
    } else {
        let before = run_changes(cfg, events.drop_last());
        match next_action(run_status(events.drop_last()), cfg, events.last()) {
            ActionView::Report { change: Some(_), sample, .. } => seq![
                ReachabilityEvent { timestamp: sample.timestamp, reachable: sample.reachable },
            ] + before,
            _ => before,
        }
    }
}

/// What the dashboard holds of the host after a row of events from the start on.
pub open spec fn run_history<L>(
    cfg: HostView,
    events: Seq<HostEvent<L>>,
    window: int,
) -> HostHistory<L>
    decreases events.len(),
{
    if events.len() == 0 {
        blank()
    } else {
        let before = run_history(cfg, events.drop_last(), window);
        match next_action(run_status(events.drop_last()), cfg, events.last()) {
            ActionView::Report { sample, .. } => recorded(before, sample, window),
            _ => before,
        }
    }
}

/// The dashboard shows the last changes of the log: over any run of the task it holds the newest
/// changes that were logged, no other ones, and the same last status.
pub proof fn lemma_dashboard_shows_the_log<L>(
    cfg: HostView,
    events: Seq<HostEvent<L>>,
    window: int,
)
    ensures
        run_history(cfg, events, window).last_status == run_status(events),
        run_history(cfg, events, window).events == newest(run_changes(cfg, events)),
    decreases events.len(),
{
    if events.len() > 0 {
        let front = events.drop_last();
        lemma_dashboard_shows_the_log(cfg, front, window);
        match next_action(run_status(front), cfg, events.last()) {
            ActionView::Report { change: Some(_), sample, .. } => {
                let event = ReachabilityEvent {
                    timestamp: sample.timestamp,
                    reachable: sample.reachable,
                };
                let changes = run_changes(cfg, front);
                assert(newest(seq![event] + newest(changes)) =~= newest(seq![event] + changes));
            },
            _ => {},
        }
    }
}

/// The changes in the log alternate: over any run of the task no two neighbours say the same, and
/// the newest one says how the last ping went.
pub proof fn lemma_logged_changes_alternate<L>(cfg: HostView, events: Seq<HostEvent<L>>)
    ensures
        ({
            let changes = run_changes(cfg, events);
            &&& run_status(events) == (if changes.len() > 0 {
                Some(changes[0].reachable)
            } else {
                None
            })
            &&& forall|i: int, j: int|
                #![trigger changes[i], changes[j]]
                0 <= i && j == i + 1 && j < changes.len() ==> changes[i].reachable
                    != changes[j].reachable
        }),
    decreases events.len(),
{
    if events.len() > 0 {
        let front = events.drop_last();
        let before = run_changes(cfg, front);
        let changes = run_changes(cfg, events);
        lemma_logged_changes_alternate(cfg, front);
        match next_action(run_status(front), cfg, events.last()) {
            ActionView::Report { change: Some(_), .. } => {
                assert forall|i: int, j: int|
                    #![trigger changes[i], changes[j]]
                    0 <= i && j == i + 1 && j < changes.len() implies changes[i].reachable
                    != changes[j].reachable by {
                    assert(changes[j] == before[j - 1]);
                    if i > 0 {
                        assert(changes[i] == before[i - 1]);
                    }
                }
            },
            _ => {},
        }
    }
}

/// The task pings whenever it wakes, whatever it saw before, and waits three seconds for the answer;
/// a ping that is over is reported; and it ends on the shutdown message and on nothing else.
pub proof fn lemma_pings_until_shutdown<L>(
    status: Option<bool>,
    cfg: HostView,
    event: HostEvent<L>,
)
    ensures
        event is Wake ==> (next_action(status, cfg, event) matches ActionView::Ping { timeout_secs }
            && timeout_secs == 3),
        next_action(status, cfg, event) is Ping <==> event is Wake,
        next_action(status, cfg, event) is Report <==> event is PingDone,
        next_action(status, cfg, event) is Stop <==> event is Shutdown,
{
}

/// Nothing but a ping changes the status, and a ping makes it its own; so the status is always how
/// the last ping went, whatever came between.
pub proof fn lemma_status_is_the_last_ping<L>(events: Seq<HostEvent<L>>, k: int)
    requires
        -1 <= k < events.len(),
        forall|i: int| k < i < events.len() ==> !(#[trigger] events[i] is PingDone),
        k >= 0 ==> events[k] is PingDone,
    ensures
        run_status(events) == (if k < 0 {
            None
        } else {
            Some(events[k]->result is Reply)
        }),
    decreases events.len(),
{
    if events.len() > 0 {
        let front = events.drop_last();
        if k < events.len() - 1 {
            assert(!(events[events.len() - 1] is PingDone));
            assert(forall|i: int| 0 <= i < front.len() ==> #[trigger] front[i] == events[i]);
            lemma_status_is_the_last_ping(front, k);
        }
    }
}

/// What a ping reports: the host by its name, the time, an answer where and only where there was one,
/// with its latency; a line where and only where the status is new, with the time, the name, the
/// address and the new status; and the sleep that belongs to the status.
pub proof fn lemma_ping_is_reported<L>(
    status: Option<bool>,
    cfg: HostView,
    timestamp: Timestamp,
    result: PingResult<L>,
)
    ensures
        next_action(status, cfg, HostEvent::PingDone { timestamp, result }) matches
            ActionView::Report { change, sample, sleep_ms } && {
            &&& sample.host_name == cfg.name
            &&& sample.timestamp == timestamp
            &&& sample.reachable == (result is Reply)
            &&& match result {
                PingResult::Reply(latency) => sample.latency_ms == Some(latency),
                _ => sample.latency_ms is None,
            }
            &&& result is Reply ==> sleep_ms == cfg.up_interval_ms
            &&& !(result is Reply) ==> sleep_ms == cfg.down_interval_ms
            &&& status == Some(result is Reply) ==> change is None
            &&& status != Some(result is Reply) ==> change == Some(
                rfc3339_text(timestamp.secs as int, timestamp.nanos as int) + " host="@ + cfg.name
                    + " address="@ + cfg.address + " reachable="@ + (if result is Reply {
                    "true"@
                } else {
                    "false"@
                }),
            )
        },
        next_status(status, HostEvent::PingDone { timestamp, result }) == Some(result is Reply),
{
}

} // verus!
