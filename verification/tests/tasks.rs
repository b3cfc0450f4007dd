use nootnoot::clock::Timestamp;
use nootnoot::config::HostConfig;
use nootnoot::host_task::{HostAction, HostEvent, HostTask, PingResult};
use nootnoot::sample::PingSample;
use nootnoot::stats::{StatsAction, StatsAggregator, StatsEvent};
use nootnoot::web_state::WebState;

const SEC: u128 = 1_000_000_000;

fn cfg() -> HostConfig {
    HostConfig {
        name: "router".to_string(),
        address: "192.168.0.1".to_string(),
        up_interval_ms: 10_000,
        down_interval_ms: 1_000,
        detailed_log: None,
    }
}

fn ping(
    task: &mut HostTask,
    secs: i64,
    result: PingResult<f64>,
) -> (Option<String>, PingSample<f64>, u64) {
    let timestamp = Timestamp::new(secs, 0).unwrap();
    match task.step(&cfg(), HostEvent::PingDone { timestamp, result }) {
        HostAction::Report { change, sample, sleep_ms } => (change, sample, sleep_ms),
        other => panic!("{:?}", other),
    }
}

fn sample(name: &str, latency_ms: Option<f64>, now_nanos: u128) -> StatsEvent<f64> {
    StatsEvent::Sample {
        sample: PingSample {
            host_name: name.to_string(),
            timestamp: Timestamp::new(0, 0).unwrap(),
            reachable: latency_ms.is_some(),
            latency_ms,
        },
        now_nanos,
    }
}

fn action(fold: Option<usize>, summary: bool, stop: bool) -> StatsAction {
    StatsAction { fold, summary, stop }
}

#[test]
fn host_task_pings_when_it_wakes_and_stops_at_shutdown() {
    let mut task = HostTask::new();
    assert!(matches!(
        task.step::<f64>(&cfg(), HostEvent::Wake),
        HostAction::Ping { timeout_secs: 3 }
    ));
    assert!(matches!(task.step::<f64>(&cfg(), HostEvent::Shutdown), HostAction::Stop));
}

#[test]
fn host_task_logs_changes_only() {
    let mut task = HostTask::new();
    let (change, s, sleep) = ping(&mut task, 0, PingResult::Reply(1.5));
    assert_eq!(
        change.as_deref(),
        Some("1970-01-01T00:00:00+00:00 host=router address=192.168.0.1 reachable=true")
    );
    assert_eq!(s.host_name, "router");
    assert!(s.reachable);
    assert_eq!(s.latency_ms, Some(1.5));
    assert_eq!(s.timestamp, Timestamp::new(0, 0).unwrap());
    assert_eq!(sleep, 10_000);

    let (change, s, sleep) = ping(&mut task, 10, PingResult::Reply(2.5));
    assert_eq!(change, None);
    assert_eq!(s.latency_ms, Some(2.5));
    assert_eq!(sleep, 10_000);

    let (change, s, sleep) = ping(&mut task, 20, PingResult::NoReply);
    assert_eq!(
        change.as_deref(),
        Some("1970-01-01T00:00:20+00:00 host=router address=192.168.0.1 reachable=false")
    );
    assert!(!s.reachable);
    assert_eq!(s.latency_ms, None);
    assert_eq!(sleep, 1_000);

    let (change, s, sleep) = ping(&mut task, 21, PingResult::Failed);
    assert_eq!(change, None);
    assert!(!s.reachable);
    assert_eq!(sleep, 1_000);
}

#[test]
fn first_ping_without_answer_is_logged_too() {
    let mut task = HostTask::new();
    let (change, _, _) = ping(&mut task, 0, PingResult::Failed);
    assert!(change.unwrap().ends_with("reachable=false"));
}

#[test]
fn latencies_are_counted_for_their_host() {
    let mut stats = StatsAggregator::new(60, 0);
    assert_eq!(stats.len(), 0);
    assert_eq!(stats.step(&sample("a", Some(1.0), SEC)), action(Some(0), false, false));
    assert_eq!(stats.step(&sample("b", Some(1.0), SEC)), action(Some(1), false, false));
    assert_eq!(stats.step(&sample("a", None, SEC)), action(None, false, false));
    assert_eq!(stats.step(&sample("c", None, SEC)), action(None, false, false));
    assert_eq!(stats.step(&sample("a", Some(2.0), SEC)), action(Some(0), false, false));
    assert_eq!(stats.len(), 2);
    assert_eq!((stats.name(0).as_str(), stats.count(0)), ("a", 2));
    assert_eq!((stats.name(1).as_str(), stats.count(1)), ("b", 1));
    assert!(stats.has_room(&"a".to_string()));
    assert!(stats.has_room(&"unheard of".to_string()));
}

#[test]
fn summaries_come_once_per_interval() {
    let mut stats = StatsAggregator::new(60, 5 * SEC);
    assert!(!stats.step(&sample("a", Some(1.0), 65 * SEC - 1)).summary);
    assert!(stats.step(&sample("a", None, 65 * SEC)).summary);
    assert!(!stats.step(&sample("a", Some(1.0), 65 * SEC)).summary);
    assert!(!stats.step(&sample("a", Some(1.0), 125 * SEC - 1)).summary);
    assert!(stats.step(&sample("a", Some(1.0), 200 * SEC)).summary);
    assert!(!stats.step(&sample("a", Some(1.0), 259 * SEC)).summary);
    assert!(stats.step(&sample("a", Some(1.0), 260 * SEC)).summary);
}

#[test]
fn interval_of_zero_sums_up_every_time() {
    let mut stats = StatsAggregator::new(0, 5 * SEC);
    assert!(stats.step(&sample("a", Some(1.0), 5 * SEC)).summary);
    assert!(stats.step(&sample("a", Some(1.0), 4 * SEC)).summary);
}

#[test]
fn longest_interval_does_not_overflow() {
    let mut stats = StatsAggregator::new(u64::MAX, 0);
    assert!(!stats.step(&sample("a", Some(1.0), 1u128 << 90)).summary);
    assert!(stats.step(&sample("a", Some(1.0), u128::MAX)).summary);
}

#[test]
fn last_summary_at_shutdown_but_not_when_all_are_gone() {
    let mut stats = StatsAggregator::new(60, 0);
    assert_eq!(stats.step::<f64>(&StatsEvent::Shutdown), action(None, true, true));
    assert_eq!(stats.step::<f64>(&StatsEvent::Closed), action(None, false, true));
}

#[test]
fn summary_has_a_line_for_each_host() {
    let mut stats = StatsAggregator::new(60, 0);
    stats.step(&sample("a", Some(1.0), 0));
    stats.step(&sample("a", Some(3.0), 0));
    stats.step(&sample("b", Some(5.0), 0));
    let means = vec!["2.000".to_string(), "5.000".to_string()];
    let stddevs = vec!["1.414".to_string(), "0.000".to_string()];
    let expected = vec![
        "1970-01-01T00:00:00+00:00 summary host=a count=2 mean_ms=2.000 stddev_ms=1.414".to_string(),
        "1970-01-01T00:00:00+00:00 summary host=b count=1 mean_ms=5.000 stddev_ms=NaN".to_string(),
    ];
    let ts = Timestamp::new(0, 0).unwrap();
    assert_eq!(stats.summary_lines(ts, &means, &stddevs), expected);
    assert_eq!(
        stats.summary_lines_at("1970-01-01T00:00:00+00:00", &means, &stddevs),
        expected
    );
}

#[test]
fn dashboard_shows_the_changes_of_the_log() {
    let mut task = HostTask::new();
    let mut state: WebState<f64> = WebState::new(&vec![cfg()]);
    let mut logged: Vec<(i64, bool)> = vec![];
    for (secs, up) in [true, true, false, true, true, false, false, true].into_iter().enumerate() {
        let result = if up { PingResult::Reply(1.0) } else { PingResult::NoReply };
        let (change, s, _) = ping(&mut task, secs as i64, result);
        if change.is_some() {
            logged.insert(0, (s.timestamp.secs, s.reachable));
        }
        state.update_from_sample(&s);
    }
    assert_eq!(logged, vec![(7, true), (5, false), (3, true), (2, false), (0, true)]);
    let shown: Vec<(i64, bool)> = state.snapshot()[0]
        .1
        .reachability_events
        .iter()
        .map(|e| (e.timestamp.secs, e.reachable))
        .collect();
    assert_eq!(shown, logged[..3].to_vec());
}
