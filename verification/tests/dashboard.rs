use nootnoot::clock::Timestamp;
use nootnoot::config::HostConfig;
use nootnoot::sample::PingSample;
use nootnoot::web_state::{HostWebState, WebState, CHART_WINDOW_SECS, MAX_WINDOW_SECS};

fn host(name: &str) -> HostConfig {
    HostConfig {
        name: name.to_string(),
        address: "10.0.0.1".to_string(),
        up_interval_ms: 1,
        down_interval_ms: 1,
        detailed_log: None,
    }
}

fn sample(name: &str, secs: i64, latency_ms: Option<f64>) -> PingSample<f64> {
    PingSample {
        host_name: name.to_string(),
        timestamp: Timestamp::new(secs, 0).unwrap(),
        reachable: latency_ms.is_some(),
        latency_ms,
    }
}

fn shown(state: &WebState<f64>, name: &str) -> Option<HostWebState<f64>> {
    state.snapshot().into_iter().find(|e| e.0 == name).map(|e| e.1)
}

fn events(state: &WebState<f64>, name: &str) -> Vec<(i64, bool)> {
    let h = shown(state, name).unwrap();
    h.reachability_events.iter().map(|e| (e.timestamp.secs, e.reachable)).collect()
}

fn latencies(state: &WebState<f64>, name: &str) -> Vec<(i64, Option<f64>)> {
    let h = shown(state, name).unwrap();
    h.latency_samples.iter().map(|s| (s.timestamp.secs, s.latency_ms)).collect()
}

#[test]
fn new_dashboard_knows_the_hosts_and_nothing_of_them() {
    let state: WebState<f64> = WebState::new(&vec![host("a"), host("b"), host("a")]);
    let names: Vec<String> = state.snapshot().into_iter().map(|e| e.0).collect();
    assert_eq!(names, vec!["a".to_string(), "b".to_string()]);
    assert_eq!(shown(&state, "a").unwrap().last_status, None);
    assert_eq!(events(&state, "a"), vec![]);
    assert_eq!(latencies(&state, "b"), vec![]);
}

#[test]
fn status_changes_are_kept_newest_first_and_three_at_most() {
    let mut state: WebState<f64> = WebState::new(&vec![host("a")]);
    state.update_from_sample(&sample("a", 1, Some(1.0)));
    state.update_from_sample(&sample("a", 2, Some(1.5)));
    assert_eq!(events(&state, "a"), vec![(1, true)]);
    state.update_from_sample(&sample("a", 3, None));
    state.update_from_sample(&sample("a", 4, None));
    state.update_from_sample(&sample("a", 5, Some(2.0)));
    assert_eq!(events(&state, "a"), vec![(5, true), (3, false), (1, true)]);
    state.update_from_sample(&sample("a", 6, None));
    assert_eq!(events(&state, "a"), vec![(6, false), (5, true), (3, false)]);
    assert_eq!(shown(&state, "a").unwrap().last_status, Some(false));
}

#[test]
fn latencies_are_kept_for_the_window() {
    let mut state: WebState<f64> = WebState::new(&[]);
    assert_eq!(MAX_WINDOW_SECS, 3 * 60 * 60);
    state.update_from_sample(&sample("a", 0, Some(0.25)));
    state.update_from_sample(&sample("a", 1, None));
    state.update_from_sample(&sample("a", 10_800, Some(3.0)));
    assert_eq!(
        latencies(&state, "a"),
        vec![(0, Some(0.25)), (1, None), (10_800, Some(3.0))]
    );
    state.update_from_sample(&sample("a", 10_801, Some(4.0)));
    assert_eq!(
        latencies(&state, "a"),
        vec![(1, None), (10_800, Some(3.0)), (10_801, Some(4.0))]
    );
    state.update_from_sample(&sample("a", 1_000_000, None));
    assert_eq!(latencies(&state, "a"), vec![(1_000_000, None)]);
}

#[test]
fn window_of_the_chart() {
    let mut state: WebState<f64> = WebState::with_window(&[], CHART_WINDOW_SECS);
    state.update_from_sample(&sample("a", 0, Some(1.0)));
    state.update_from_sample(&sample("a", 86_400, Some(2.0)));
    assert_eq!(latencies(&state, "a").len(), 2);
    state.update_from_sample(&sample("a", 86_401, Some(3.0)));
    assert_eq!(
        latencies(&state, "a"),
        vec![(86_400, Some(2.0)), (86_401, Some(3.0))]
    );
}

#[test]
fn old_samples_behind_a_newer_one_stay() {
    let mut state: WebState<f64> = WebState::new(&[]);
    state.update_from_sample(&sample("a", 20_000, Some(1.0)));
    state.update_from_sample(&sample("a", 0, Some(2.0)));
    state.update_from_sample(&sample("a", 20_001, Some(3.0)));
    assert_eq!(latencies(&state, "a").len(), 3);
}

#[test]
fn hosts_do_not_touch_each_other() {
    let mut state: WebState<f64> = WebState::new(&vec![host("a"), host("b")]);
    state.update_from_sample(&sample("a", 1, Some(1.0)));
    let before = latencies(&state, "a");
    state.update_from_sample(&sample("b", 1_000_000, None));
    state.update_from_sample(&sample("new", 5, Some(9.0)));
    assert_eq!(latencies(&state, "a"), before);
    assert_eq!(shown(&state, "a").unwrap().last_status, Some(true));
    assert_eq!(shown(&state, "b").unwrap().last_status, Some(false));
    assert_eq!(latencies(&state, "new"), vec![(5, Some(9.0))]);
    assert_eq!(state.snapshot().len(), 3);
}

#[test]
fn run_of_samples_shows_the_window_of_the_last() {
    let mut state: WebState<f64> = WebState::new(&[host("a"), host("b")]);
    let mut given: Vec<(i64, Option<f64>)> = vec![];
    for i in 0..40i64 {
        let secs = i * i * 17;
        let latency = if i % 3 == 0 { None } else { Some(i as f64) };
        state.update_from_sample(&sample("b", 1_000_000 - secs, None));
        state.update_from_sample(&sample("a", secs, latency));
        given.push((secs, latency));
        let expected: Vec<(i64, Option<f64>)> =
            given.iter().copied().filter(|g| g.0 >= secs - 10_800).collect();
        assert_eq!(latencies(&state, "a"), expected);
    }
    assert!(latencies(&state, "a").len() < given.len());
}

#[test]
fn status_is_unknown_until_the_first_sample() {
    let mut state: WebState<f64> = WebState::new(&[host("a")]);
    assert_eq!(shown(&state, "a").unwrap().last_status, None);
    assert!(latencies(&state, "a").is_empty());
    state.update_from_sample(&sample("a", 0, None));
    assert_eq!(shown(&state, "a").unwrap().last_status, Some(false));
    assert_eq!(latencies(&state, "a"), vec![(0, None)]);
}
