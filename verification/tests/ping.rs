use nootnoot::clock::Timestamp;
use nootnoot::host_task::PingResult;
use nootnoot::ping::{ping_args, ping_output, ping_result, PingOutput};
use nootnoot::report::{
    change_line, change_line_at, detail_line, detail_line_at, summary_line_at,
};

fn read(text: &str) -> PingOutput {
    PingOutput::Reading(text.to_string())
}

#[test]
fn arguments_of_ping() {
    assert_eq!(
        ping_args("example.org", 3),
        vec!["-n", "-c", "1", "-W", "3", "example.org"]
    );
    assert_eq!(ping_args("h", 0)[4], "1");
    assert_eq!(ping_args("h", 120)[4], "120");
}

#[test]
fn latency_in_the_output() {
    let out = "PING 1.1.1.1 (1.1.1.1) 56(84) bytes of data.\n\
               64 bytes from 1.1.1.1: icmp_seq=1 ttl=58 time=12.4 ms\n\n\
               --- 1.1.1.1 ping statistics ---\n\
               1 packets transmitted, 1 received, 0% packet loss, time 0ms\n";
    assert_eq!(ping_output(true, out), read("12.4"));
    assert_eq!(ping_output(true, "time=0,045 ms"), read("0.045"));
    assert_eq!(ping_output(true, "time= 7  ms x time=8 ms"), read("7"));
    assert_eq!(ping_output(true, "\u{e9} time=1 ms"), read("1"));
    assert_eq!(ping_output(true, "time=abc ms"), read("abc"));
    assert_eq!(ping_output(true, "time= ms"), read(""));
}

#[test]
fn output_without_a_latency() {
    assert_eq!(ping_output(true, ""), PingOutput::NoReading);
    assert_eq!(ping_output(true, "time<1 ms"), PingOutput::NoReading);
    assert_eq!(ping_output(true, "5 ms time=3"), PingOutput::NoReading);
}

#[test]
fn failed_ping_is_no_reply() {
    assert_eq!(ping_output(false, "time=12.4 ms"), PingOutput::NoReply);
}

#[test]
fn answer_needs_a_latency() {
    let outcome = |success: bool, stdout: &str| -> Option<f64> {
        let output = ping_output(success, stdout);
        let parsed = match &output {
            PingOutput::Reading(text) => text.parse::<f64>().ok(),
            _ => None,
        };
        match ping_result(&output, parsed) {
            PingResult::Reply(latency) => Some(latency),
            PingResult::NoReply => None,
            PingResult::Failed => panic!("ping was run"),
        }
    };
    assert_eq!(outcome(true, "time=12,5 ms"), Some(12.5));
    assert_eq!(outcome(true, "time=soon ms"), None);
    assert_eq!(outcome(true, "time= ms"), None);
    assert_eq!(outcome(true, "no latency"), None);
    assert_eq!(outcome(false, "time=12.5 ms"), None);
    assert!(matches!(
        ping_result(&PingOutput::NoReading, Some(1.0)),
        PingResult::NoReply
    ));
    assert!(matches!(
        ping_result(&PingOutput::NoReply, Some(1.0)),
        PingResult::NoReply
    ));
}

#[test]
fn lines_of_the_logs() {
    let ts = Timestamp::new(1_431_648_000, 0).unwrap();
    assert_eq!(
        change_line(ts, "router", "10.0.0.1", false),
        "2015-05-15T00:00:00+00:00 host=router address=10.0.0.1 reachable=false"
    );
    assert_eq!(change_line_at("T", "n", "a", true), "T host=n address=a reachable=true");
    assert_eq!(
        detail_line(ts, true, Some("12.400")),
        "2015-05-15T00:00:00+00:00,reachable=true,latency_ms=12.400"
    );
    assert_eq!(detail_line_at("T", false, None), "T,reachable=false,latency_ms=NaN");
    assert_eq!(
        summary_line_at("T", "h", 0, "1.000", "2.000"),
        "T summary host=h count=0 mean_ms=NaN stddev_ms=NaN"
    );
    assert_eq!(
        summary_line_at("T", "h", 1, "1.000", "2.000"),
        "T summary host=h count=1 mean_ms=1.000 stddev_ms=NaN"
    );
    assert_eq!(
        summary_line_at("T", "h", 12, "1.000", "2.000"),
        "T summary host=h count=12 mean_ms=1.000 stddev_ms=2.000"
    );
}
