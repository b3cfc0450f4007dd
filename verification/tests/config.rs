use nootnoot::config::{
    config_source, default_summary_interval, find_default_config_file, load_config,
    parse_cli_hosts, parse_host_arg, Args, ConfigError, ConfigLocation, ConfigSource, FileConfig,
    FileLoad, HostConfig, WebConfig,
};
use std::path::PathBuf;

fn no_args() -> Args {
    Args {
        config: None,
        host: vec![],
        log_file: None,
        web: false,
        web_bind: None,
        summary_interval: None,
    }
}

fn host(name: &str, address: &str, up: u64, down: u64) -> HostConfig {
    HostConfig {
        name: name.to_string(),
        address: address.to_string(),
        up_interval_ms: up,
        down_interval_ms: down,
        detailed_log: None,
    }
}

fn file(web: Option<&str>) -> FileConfig {
    FileConfig {
        hosts: vec![host("router", "192.168.1.1", 10_000, 1_000)],
        summary_interval_secs: 600,
        log_file: Some(PathBuf::from("/var/log/nootnoot/nootnoot.log")),
        web: web.map(|b| WebConfig { bind: b.to_string() }),
    }
}

fn bind(b: &str) -> Option<WebConfig> {
    Some(WebConfig { bind: b.to_string() })
}

#[test]
fn hosts_of_the_usage_example() {
    let mut args = no_args();
    args.host = vec![
        "router,192.168.0.1,10s,1s".to_string(),
        "server,10.0.0.10,1m,3s".to_string(),
    ];
    assert_eq!(
        parse_cli_hosts(&args),
        Ok(vec![
            host("router", "192.168.0.1", 10_000, 1_000),
            host("server", "10.0.0.10", 60_000, 3_000),
        ])
    );
}

#[test]
fn hosts_with_bare_milliseconds() {
    assert_eq!(
        parse_host_arg("router,192.168.0.1,1000,3000"),
        Some(host("router", "192.168.0.1", 1000, 3000))
    );
}

#[test]
fn fields_of_a_host_are_trimmed() {
    assert_eq!(
        parse_host_arg("  my router ,\t10.0.0.1\u{a0}, 5s ,250\u{3000}"),
        Some(host("my router", "10.0.0.1", 5000, 250))
    );
    assert_eq!(parse_host_arg(",,1,2"), Some(host("", "", 1, 2)));
}

#[test]
fn text_that_is_no_host_is_refused() {
    for bad in [
        "", "a", "a,b,1", "a,b,1,2,3", "a,b,x,2", "a,b,1,y", "a,b,,2", "a,b,-1,2", "a,b,1.5,2",
        "a,b,1 s,2", "a,b,s,2", "a,b,1h,2", "a,b,18446744073709551616,2",
    ] {
        assert_eq!(parse_host_arg(bad), None, "{}", bad);
    }
}

#[test]
fn first_bad_host_is_named() {
    let mut args = no_args();
    args.host = vec![
        "a,b,1,2".to_string(),
        "first".to_string(),
        "second".to_string(),
    ];
    let e = parse_cli_hosts(&args).unwrap_err();
    assert_eq!(e, ConfigError::InvalidHostArg("first".to_string()));
    assert_eq!(e.message(), "Invalid --host argument: first");
}

#[test]
fn no_host_argument_means_no_host() {
    assert_eq!(parse_cli_hosts(&no_args()), Ok(vec![]));
}

#[test]
fn summary_interval_defaults_to_a_minute() {
    assert_eq!(default_summary_interval(), 60);
}

#[test]
fn source_of_the_configuration() {
    let mut args = no_args();
    assert_eq!(config_source(&args), ConfigSource::DefaultFile);
    args.config = Some(PathBuf::from("x.toml"));
    assert_eq!(config_source(&args), ConfigSource::GivenFile);
    args.host = vec!["a,b,1,2".to_string()];
    assert_eq!(config_source(&args), ConfigSource::CommandLine);
}

#[test]
fn default_files_in_their_order() {
    assert_eq!(
        find_default_config_file(true, Some(true), true),
        Some(ConfigLocation::Current)
    );
    assert_eq!(
        find_default_config_file(false, Some(true), true),
        Some(ConfigLocation::Home)
    );
    assert_eq!(
        find_default_config_file(false, Some(false), true),
        Some(ConfigLocation::System)
    );
    assert_eq!(
        find_default_config_file(false, None, true),
        Some(ConfigLocation::System)
    );
    assert_eq!(find_default_config_file(false, None, false), None);
    assert_eq!(ConfigLocation::Current.path(), "nootnoot.toml");
    assert_eq!(ConfigLocation::Home.path(), ".config/nootnoot.toml");
    assert_eq!(ConfigLocation::System.path(), "/etc/nootnoot.toml");
}

#[test]
fn host_arguments_come_before_the_file() {
    let mut args = no_args();
    args.host = vec!["a,b,1,2".to_string()];
    let (hosts, summary, log, web) =
        load_config(args, FileLoad::Loaded(file(Some("1.1.1.1:1")))).unwrap();
    assert_eq!(hosts, vec![host("a", "b", 1, 2)]);
    assert_eq!(summary, 60);
    assert_eq!(log, None);
    assert_eq!(web, None);
}

#[test]
fn dashboard_next_to_host_arguments() {
    let mut args = no_args();
    args.host = vec!["router,192.168.0.1,10s,1s".to_string()];
    args.web = true;
    args.web_bind = Some("0.0.0.0:8080".to_string());
    args.summary_interval = Some(7);
    args.log_file = Some(PathBuf::from("l"));
    let (_, summary, log, web) = load_config(args, FileLoad::Absent).unwrap();
    assert_eq!(summary, 7);
    assert_eq!(log, Some(PathBuf::from("l")));
    assert_eq!(web, bind("0.0.0.0:8080"));

    let mut args = no_args();
    args.host = vec!["a,b,1,2".to_string()];
    args.web = true;
    let (_, _, _, web) = load_config(args, FileLoad::Absent).unwrap();
    assert_eq!(web, bind("127.0.0.1:8080"));
}

#[test]
fn bad_host_argument_ends_loading() {
    let mut args = no_args();
    args.host = vec!["oops".to_string()];
    assert_eq!(
        load_config(args, FileLoad::Absent),
        Err(ConfigError::InvalidHostArg("oops".to_string()))
    );
}

#[test]
fn file_is_used_as_it_is() {
    let (hosts, summary, log, web) =
        load_config(no_args(), FileLoad::Loaded(file(Some("0.0.0.0:8080")))).unwrap();
    assert_eq!(hosts, vec![host("router", "192.168.1.1", 10_000, 1_000)]);
    assert_eq!(summary, 600);
    assert_eq!(log, Some(PathBuf::from("/var/log/nootnoot/nootnoot.log")));
    assert_eq!(web, bind("0.0.0.0:8080"));
}

#[test]
fn command_line_overrides_the_file() {
    let mut args = no_args();
    args.log_file = Some(PathBuf::from("mine.log"));
    args.summary_interval = Some(5);
    args.web_bind = Some("[::1]:9".to_string());
    let (_, summary, log, web) =
        load_config(args, FileLoad::Loaded(file(Some("0.0.0.0:8080")))).unwrap();
    assert_eq!(summary, 5);
    assert_eq!(log, Some(PathBuf::from("mine.log")));
    assert_eq!(web, bind("[::1]:9"));
}

#[test]
fn web_flag_turns_the_dashboard_on() {
    let mut args = no_args();
    args.web = true;
    let (_, _, _, web) = load_config(args, FileLoad::Loaded(file(None))).unwrap();
    assert_eq!(web, bind("127.0.0.1:8080"));

    let mut args = no_args();
    args.web = true;
    let (_, _, _, web) = load_config(args, FileLoad::Loaded(file(Some("2.2.2.2:2")))).unwrap();
    assert_eq!(web, bind("2.2.2.2:2"));
}

#[test]
fn bind_address_alone_turns_nothing_on() {
    let mut args = no_args();
    args.web_bind = Some("2.2.2.2:2".to_string());
    let (_, _, _, web) = load_config(args, FileLoad::Loaded(file(None))).unwrap();
    assert_eq!(web, None);
}

#[test]
fn errors_without_a_host() {
    assert_eq!(
        load_config(no_args(), FileLoad::Absent),
        Err(ConfigError::NoHosts)
    );
    let mut empty = file(None);
    empty.hosts = vec![];
    assert_eq!(
        load_config(no_args(), FileLoad::Loaded(empty)),
        Err(ConfigError::NoHosts)
    );
    assert_eq!(ConfigError::NoHosts.message(), "No hosts configured");
}

#[test]
fn errors_of_the_file_are_passed_on() {
    let e = load_config(
        no_args(),
        FileLoad::Failed(ConfigError::Io("no such file".to_string())),
    )
    .unwrap_err();
    assert_eq!(e.message(), "I/O error: no such file");
    let e = load_config(
        no_args(),
        FileLoad::Failed(ConfigError::Toml("expected `=`".to_string())),
    )
    .unwrap_err();
    assert_eq!(e.message(), "Failed to parse TOML config: expected `=`");
}
