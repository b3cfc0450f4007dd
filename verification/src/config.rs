//! Configuration: command line, configuration file, and how the two are combined.
use std::path::PathBuf;
use vstd::prelude::*;
use vstd::string::*;

use crate::number::{interval_ms, parse_interval_ms};
use crate::text::{
    is_trimmed, lemma_split_counts, lemma_split_joined, lemma_split_single, split, split_on, trim,
    trimmed, views,
};

verus! {

/// `std::path::PathBuf`, carried through from the command line or the configuration file to where
/// the file is opened. Nothing is claimed of it.
#[verifier::external_type_specification]
#[verifier::external_body]
pub struct ExPathBuf(PathBuf);

/// The command line.
#[derive(Debug, PartialEq, Eq)]
pub struct Args {
    /// Path to configuration file
    pub config: Option<PathBuf>,
    /// Host specifications: `name,addr,up,down`, the intervals in milliseconds or with a unit
    pub host: Vec<String>,
    /// Log file path (overrides config if set)
    pub log_file: Option<PathBuf>,
    /// Enable web dashboard (overrides config)
    pub web: bool,
    /// Bind address for web dashboard, e.g. 0.0.0.0:8080
    pub web_bind: Option<String>,
    /// Summary interval in seconds (overrides config)
    pub summary_interval: Option<u64>,
}

/// One monitored host.
#[derive(Debug, Clone, PartialEq, Eq)]
pub struct HostConfig {
    pub name: String,
    pub address: String,
    /// Ping interval in ms when host is reachable
    pub up_interval_ms: u64,
    /// Ping interval in ms when host is not reachable
    pub down_interval_ms: u64,
    /// Optional detailed log file for all pings
    pub detailed_log: Option<PathBuf>,
}

/// The web dashboard.
#[derive(Debug, PartialEq, Eq)]
pub struct WebConfig {
    /// Example: `0.0.0.0:8080`
    pub bind: String,
}

/// What a configuration file holds.
#[derive(Debug, PartialEq, Eq)]
pub struct FileConfig {
    pub hosts: Vec<HostConfig>,
    pub summary_interval_secs: u64,
    /// Optional global log file
    pub log_file: Option<PathBuf>,
    pub web: Option<WebConfig>,
}

/// Why there is no configuration to run with.
#[derive(Debug, PartialEq, Eq)]
pub enum ConfigError {
    /// The configuration file could not be read
    Io(String),
    /// The configuration file could not be parsed
    Toml(String),
    /// A `--host` argument that is no host specification
    InvalidHostArg(String),
    /// Neither the command line nor a configuration file names a host
    NoHosts,
}

/// How reading the configuration file went.
#[derive(Debug, PartialEq, Eq)]
pub enum FileLoad {
    /// There is no file to read
    Absent,
    /// The file could not be read or parsed
    Failed(ConfigError),
    /// The file was read
    Loaded(FileConfig),
}

/// A host configuration as mathematical values.
pub struct HostView {
    pub name: Seq<char>,
    pub address: Seq<char>,
    pub up_interval_ms: u64,
    pub down_interval_ms: u64,
    pub detailed_log: Option<PathBuf>,
}

impl View for HostConfig {
    type V = HostView;

    open spec fn view(&self) -> HostView {
        HostView {
            name: self.name@,
            address: self.address@,
            up_interval_ms: self.up_interval_ms,
            down_interval_ms: self.down_interval_ms,
            detailed_log: self.detailed_log,
        }
    }
}

/// A configuration error as mathematical values.
pub enum ErrorView {
    Io(Seq<char>),
    Toml(Seq<char>),
    InvalidHostArg(Seq<char>),
    NoHosts,
}

impl View for ConfigError {
    type V = ErrorView;

    open spec fn view(&self) -> ErrorView {
        match self {
            ConfigError::Io(s) => ErrorView::Io(s@),
            ConfigError::Toml(s) => ErrorView::Toml(s@),
            ConfigError::InvalidHostArg(s) => ErrorView::InvalidHostArg(s@),
            ConfigError::NoHosts => ErrorView::NoHosts,
        }
    }
}

/// The views of a list of strings.
pub open spec fn strings(v: Seq<String>) -> Seq<Seq<char>> {
    v.map_values(|s: String| s@)
}

/// The views of a list of hosts.
pub open spec fn hosts_view(v: Seq<HostConfig>) -> Seq<HostView> {
    v.map_values(|h: HostConfig| h@)
}

/// The host that a `--host` argument `name,addr,up,down` specifies. White space round each of the
/// four fields does not count.
pub open spec fn host_of_arg(s: Seq<char>) -> Option<HostView> {
    let parts = split(s, ',');
    if parts.len() == 4 {
        match (interval_ms(trimmed(parts[2])), interval_ms(trimmed(parts[3]))) {
            (Some(up), Some(down)) => Some(
                HostView {
                    name: trimmed(parts[0]),
                    address: trimmed(parts[1]),
                    up_interval_ms: up,
                    down_interval_ms: down,
                    detailed_log: None,
                },
            ),
            _ => None,
        }
    } else {
        None
    }
}

/// The hosts that the `--host` arguments specify, in their order, or the first argument that
/// specifies none.
pub open spec fn hosts_of_args(args: Seq<Seq<char>>) -> Result<Seq<HostView>, ErrorView>
    decreases args.len(),
{
    if args.len() == 0 {
        Ok(Seq::empty())
    } else {
        match hosts_of_args(args.drop_last()) {
            Ok(hosts) => match host_of_arg(args.last()) {
                Some(h) => Ok(hosts.push(h)),
                None => Err(ErrorView::InvalidHostArg(args.last())),
            },
            Err(e) => Err(e),
        }
    }
}

/// The host that one `--host` argument specifies.
pub fn parse_host_arg(arg: &str) -> (r: Option<HostConfig>)
    ensures
        match r {
            Some(h) => host_of_arg(arg@) == Some(h@),
            None => host_of_arg(arg@) is None,
        },
        r matches Some(h) ==> {
            let parts = split(arg@, ',');
            &&& parts.len() == 4
            &&& h.name@ == trimmed(parts[0])
            &&& h.address@ == trimmed(parts[1])
            &&& interval_ms(trimmed(parts[2])) == Some(h.up_interval_ms)
            &&& interval_ms(trimmed(parts[3])) == Some(h.down_interval_ms)
            &&& h.detailed_log is None
        },
        r is None ==> {
            let parts = split(arg@, ',');
            ||| parts.len() != 4
            ||| interval_ms(trimmed(parts[2])) is None
            ||| interval_ms(trimmed(parts[3])) is None
        },
{
    let parts: Vec<&str> = split_on(arg, ',');
    assert(views(parts@).len() == parts@.len());
    if parts.len() != 4 {
        return None;
    }
    assert(forall|i: int| 0 <= i < 4 ==> #[trigger] views(parts@)[i] == parts@[i]@);
    let up_interval_ms: u64 = match parse_interval_ms(trim(parts[2])) {
        Some(ms) => ms,
        None => {
            return None;
        },
    };
    let down_interval_ms: u64 = match parse_interval_ms(trim(parts[3])) {
        Some(ms) => ms,
        None => {
            return None;
        },
    };
    Some(
        HostConfig {
            name: trim(parts[0]).to_owned(),
            address: trim(parts[1]).to_owned(),
            up_interval_ms,
            down_interval_ms,
            detailed_log: None,
        },
    )
}

/// Reads the `--host` arguments.
pub fn parse_cli_hosts(args: &Args) -> (r: Result<Vec<HostConfig>, ConfigError>)
    ensures
        match r {
            Ok(hosts) => hosts_of_args(strings(args.host@)) == Ok::<Seq<HostView>, ErrorView>(
                hosts_view(hosts@),
            ),
            Err(e) => hosts_of_args(strings(args.host@)) == Err::<Seq<HostView>, ErrorView>(e@),
        },
        match r {
            Ok(hosts) => hosts@.len() == args.host@.len() && forall|i: int|
                0 <= i < hosts@.len() ==> host_of_arg(args.host@[i]@) == Some(
                    (#[trigger] hosts@[i])@,
                ),
            Err(e) => exists|k: int|
                #![trigger args.host@[k]]
                0 <= k < args.host@.len() && host_of_arg(args.host@[k]@) is None && (e matches
                    ConfigError::InvalidHostArg(s) && s@ == args.host@[k]@) && forall|i: int|
                    #![trigger args.host@[i]]
                    0 <= i < k ==> host_of_arg(args.host@[i]@) is Some,
        },
{
    let mut hosts: Vec<HostConfig> = Vec::new();
    let mut i: usize = 0;
    let ghost all = strings(args.host@);
    assert(hosts_view(hosts@) =~= Seq::empty());
    assert(all.take(0) =~= Seq::empty());
    while i < args.host.len()
        invariant
            all == strings(args.host@),
            i <= args.host@.len(),
            hosts_of_args(all.take(i as int)) == Ok::<Seq<HostView>, ErrorView>(
                hosts_view(hosts@),
            ),
            hosts@.len() == i,
            forall|j: int|
                0 <= j < i ==> host_of_arg(args.host@[j]@) == Some((#[trigger] hosts@[j])@),
        decreases args.host@.len() - i,
    {
        assert(all.take(i + 1).drop_last() =~= all.take(i as int));
        assert(all.take(i + 1).last() == args.host@[i as int]@);
        let ghost before = hosts_view(hosts@);
        match parse_host_arg(args.host[i].as_str()) {
            Some(h) => {
                hosts.push(h);
                assert(hosts_view(hosts@) =~= before.push(h@));
            },
            None => {
                proof {
                    lemma_first_bad_arg_decides(all, i + 1);
                    assert forall|j: int| 0 <= j < i implies host_of_arg(
                        (#[trigger] args.host@[j])@,
                    ) is Some by {
                        assert(host_of_arg(args.host@[j]@) == Some(hosts@[j]@));
                    }
                }
                return Err(ConfigError::InvalidHostArg(args.host[i].clone()));
            },
        }
        i += 1;
    }
    assert(all.take(i as int) =~= all);
    Ok(hosts)
}

/// The first argument that specifies no host decides, whatever comes after it.
proof fn lemma_first_bad_arg_decides(args: Seq<Seq<char>>, n: int)
    requires
        0 <= n <= args.len(),
        hosts_of_args(args.take(n)) is Err,
    ensures
        hosts_of_args(args) == hosts_of_args(args.take(n)),
    decreases args.len() - n,
{
    if n < args.len() {
        assert(args.take(n + 1).drop_last() =~= args.take(n));
        lemma_first_bad_arg_decides(args, n + 1);
    } else {
        assert(args.take(n) =~= args);
    }
}

/// The summary interval, in seconds, where nothing else is configured.
pub fn default_summary_interval() -> (r: u64)
    ensures
        r == 60,
{
    60
}

/// Where the configuration comes from.
#[derive(Debug, Clone, Copy, PartialEq, Eq, Structural)]
pub enum ConfigSource {
    /// The `--host` arguments; no file is read
    CommandLine,
    /// The file that `--config` names
    GivenFile,
    /// The first default file that exists
    DefaultFile,
}

/// Where the configuration comes from: `--host` arguments come before any file, and a file given
/// with `--config` before the default ones.
pub open spec fn source_of(args: Args) -> ConfigSource {
    if args.host@.len() > 0 {
        ConfigSource::CommandLine
    } else if args.config is Some {
        ConfigSource::GivenFile
    } else {
        ConfigSource::DefaultFile
    }
}

/// Which file, if any, has to be read before `load_config`.
pub fn config_source(args: &Args) -> (r: ConfigSource)
    ensures
        r == source_of(*args),
        r == ConfigSource::CommandLine <==> args.host@.len() > 0,
        r == ConfigSource::GivenFile <==> args.host@.len() == 0 && args.config is Some,
        r == ConfigSource::DefaultFile <==> args.host@.len() == 0 && args.config is None,
{
    if args.host.len() > 0 {
        ConfigSource::CommandLine
    } else if args.config.is_some() {
        ConfigSource::GivenFile
    } else {
        ConfigSource::DefaultFile
    }
}

/// The places where a configuration file is looked for by default.
#[derive(Debug, Clone, Copy, PartialEq, Eq, Structural)]
pub enum ConfigLocation {
    /// `./nootnoot.toml`
    Current,
    /// `~/.config/nootnoot.toml`
    Home,
    /// `/etc/nootnoot.toml`
    System,
}

impl ConfigLocation {
    /// The path, below the home directory for `Home`.
    pub open spec fn path_view(self) -> Seq<char> {
        match self {
            ConfigLocation::Current => "nootnoot.toml"@,
            ConfigLocation::Home => ".config/nootnoot.toml"@,
            ConfigLocation::System => "/etc/nootnoot.toml"@,
        }
    }

    /// The path of the file: below the home directory for `Home`, as it is for the other two.
    pub fn path(self) -> (r: &'static str)
        ensures
            r@ == self.path_view(),
            r@ == (match self {
                ConfigLocation::Current => "nootnoot.toml"@,
                ConfigLocation::Home => ".config/nootnoot.toml"@,
                ConfigLocation::System => "/etc/nootnoot.toml"@,
            }),
    {
        match self {
            ConfigLocation::Current => "nootnoot.toml",
            ConfigLocation::Home => ".config/nootnoot.toml",
            ConfigLocation::System => "/etc/nootnoot.toml",
        }
    }
}

/// Picks the default configuration file: `./nootnoot.toml`, then `~/.config/nootnoot.toml`, then
/// `/etc/nootnoot.toml`, whichever exists first. `home_exists` is `None` without a home directory.
pub fn find_default_config_file(
    current_exists: bool,
    home_exists: Option<bool>,
    system_exists: bool,
) -> (r: Option<ConfigLocation>)
    ensures
        r == (if current_exists {
            Some(ConfigLocation::Current)
        } else if home_exists == Some(true) {
            Some(ConfigLocation::Home)
        } else if system_exists {
            Some(ConfigLocation::System)
        } else {
            None
        }),
{
    if current_exists {
        return Some(ConfigLocation::Current);
    }
    if let Some(exists) = home_exists {
        if exists {
            return Some(ConfigLocation::Home);
        }
    }
    if system_exists {
        return Some(ConfigLocation::System);
    }
    None
}

/// The view of a string that may be missing.
pub open spec fn text_view(s: Option<String>) -> Option<Seq<char>> {
    match s {
        Some(s) => Some(s@),
        None => None,
    }
}

/// `first` where there is one, else `second`.
pub open spec fn either<T>(first: Option<T>, second: Option<T>) -> Option<T> {
    match first {
        Some(_) => first,
        None => second,
    }
}

/// `first` where there is one, else `fallback`.
pub open spec fn or_else<T>(first: Option<T>, fallback: T) -> T {
    match first {
        Some(value) => value,
        None => fallback,
    }
}

/// The address that the dashboard is bound to where none is given.
pub open spec fn default_bind() -> Seq<char> {
    "127.0.0.1:8080"@
}

/// The bind address of the dashboard, if it is enabled: `--web` enables it, and so does a file with
/// a `web` section. The address of the command line comes before that of the file.
pub open spec fn dashboard_bind(args: Args, file_bind: Option<Seq<char>>) -> Option<Seq<char>> {
    if args.web || file_bind is Some {
        Some(or_else(either(text_view(args.web_bind), file_bind), default_bind()))
    } else {
        None
    }
}

/// A complete configuration as mathematical values.
pub struct ConfigView {
    pub hosts: Seq<HostView>,
    pub summary_interval_secs: u64,
    pub log_file: Option<PathBuf>,
    pub web_bind: Option<Seq<char>>,
}

/// The bind address in a configuration file, if it has one.
pub open spec fn file_bind(cfg: FileConfig) -> Option<Seq<char>> {
    match cfg.web {
        Some(w) => Some(w.bind@),
        None => None,
    }
}

/// The configuration that a command line and a configuration file make together.
pub open spec fn resolved(args: Args, file: FileLoad) -> Result<ConfigView, ErrorView> {
    if args.host@.len() > 0 {
        match hosts_of_args(strings(args.host@)) {
            Ok(hosts) => Ok(
                ConfigView {
                    hosts,
                    summary_interval_secs: or_else(args.summary_interval, 60),
                    log_file: args.log_file,
                    web_bind: dashboard_bind(args, None),
                },
            ),
            Err(e) => Err(e),
        }
    } else {
        match file {
            FileLoad::Absent => Err(ErrorView::NoHosts),
            FileLoad::Failed(e) => Err(e@),
            FileLoad::Loaded(cfg) => if cfg.hosts@.len() == 0 {
                Err(ErrorView::NoHosts)
            } else {
                Ok(
                    ConfigView {
                        hosts: hosts_view(cfg.hosts@),
                        summary_interval_secs: or_else(
                            args.summary_interval,
                            cfg.summary_interval_secs,
                        ),
                        log_file: either(args.log_file, cfg.log_file),
                        web_bind: dashboard_bind(args, file_bind(cfg)),
                    },
                )
            },
        }
    }
}

/// The view of what `load_config` returns on success.
pub open spec fn config_view(
    c: (Vec<HostConfig>, u64, Option<PathBuf>, Option<WebConfig>),
) -> ConfigView {
    ConfigView {
        hosts: hosts_view(c.0@),
        summary_interval_secs: c.1,
        log_file: c.2,
        web_bind: match c.3 {
            Some(w) => Some(w.bind@),
            None => None,
        },
    }
}

/// Decides whether the dashboard runs, and where it is bound.
fn dashboard(web: bool, web_bind: Option<String>, file_web: Option<WebConfig>) -> (r: Option<
    WebConfig,
>)
    ensures
        ({
            let in_file = match file_web {
                Some(w) => Some(w.bind@),
                None => None,
            };
            match r {
                Some(w) => (web || file_web is Some) && w.bind@ == or_else(
                    either(text_view(web_bind), in_file),
                    default_bind(),
                ),
                None => !web && file_web is None,
            }
        }),
{
    if !web && file_web.is_none() {
        return None;
    }
    let bind: String = match web_bind {
        Some(b) => b,
        None => match file_web {
            Some(w) => w.bind,
            None => "127.0.0.1:8080".to_owned(),
        },
    };
    Some(WebConfig { bind })
}

/// Combines the command line with the configuration file that `config_source` asked for: the hosts,
/// the summary interval in seconds, the log file and the dashboard.
pub fn load_config(args: Args, file: FileLoad) -> (r: Result<
    (Vec<HostConfig>, u64, Option<PathBuf>, Option<WebConfig>),
    ConfigError,
>)
    ensures
        match r {
            Ok(c) => resolved(args, file) == Ok::<ConfigView, ErrorView>(config_view(c)),
            Err(e) => resolved(args, file) == Err::<ConfigView, ErrorView>(e@),
        },
        // the hosts of the command line, all of them and in their order
        args.host@.len() > 0 ==> match r {
            Ok(c) => {
                &&& c.0@.len() == args.host@.len()
                &&& forall|i: int|
                    0 <= i < c.0@.len() ==> host_of_arg(args.host@[i]@) == Some(
                        (#[trigger] c.0@[i])@,
                    )
                &&& c.1 == (match args.summary_interval {
                    Some(secs) => secs,
                    None => 60,
                })
                &&& c.2 == args.log_file
                &&& c.3 is Some <==> args.web
            },
            Err(e) => exists|k: int|
                #![trigger args.host@[k]]
                0 <= k < args.host@.len() && host_of_arg(args.host@[k]@) is None && (e matches
                    ConfigError::InvalidHostArg(s) && s@ == args.host@[k]@) && forall|i: int|
                    #![trigger args.host@[i]]
                    0 <= i < k ==> host_of_arg(args.host@[i]@) is Some,
        },
        // those of the file, as they stand in it
        args.host@.len() == 0 ==> match file {
            FileLoad::Absent => r matches Err(e) && e is NoHosts,
            FileLoad::Failed(f) => r matches Err(e) && e == f,
            FileLoad::Loaded(cfg) => if cfg.hosts@.len() == 0 {
                r matches Err(e) && e is NoHosts
            } else {
                r matches Ok(c) && {
                    &&& c.0 == cfg.hosts
                    &&& c.1 == (match args.summary_interval {
                        Some(secs) => secs,
                        None => cfg.summary_interval_secs,
                    })
                    &&& c.2 == (match args.log_file {
                        Some(_) => args.log_file,
                        None => cfg.log_file,
                    })
                    &&& c.3 is Some <==> args.web || cfg.web is Some
                }
            },
        },
        // the dashboard's address: the command line, else the file, else the default
        r matches Ok(c) ==> (c.3 matches Some(w) ==> match args.web_bind {
            Some(b) => w.bind@ == b@,
            None => match file {
                FileLoad::Loaded(cfg) => if args.host@.len() == 0 && cfg.web is Some {
                    w.bind@ == (cfg.web->0).bind@
                } else {
                    w.bind@ == "127.0.0.1:8080"@
                },
                _ => w.bind@ == "127.0.0.1:8080"@,
            },
        }),
{
    // First priority: explicit --host
    if args.host.len() > 0 {
        return match parse_cli_hosts(&args) {
            Ok(hosts) => {
                let summary: u64 = args.summary_interval.unwrap_or(default_summary_interval());
                Ok((hosts, summary, args.log_file, dashboard(args.web, args.web_bind, None)))
            },
            Err(e) => Err(e),
        };
    }
    // Otherwise: config file

    match file {
        FileLoad::Absent => Err(ConfigError::NoHosts),
        FileLoad::Failed(e) => Err(e),
        FileLoad::Loaded(cfg) => {
            if cfg.hosts.len() == 0 {
                return Err(ConfigError::NoHosts);
            }
            let summary: u64 = args.summary_interval.unwrap_or(cfg.summary_interval_secs);
            let log_file: Option<PathBuf> = match args.log_file {
                Some(p) => Some(p),
                None => cfg.log_file,
            };
            Ok((cfg.hosts, summary, log_file, dashboard(args.web, args.web_bind, cfg.web)))
        },
    }
}

impl ConfigError {
    /// The text of the error.
    pub open spec fn message_view(self) -> Seq<char> {
        match self {
            ConfigError::Io(s) => "I/O error: "@ + s@,
            ConfigError::Toml(s) => "Failed to parse TOML config: "@ + s@,
            ConfigError::InvalidHostArg(s) => "Invalid --host argument: "@ + s@,
            ConfigError::NoHosts => "No hosts configured"@,
        }
    }

    /// The text of the error, for the user.
    pub fn message(&self) -> (r: String)
        ensures
            r@ == self.message_view(),
            match *self {
                ConfigError::Io(s) => r@ == "I/O error: "@ + s@,
                ConfigError::Toml(s) => r@ == "Failed to parse TOML config: "@ + s@,
                ConfigError::InvalidHostArg(s) => r@ == "Invalid --host argument: "@ + s@,
                ConfigError::NoHosts => r@ == "No hosts configured"@,
            },
    {
        match self {
            ConfigError::Io(s) => "I/O error: ".to_owned().concat(s.as_str()),
            ConfigError::Toml(s) => "Failed to parse TOML config: ".to_owned().concat(s.as_str()),
            ConfigError::InvalidHostArg(s) => "Invalid --host argument: ".to_owned().concat(
                s.as_str(),
            ),
            ConfigError::NoHosts => "No hosts configured".to_owned(),
        }
    }
}

/// All `--host` arguments have to specify a host, and then they do so one by one, in their order;
/// otherwise the first one that does not is what the error names.
pub proof fn lemma_cli_hosts(args: Seq<Seq<char>>)
    ensures
        match hosts_of_args(args) {
            Ok(hosts) => hosts.len() == args.len() && forall|i: int|
                #![trigger args[i]]
                0 <= i < args.len() ==> host_of_arg(args[i]) == Some(hosts[i]),
            Err(e) => exists|k: int|
                #![trigger args[k]]
                0 <= k < args.len() && host_of_arg(args[k]) is None && e
                    == ErrorView::InvalidHostArg(args[k]) && forall|i: int|
                    #![trigger args[i]]
                    0 <= i < k ==> host_of_arg(args[i]) is Some,
        },
    decreases args.len(),
{
    if args.len() > 0 {
        let front = args.drop_last();
        lemma_cli_hosts(front);
        match hosts_of_args(front) {
            Ok(hosts) => {
                assert forall|i: int| 0 <= i < front.len() implies host_of_arg(#[trigger] args[i])
                    == Some(hosts[i]) by {
                    assert(front[i] == args[i]);
                }
                assert(args[args.len() - 1] == args.last());
            },
            Err(e) => {
                let k = choose|k: int|
                    #![trigger front[k]]
                    0 <= k < front.len() && host_of_arg(front[k]) is None && e
                        == ErrorView::InvalidHostArg(front[k]) && forall|i: int|
                        #![trigger front[i]]
                        0 <= i < k ==> host_of_arg(front[i]) is Some;
                assert(args[k] == front[k]);
                assert forall|i: int| 0 <= i < k implies host_of_arg(#[trigger] args[i]) is Some by {
                    assert(front[i] == args[i]);
                }
            },
        }
    }
}

/// The text of a `--host` argument with these four fields.
pub open spec fn host_arg(
    name: Seq<char>,
    address: Seq<char>,
    up: Seq<char>,
    down: Seq<char>,
) -> Seq<char> {
    name.push(',') + (address.push(',') + (up.push(',') + down))
}

/// A `--host` argument gives back the fields that it was made of: any name and address without a
/// comma and without white space at their ends, and any two intervals.
pub proof fn lemma_host_arg_reads_back(
    name: Seq<char>,
    address: Seq<char>,
    up: Seq<char>,
    down: Seq<char>,
)
    requires
        !name.contains(',') && is_trimmed(name),
        !address.contains(',') && is_trimmed(address),
        !up.contains(',') && is_trimmed(up) && interval_ms(up) is Some,
        !down.contains(',') && is_trimmed(down) && interval_ms(down) is Some,
    ensures
        host_of_arg(host_arg(name, address, up, down)) == Some(
            (HostView {
                name,
                address,
                up_interval_ms: interval_ms(up)->0,
                down_interval_ms: interval_ms(down)->0,
                detailed_log: None,
            }),
        ),
{
    let two = up.push(',') + down;
    let three = address.push(',') + two;
    lemma_split_joined(name, three, ',');
    lemma_split_joined(address, two, ',');
    lemma_split_joined(up, down, ',');
    lemma_split_single(name, ',');
    lemma_split_single(address, ',');
    lemma_split_single(up, ',');
    lemma_split_single(down, ',');
    let parts = split(host_arg(name, address, up, down), ',');
    assert(parts =~= seq![name, address, up, down]);
}

/// With a `--host` argument the configuration file does not matter.
pub proof fn lemma_host_args_come_first(args: Args, file: FileLoad, other: FileLoad)
    requires
        args.host@.len() > 0,
    ensures
        resolved(args, file) == resolved(args, other),
{
}

/// The command line overrides the file: whatever file there is, a summary interval, a log file and a
/// bind address given on the command line are the ones in use, and `--web` turns the dashboard on.
pub proof fn lemma_command_line_overrides(args: Args, file: FileLoad)
    ensures
        resolved(args, file) matches Ok(c) ==> {
            &&& args.summary_interval matches Some(secs) ==> c.summary_interval_secs == secs
            &&& args.log_file is Some ==> c.log_file == args.log_file
            &&& args.web ==> c.web_bind is Some
            &&& args.web_bind matches Some(b) ==> (c.web_bind is Some ==> c.web_bind == Some(b@))
        },
{
}

/// What the command line leaves open is taken from the file.
pub proof fn lemma_file_fills_in(args: Args, cfg: FileConfig)
    requires
        args.host@.len() == 0,
        cfg.hosts@.len() > 0,
    ensures
        resolved(args, FileLoad::Loaded(cfg)) matches Ok(c) && {
            &&& c.hosts == hosts_view(cfg.hosts@)
            &&& args.summary_interval is None ==> c.summary_interval_secs
                == cfg.summary_interval_secs
            &&& args.log_file is None ==> c.log_file == cfg.log_file
            &&& args.web_bind is None && cfg.web is Some ==> c.web_bind == file_bind(cfg)
        },
{
}

/// The dashboard is optional: it runs exactly where `--web` asks for it, or, without `--host`
/// arguments, the file has a `web` section.
pub proof fn lemma_dashboard_is_optional(args: Args, file: FileLoad)
    ensures
        resolved(args, file) matches Ok(c) ==> (c.web_bind is Some <==> args.web || (args.host@.len()
            == 0 && (file matches FileLoad::Loaded(cfg) && cfg.web is Some))),
{
}

/// A configuration always has a host; an error says that there is none exactly where no `--host` is
/// given and the file is missing, names no host, or was itself turned down for that.
pub proof fn lemma_there_is_a_host(args: Args, file: FileLoad)
    ensures
        resolved(args, file) matches Ok(c) ==> c.hosts.len() > 0,
        resolved(args, file) == Err::<ConfigView, ErrorView>(ErrorView::NoHosts) <==> args.host@.len()
            == 0 && (match file {
            FileLoad::Absent => true,
            FileLoad::Failed(e) => e@ == ErrorView::NoHosts,
            FileLoad::Loaded(cfg) => cfg.hosts@.len() == 0,
        }),
{
    lemma_cli_hosts(strings(args.host@));
}

/// Where `--host` arguments are given, the configuration has one host for each of them, the one that
/// it specifies, in the same order; it is turned down exactly where one of them specifies none, and
/// the error names the first such argument.
pub proof fn lemma_every_host_argument_counts(args: Args, file: FileLoad)
    requires
        args.host@.len() > 0,
    ensures
        match resolved(args, file) {
            Ok(c) => {
                &&& c.hosts.len() == args.host@.len()
                &&& forall|i: int|
                    0 <= i < c.hosts.len() ==> host_of_arg(args.host@[i]@) == Some(
                        #[trigger] c.hosts[i],
                    )
            },
            Err(e) => exists|k: int|
                #![trigger args.host@[k]]
                0 <= k < args.host@.len() && host_of_arg(args.host@[k]@) is None && e
                    == ErrorView::InvalidHostArg(args.host@[k]@) && forall|i: int|
                    #![trigger args.host@[i]]
                    0 <= i < k ==> host_of_arg(args.host@[i]@) is Some,
        },
{
    let all = strings(args.host@);
    lemma_cli_hosts(all);
    assert(forall|i: int| 0 <= i < all.len() ==> #[trigger] all[i] == args.host@[i]@);
    match resolved(args, file) {
        Ok(c) => {
            assert forall|i: int| 0 <= i < c.hosts.len() implies host_of_arg(args.host@[i]@) == Some(
                #[trigger] c.hosts[i],
            ) by {
                assert(host_of_arg(all[i]) == Some(c.hosts[i]));
            }
        },
        Err(e) => {
            let k = choose|k: int|
                #![trigger all[k]]
                0 <= k < all.len() && host_of_arg(all[k]) is None && e
                    == ErrorView::InvalidHostArg(all[k]) && forall|i: int|
                    #![trigger all[i]]
                    0 <= i < k ==> host_of_arg(all[i]) is Some;
            assert(all[k] == args.host@[k]@);
            assert forall|i: int| 0 <= i < k implies host_of_arg(
                (#[trigger] args.host@[i])@,
            ) is Some by {
                assert(host_of_arg(all[i]) is Some);
            }
        },
    }
}

/// With `--host` arguments the rest is the command line's alone: the summary interval or a minute,
/// its log file, and the dashboard if `--web` is given, at its address or the default one.
pub proof fn lemma_command_line_alone(args: Args, file: FileLoad)
    requires
        args.host@.len() > 0,
    ensures
        resolved(args, file) matches Ok(c) ==> {
            &&& c.summary_interval_secs == (match args.summary_interval {
                Some(secs) => secs,
                None => 60,
            })
            &&& c.log_file == args.log_file
            &&& c.web_bind is Some <==> args.web
            &&& args.web ==> c.web_bind == Some(
                match args.web_bind {
                    Some(b) => b@,
                    None => "127.0.0.1:8080"@,
                },
            )
        },
{
}

/// Without them the file decides whether there is a configuration: its hosts are those of the file,
/// as many, in the same order and field by field, and what the command line gives replaces what the
/// file says.
pub proof fn lemma_file_and_command_line(args: Args, file: FileLoad)
    requires
        args.host@.len() == 0,
    ensures
        match file {
            FileLoad::Absent => resolved(args, file) == Err::<ConfigView, ErrorView>(
                ErrorView::NoHosts,
            ),
            FileLoad::Failed(e) => resolved(args, file) == Err::<ConfigView, ErrorView>(e@),
            FileLoad::Loaded(cfg) => if cfg.hosts@.len() == 0 {
                resolved(args, file) == Err::<ConfigView, ErrorView>(ErrorView::NoHosts)
            } else {
                resolved(args, file) matches Ok(c) && {
                    &&& c.hosts.len() == cfg.hosts@.len()
                    &&& forall|i: int|
                        0 <= i < cfg.hosts@.len() ==> {
                            let h = #[trigger] cfg.hosts@[i];
                            &&& c.hosts[i].name == h.name@
                            &&& c.hosts[i].address == h.address@
                            &&& c.hosts[i].up_interval_ms == h.up_interval_ms
                            &&& c.hosts[i].down_interval_ms == h.down_interval_ms
                            &&& c.hosts[i].detailed_log == h.detailed_log
                        }
                    &&& c.summary_interval_secs == (match args.summary_interval {
                        Some(secs) => secs,
                        None => cfg.summary_interval_secs,
                    })
                    &&& c.log_file == (match args.log_file {
                        Some(p) => Some(p),
                        None => cfg.log_file,
                    })
                    &&& c.web_bind == (if args.web || cfg.web is Some {
                        Some(
                            match (args.web_bind, cfg.web) {
                                (Some(b), _) => b@,
                                (None, Some(w)) => w.bind@,
                                (None, None) => "127.0.0.1:8080"@,
                            },
                        )
                    } else {
                        None
                    })
                }
            },
        },
{
}

/// Which texts are host arguments, and of which host: four fields between three commas, the last two
/// of them intervals. White space round a field does not count, and every field stands for itself.
pub proof fn lemma_host_arg_fields(
    name: Seq<char>,
    address: Seq<char>,
    up: Seq<char>,
    down: Seq<char>,
)
    requires
        !name.contains(','),
        !address.contains(','),
        !up.contains(','),
        !down.contains(','),
    ensures
        match host_of_arg(name.push(',') + (address.push(',') + (up.push(',') + down))) {
            Some(h) => {
                &&& h.name == trimmed(name)
                &&& h.address == trimmed(address)
                &&& interval_ms(trimmed(up)) == Some(h.up_interval_ms)
                &&& interval_ms(trimmed(down)) == Some(h.down_interval_ms)
                &&& h.detailed_log is None
            },
            None => interval_ms(trimmed(up)) is None || interval_ms(trimmed(down)) is None,
        },
{
    let two = up.push(',') + down;
    let three = address.push(',') + two;
    lemma_split_joined(name, three, ',');
    lemma_split_joined(address, two, ',');
    lemma_split_joined(up, down, ',');
    lemma_split_single(name, ',');
    lemma_split_single(address, ',');
    lemma_split_single(up, ',');
    lemma_split_single(down, ',');
    assert(split(name.push(',') + three, ',') =~= seq![name, address, up, down]);
}

/// A text with more or fewer than three commas specifies no host.
pub proof fn lemma_host_arg_has_three_commas(s: Seq<char>)
    ensures
        host_of_arg(s) is Some ==> s.filter(|c: char| c == ',').len() == 3,
{
    lemma_split_counts(s, ',');
}

} // verus!
