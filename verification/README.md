# nootnoot

A multi-host ping monitor: it pings a set of hosts, logs when one turns reachable or unreachable,
logs periodic summaries of the latencies, and can show both on a web dashboard.

- `src/` is the library, written in Verus: what the monitor pings, counts, logs, keeps and shows, and
  how it is configured, each with a contract that is proved. It does no I/O and holds no
  floating-point number; latencies pass through it as an opaque type.
- `tests/` runs the library on concrete values.
- `app/` is the program round it: files, processes, sockets, the options of the command line (the
  value of `--web` comes before that of `--web-bind`), and floating point, that is reading a latency
  and its mean and standard deviation.

| Module | What it decides |
|---|---|
| `config` | `--host` arguments, the configuration file, and how they are combined |
| `host_task` | when a host is pinged, what is logged and reported, how long to sleep |
| `stats` | what is counted for which host, and when summaries are due |
| `web_state` | which changes and latencies the dashboard keeps |
| `ping` | the arguments of `ping`, and the latency and the answer in its output |
| `report` | the lines of the logs |
| `clock` | points in time |
| `table`, `text`, `number` | values by name, text, decimal numbers and intervals |

The only outside code that the proofs rest on is chrono, for RFC 3339 text and for going back in
time; both calls are in `clock`.

## Usage

    nootnoot --host "router,192.168.0.1,10s,1s" --host "server,10.0.0.10,1m,3s" --web 0.0.0.0:8080

Intervals are in milliseconds, or have a unit: `5s`, `1m`. Without `--host` a configuration file is
read: the one given with `--config`, or the first of `./nootnoot.toml`, `~/.config/nootnoot.toml` and
`/etc/nootnoot.toml`.
