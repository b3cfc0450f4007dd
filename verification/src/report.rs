//! The lines of the logs.
use vstd::prelude::*;
use vstd::string::*;

use crate::clock::{rfc3339_text, Timestamp};
use crate::number::{decimal, decimal_text};

verus! {

/// A truth value as text.
pub open spec fn bool_view(b: bool) -> Seq<char> {
    if b {
        "true"@
    } else {
        "false"@
    }
}

/// A truth value as text.
fn bool_text(b: bool) -> (r: &'static str)
    ensures
        r@ == bool_view(b),
{
    if b {
        "true"
    } else {
        "false"
    }
}

/// The line that says that a host turned reachable or unreachable.
pub open spec fn change_view(
    stamp: Seq<char>,
    name: Seq<char>,
    address: Seq<char>,
    reachable: bool,
) -> Seq<char> {
    stamp + " host="@ + name + " address="@ + address + " reachable="@ + bool_view(reachable)
}

/// The line that says, with the time `stamp`, that a host turned reachable or unreachable.
pub fn change_line_at(stamp: &str, name: &str, address: &str, reachable: bool) -> (r: String)
    ensures
        r@ == change_view(stamp@, name@, address@, reachable),
        r@ == stamp@ + " host="@ + name@ + " address="@ + address@ + " reachable="@ + (if reachable {
            "true"@
        } else {
            "false"@
        }),
{
    let mut line: String = stamp.to_owned();
    line.append(" host=");
    line.append(name);
    line.append(" address=");
    line.append(address);
    line.append(" reachable=");
    line.append(bool_text(reachable));
    line
}

/// The line that says that a host turned reachable or unreachable at the time `ts`.
pub fn change_line(ts: Timestamp, name: &str, address: &str, reachable: bool) -> (r: String)
    requires
        ts.valid(),
    ensures
        r@ == change_view(ts.text(), name@, address@, reachable),
        r@ == rfc3339_text(ts.secs as int, ts.nanos as int) + " host="@ + name@ + " address="@
            + address@ + " reachable="@ + (if reachable {
            "true"@
        } else {
            "false"@
        }),
{
    change_line_at(ts.to_rfc3339().as_str(), name, address, reachable)
}

/// `text` where there is one, else `NaN`.
pub open spec fn or_nan(text: Option<Seq<char>>) -> Seq<char> {
    match text {
        Some(text) => text,
        None => "NaN"@,
    }
}

/// The line of the detailed log for one ping.
pub open spec fn detail_view(
    stamp: Seq<char>,
    reachable: bool,
    latency: Option<Seq<char>>,
) -> Seq<char> {
    stamp + ",reachable="@ + bool_view(reachable) + ",latency_ms="@ + or_nan(latency)
}

/// The view of a slice that may be missing.
pub open spec fn slice_view(s: Option<&str>) -> Option<Seq<char>> {
    match s {
        Some(s) => Some(s@),
        None => None,
    }
}

/// The line of the detailed log for one ping at the time `stamp`.
pub fn detail_line_at(stamp: &str, reachable: bool, latency: Option<&str>) -> (r: String)
    ensures
        r@ == detail_view(stamp@, reachable, slice_view(latency)),
        r@ == stamp@ + ",reachable="@ + (if reachable {
            "true"@
        } else {
            "false"@
        }) + ",latency_ms="@ + (match latency {
            Some(text) => text@,
            None => "NaN"@,
        }),
{
    let mut line: String = stamp.to_owned();
    line.append(",reachable=");
    line.append(bool_text(reachable));
    line.append(",latency_ms=");
    match latency {
        Some(text) => line.append(text),
        None => line.append("NaN"),
    }
    line
}

/// The line of the detailed log for one ping at the time `ts`; `latency` is in milliseconds, as it is
/// to be shown.
pub fn detail_line(ts: Timestamp, reachable: bool, latency: Option<&str>) -> (r: String)
    requires
        ts.valid(),
    ensures
        r@ == detail_view(ts.text(), reachable, slice_view(latency)),
        r@ == rfc3339_text(ts.secs as int, ts.nanos as int) + ",reachable="@ + (if reachable {
            "true"@
        } else {
            "false"@
        }) + ",latency_ms="@ + (match latency {
            Some(text) => text@,
            None => "NaN"@,
        }),
{
    detail_line_at(ts.to_rfc3339().as_str(), reachable, latency)
}

/// The line that sums up the latencies of a host: the mean is known from the first one on, the
/// standard deviation from the second.
pub open spec fn summary_view(
    stamp: Seq<char>,
    host: Seq<char>,
    count: nat,
    mean: Seq<char>,
    stddev: Seq<char>,
) -> Seq<char> {
    stamp + " summary host="@ + host + " count="@ + decimal(count) + " mean_ms="@ + (if count
        > 0 {
        mean
    } else {
        "NaN"@
    }) + " stddev_ms="@ + (if count > 1 {
        stddev
    } else {
        "NaN"@
    })
}

/// The line that sums up, with the time `stamp`, `count` latencies of a host. `mean` and `stddev` are
/// in milliseconds, as they are to be shown; each is left out where there are too few latencies.
pub fn summary_line_at(stamp: &str, host: &str, count: u64, mean: &str, stddev: &str) -> (r: String)
    ensures
        r@ == summary_view(stamp@, host@, count as nat, mean@, stddev@),
        count == 0 ==> r@ == stamp@ + " summary host="@ + host@ + " count="@ + decimal(0)
            + " mean_ms="@ + "NaN"@ + " stddev_ms="@ + "NaN"@,
        count == 1 ==> r@ == stamp@ + " summary host="@ + host@ + " count="@ + decimal(1)
            + " mean_ms="@ + mean@ + " stddev_ms="@ + "NaN"@,
        count > 1 ==> r@ == stamp@ + " summary host="@ + host@ + " count="@ + decimal(count as nat)
            + " mean_ms="@ + mean@ + " stddev_ms="@ + stddev@,
{
    let mut line: String = stamp.to_owned();
    line.append(" summary host=");
    line.append(host);
    line.append(" count=");
    line.append(decimal_text(count).as_str());
    line.append(" mean_ms=");
    if count > 0 {
        line.append(mean);
    } else {
        line.append("NaN");
    }
    line.append(" stddev_ms=");
    if count > 1 {
        line.append(stddev);
    } else {
        line.append("NaN");
    }
    line
}

/// The line of a change begins with its time and ends with the status; between them stand the name
/// and the address as they are, each behind its label.
pub proof fn lemma_change_line(
    stamp: Seq<char>,
    name: Seq<char>,
    address: Seq<char>,
    reachable: bool,
)
    ensures
        change_view(stamp, name, address, reachable) == stamp + (" host="@ + (name + (" address="@ + (
        address + (if reachable {
            " reachable=true"@
        } else {
            " reachable=false"@
        }))))),
{
    reveal_strlit(" reachable=");
    reveal_strlit("true");
    reveal_strlit("false");
    reveal_strlit(" reachable=true");
    reveal_strlit(" reachable=false");
    assert(" reachable="@ + "true"@ =~= " reachable=true"@);
    assert(" reachable="@ + "false"@ =~= " reachable=false"@);
    let status = if reachable {
        "true"@
    } else {
        "false"@
    };
    assert(change_view(stamp, name, address, reachable) =~= stamp + (" host="@ + (name + (
    " address="@ + (address + (" reachable="@ + status))))));
}

/// The line of a ping begins with its time and ends with the latency as it is, or with `NaN` where
/// there is none; between them stands whether the host was reachable.
pub proof fn lemma_detail_line(stamp: Seq<char>, reachable: bool, latency: Option<Seq<char>>)
    ensures
        detail_view(stamp, reachable, latency) == stamp + ((if reachable {
            ",reachable=true,latency_ms="@
        } else {
            ",reachable=false,latency_ms="@
        }) + (match latency {
            Some(text) => text,
            None => "NaN"@,
        })),
{
    reveal_strlit(",reachable=");
    reveal_strlit(",latency_ms=");
    reveal_strlit("true");
    reveal_strlit("false");
    reveal_strlit(",reachable=true,latency_ms=");
    reveal_strlit(",reachable=false,latency_ms=");
    assert(",reachable="@ + "true"@ + ",latency_ms="@ =~= ",reachable=true,latency_ms="@);
    assert(",reachable="@ + "false"@ + ",latency_ms="@ =~= ",reachable=false,latency_ms="@);
    let status = if reachable {
        "true"@
    } else {
        "false"@
    };
    let text = match latency {
        Some(text) => text,
        None => "NaN"@,
    };
    assert(detail_view(stamp, reachable, latency) =~= stamp + (",reachable="@ + status
        + ",latency_ms="@ + text));
}

/// The line of a summary begins with its time; behind their labels stand the host as it is, the count
/// in decimal, the mean as it is from the first latency on, and the standard deviation as it is from
/// the second on, with `NaN` before that.
pub proof fn lemma_summary_line(
    stamp: Seq<char>,
    host: Seq<char>,
    count: nat,
    mean: Seq<char>,
    stddev: Seq<char>,
)
    ensures
        ({
            let head = stamp + " summary host="@ + host + " count="@ + decimal(count);
            let line = summary_view(stamp, host, count, mean, stddev);
            &&& count == 0 ==> line == head + " mean_ms=NaN stddev_ms=NaN"@
            &&& count == 1 ==> line == head + (" mean_ms="@ + mean + " stddev_ms=NaN"@)
            &&& count >= 2 ==> line == head + (" mean_ms="@ + mean + " stddev_ms="@ + stddev)
        }),
{
    reveal_strlit(" mean_ms=");
    reveal_strlit(" stddev_ms=");
    reveal_strlit("NaN");
    reveal_strlit(" stddev_ms=NaN");
    reveal_strlit(" mean_ms=NaN stddev_ms=NaN");
    let head = stamp + " summary host="@ + host + " count="@ + decimal(count);
    let line = summary_view(stamp, host, count, mean, stddev);
    assert(" stddev_ms="@ + "NaN"@ =~= " stddev_ms=NaN"@);
    assert(" mean_ms="@ + "NaN"@ + " stddev_ms="@ + "NaN"@ =~= " mean_ms=NaN stddev_ms=NaN"@);
    if count == 0 {
        assert(line =~= head + (" mean_ms="@ + "NaN"@ + " stddev_ms="@ + "NaN"@));
    } else if count == 1 {
        assert(line =~= head + (" mean_ms="@ + mean + (" stddev_ms="@ + "NaN"@)));
    } else {
        assert(line =~= head + (" mean_ms="@ + mean + " stddev_ms="@ + stddev));
    }
}

} // verus!
