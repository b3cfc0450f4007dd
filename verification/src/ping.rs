//! The `ping` command: its arguments, and what its output says.
use vstd::prelude::*;
use vstd::string::*;

use crate::host_task::PingResult;
use crate::number::{all_digits, decimal, decimal_text, digits_value, lemma_decimal_reads_back};
use crate::text::{
    commas_to_points, find, first_match, lemma_first_match, lemma_first_match_from, lemma_pointed,
    occurs_at, pointed, trim, trimmed,
};

verus! {

/// The arguments of `ping` for one request to `address` that is waited for `timeout_secs` seconds,
/// but for one second at least.
pub open spec fn ping_arg_views(address: Seq<char>, timeout_secs: u64) -> Seq<Seq<char>> {
    seq![
        "-n"@,
        "-c"@,
        "1"@,
        "-W"@,
        decimal(
            if timeout_secs < 1 {
                1
            } else {
                timeout_secs as nat
            },
        ),
        address,
    ]
}

/// The arguments of `ping` for one request to `address`.
pub fn ping_args(address: &str, timeout_secs: u64) -> (r: Vec<String>)
    ensures
        r@.map_values(|s: String| s@) == ping_arg_views(address@, timeout_secs),
        r@.len() == 6,
        r@[0]@ == "-n"@,
        r@[1]@ == "-c"@,
        r@[2]@ == "1"@,
        r@[3]@ == "-W"@,
        timeout_secs >= 1 ==> r@[4]@ == decimal(timeout_secs as nat),
        timeout_secs == 0 ==> r@[4]@ == decimal(1),
        r@[5]@ == address@,
{
    let wait: u64 = if timeout_secs < 1 {
        1
    } else {
        timeout_secs
    };
    let mut r: Vec<String> = Vec::new();
    r.push("-n".to_owned());
    r.push("-c".to_owned());
    r.push("1".to_owned());
    r.push("-W".to_owned());
    r.push(decimal_text(wait));
    r.push(address.to_owned());
    assert(r@.map_values(|s: String| s@) =~= ping_arg_views(address@, timeout_secs));
    r
}

/// The latency that the output of `ping` gives: what stands between the first `time=` and the next
/// ` ms`, without white space round it and with a decimal point.
pub open spec fn reading(stdout: Seq<char>) -> Option<Seq<char>> {
    match first_match(stdout, "time="@) {
        Some(i) => {
            let rest = stdout.skip(i + 5);
            match first_match(rest, " ms"@) {
                Some(j) => Some(pointed(trimmed(rest.take(j)))),
                None => None,
            }
        },
        None => None,
    }
}

/// What one run of `ping` came to.
#[derive(Debug, PartialEq, Eq)]
pub enum PingOutput {
    /// `ping` failed: the host did not answer
    NoReply,
    /// `ping` succeeded, and this is the latency in the output, in milliseconds
    Reading(String),
    /// `ping` succeeded, but the output gives no latency
    NoReading,
}

/// What one run of `ping` came to, as mathematical values.
pub enum OutputView {
    NoReply,
    Reading(Seq<char>),
    NoReading,
}

impl View for PingOutput {
    type V = OutputView;

    open spec fn view(&self) -> OutputView {
        match self {
            PingOutput::NoReply => OutputView::NoReply,
            PingOutput::Reading(s) => OutputView::Reading(s@),
            PingOutput::NoReading => OutputView::NoReading,
        }
    }
}

/// What a run of `ping` comes to, given whether it succeeded and what it wrote.
pub open spec fn output_of(success: bool, stdout: Seq<char>) -> OutputView {
    if !success {
        OutputView::NoReply
    } else {
        match reading(stdout) {
            Some(text) => OutputView::Reading(text),
            None => OutputView::NoReading,
        }
    }
}

/// Reads the outcome of one run of `ping`: whether it succeeded, and its output.
pub fn ping_output(success: bool, stdout: &str) -> (r: PingOutput)
    ensures
        r@ == output_of(success, stdout@),
        r is NoReply <==> !success,
        r is NoReading <==> success && reading(stdout@) is None,
        r matches PingOutput::Reading(text) ==> reading(stdout@) == Some(text@),
{
    if !success {
        return PingOutput::NoReply;
    }
    proof {
        reveal_strlit("time=");
        lemma_first_match_from(stdout@, "time="@, 0);
    }
    match find(stdout, "time=") {
        Some(i) => {
            let len: usize = stdout.unicode_len();
            let rest: &str = stdout.substring_char(i + 5, len);
            assert(rest@ =~= stdout@.skip(i + 5));
            proof {
                lemma_first_match_from(rest@, " ms"@, 0);
            }
            match find(rest, " ms") {
                Some(j) => {
                    let number: &str = rest.substring_char(0, j);
                    assert(number@ =~= rest@.take(j as int));
                    PingOutput::Reading(commas_to_points(trim(number)))
                },
                None => PingOutput::NoReading,
            }
        },
        None => PingOutput::NoReading,
    }
}

/// How a ping went: an answer is one with a latency. A failed run, an output without a latency and a
/// latency that is no number all count as no answer.
pub open spec fn result_of<L>(output: OutputView, parsed: Option<L>) -> PingResult<L> {
    match (output, parsed) {
        (OutputView::Reading(_), Some(latency)) => PingResult::Reply(latency),
        _ => PingResult::NoReply,
    }
}

/// How a ping went, given its output and the number that the latency in it was read as, if it is one.
pub fn ping_result<L>(output: &PingOutput, parsed: Option<L>) -> (r: PingResult<L>)
    ensures
        r == result_of(output@, parsed),
        r == (match (*output, parsed) {
            (PingOutput::Reading(_), Some(latency)) => PingResult::Reply(latency),
            _ => PingResult::NoReply,
        }),
{
    match output {
        PingOutput::Reading(_) => match parsed {
            Some(latency) => PingResult::Reply(latency),
            None => PingResult::NoReply,
        },
        PingOutput::NoReply => PingResult::NoReply,
        PingOutput::NoReading => PingResult::NoReply,
    }
}

/// There is an answer exactly where `ping` succeeded, its output gives a latency, and that latency is
/// a number; then that number is the latency of the answer.
pub proof fn lemma_reply_needs_a_latency<L>(success: bool, stdout: Seq<char>, parsed: Option<L>)
    ensures
        result_of(output_of(success, stdout), parsed) is Reply <==> success && reading(stdout) is Some
            && parsed is Some,
        result_of(output_of(success, stdout), parsed) matches PingResult::Reply(latency) ==> parsed
            == Some(latency),
        !(result_of(output_of(success, stdout), parsed) is Reply) ==> result_of(
            output_of(success, stdout),
            parsed,
        ) is NoReply,
{
}

/// The latency is found wherever it stands: whatever comes before the first `time=`, and whatever
/// comes after the ` ms` behind it.
pub proof fn lemma_reading_found(
    before: Seq<char>,
    number: Seq<char>,
    after: Seq<char>,
)
    requires
        forall|i: int|
            0 <= i < before.len() ==> !#[trigger] occurs_at(
                before + "time="@ + (number + " ms"@ + after),
                "time="@,
                i,
            ),
        forall|i: int|
            0 <= i < number.len() ==> !#[trigger] occurs_at(number + " ms"@ + after, " ms"@, i),
    ensures
        reading(before + "time="@ + (number + " ms"@ + after)) == Some(pointed(trimmed(number))),
{
    reveal_strlit("time=");
    reveal_strlit(" ms");
    let rest = number + " ms"@ + after;
    let whole = before + "time="@ + rest;
    lemma_first_match_from(whole, "time="@, 0);
    lemma_first_match_from(rest, " ms"@, 0);
    let b = before.len() as int;
    let n = number.len() as int;
    assert(whole.subrange(b, b + 5) =~= "time="@);
    assert(occurs_at(whole, "time="@, b));
    assert(rest.subrange(n, n + 3) =~= " ms"@);
    assert(occurs_at(rest, " ms"@, n));
    assert(whole.skip(b + 5) =~= rest);
    assert(rest.take(n) =~= number);
}

/// What the latency is in any output: its text is as long as the text between the first `time=` and
/// the next ` ms`, without white space round it, and is that text character by character, with a
/// point for every comma. There is none exactly where there is no `time=`, or no ` ms` behind the
/// first one.
pub proof fn lemma_reading_is_in_the_output(stdout: Seq<char>)
    ensures
        match reading(stdout) {
            Some(text) => exists|i: int, j: int|
                #![trigger stdout.subrange(i + 5, j)]
                {
                    let between = trimmed(stdout.subrange(i + 5, j));
                    &&& 0 <= i && i + 5 <= j && j + 3 <= stdout.len()
                    &&& stdout.subrange(i, i + 5) == "time="@
                    &&& stdout.subrange(j, j + 3) == " ms"@
                    &&& forall|k: int|
                        0 <= k < i ==> #[trigger] stdout.subrange(k, k + 5) != "time="@
                    &&& forall|k: int|
                        i + 5 <= k < j ==> #[trigger] stdout.subrange(k, k + 3) != " ms"@
                    &&& text.len() == between.len()
                    &&& forall|k: int|
                        0 <= k < between.len() ==> #[trigger] text[k] == (if between[k] == ',' {
                            '.'
                        } else {
                            between[k]
                        })
                },
            None => {
                ||| forall|k: int|
                    0 <= k && k + 5 <= stdout.len() ==> #[trigger] stdout.subrange(k, k + 5)
                        != "time="@
                ||| exists|i: int|
                    #![trigger stdout.subrange(i, i + 5)]
                    {
                        &&& 0 <= i && i + 5 <= stdout.len()
                        &&& stdout.subrange(i, i + 5) == "time="@
                        &&& forall|k: int|
                            0 <= k < i ==> #[trigger] stdout.subrange(k, k + 5) != "time="@
                        &&& forall|k: int|
                            i + 5 <= k && k + 3 <= stdout.len() ==> #[trigger] stdout.subrange(
                                k,
                                k + 3,
                            ) != " ms"@
                    }
            },
        },
{
    reveal_strlit("time=");
    reveal_strlit(" ms");
    lemma_first_match(stdout, "time="@);
    match first_match(stdout, "time="@) {
        Some(i) => {
            let rest = stdout.skip(i + 5);
            lemma_first_match(rest, " ms"@);
            assert forall|k: int| 0 <= k < i implies #[trigger] stdout.subrange(k, k + 5)
                != "time="@ by {
                assert(stdout.subrange(k, k + "time="@.len()) != "time="@);
            }
            assert(stdout.subrange(i, i + 5) == "time="@);
            match first_match(rest, " ms"@) {
                Some(n) => {
                    let j = i + 5 + n;
                    assert(stdout.subrange(i + 5, j) =~= rest.take(n));
                    assert(stdout.subrange(j, j + 3) =~= rest.subrange(n, n + 3));
                    lemma_pointed(trimmed(rest.take(n)));
                    assert forall|k: int| i + 5 <= k < j implies #[trigger] stdout.subrange(
                        k,
                        k + 3,
                    ) != " ms"@ by {
                        let m = k - i - 5;
                        assert(stdout.subrange(k, k + 3) =~= rest.subrange(m, m + " ms"@.len()));
                    }
                },
                None => {
                    assert forall|k: int|
                        i + 5 <= k && k + 3 <= stdout.len() implies #[trigger] stdout.subrange(
                        k,
                        k + 3,
                    ) != " ms"@ by {
                        let m = k - i - 5;
                        assert(stdout.subrange(k, k + 3) =~= rest.subrange(m, m + " ms"@.len()));
                    }
                },
            }
        },
        None => {
            assert forall|k: int| 0 <= k && k + 5 <= stdout.len() implies #[trigger] stdout.subrange(
                k,
                k + 5,
            ) != "time="@ by {
                assert(stdout.subrange(k, k + "time="@.len()) != "time="@);
            }
        },
    }
}

/// One ping is asked for, of the address as it is, with numbers in place of names and with a wait of
/// as many seconds as given, but of one at least.
pub proof fn lemma_one_ping_of_the_address(address: Seq<char>, timeout_secs: u64)
    ensures
        ({
            let given = ping_arg_views(address, timeout_secs);
            &&& given.len() == 6
            &&& given[0] == "-n"@
            &&& given[1] == "-c"@ && given[2] == "1"@
            &&& given[3] == "-W"@
            &&& timeout_secs > 0 ==> digits_value(given[4]) == timeout_secs
            &&& timeout_secs == 0 ==> digits_value(given[4]) == 1
            &&& all_digits(given[4])
            &&& given[5] == address
        }),
{
    lemma_decimal_reads_back(
        if timeout_secs < 1 {
            1
        } else {
            timeout_secs as nat
        },
    );
}

} // verus!
