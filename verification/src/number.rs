//! Decimal numbers and time intervals in text.
use vstd::prelude::*;
use vstd::string::*;

use crate::text::chars_of;

verus! {

/// The ASCII decimal digits.
pub open spec fn is_digit(c: char) -> bool {
    '0' <= c <= '9'
}

/// The number that a digit stands for.
pub open spec fn digit_value(c: char) -> nat {
    (c as nat - '0' as nat) as nat
}

/// Whether `s` is one decimal digit or more, and nothing else.
pub open spec fn all_digits(s: Seq<char>) -> bool {
    s.len() > 0 && forall|i: int| 0 <= i < s.len() ==> is_digit(#[trigger] s[i])
}

/// The number that a row of decimal digits stands for.
pub open spec fn digits_value(s: Seq<char>) -> nat
    decreases s.len(),
{
    if s.len() == 0 {
        0
    } else {
        10 * digits_value(s.drop_last()) + digit_value(s.last())
    }
}

/// `s` without the plus sign that it may start with.
pub open spec fn unsigned_part(s: Seq<char>) -> Seq<char> {
    if s.len() > 0 && s[0] == '+' {
        s.drop_first()
    } else {
        s
    }
}

/// The number written in `s`: digits, with a plus sign before them or not.
pub open spec fn number(s: Seq<char>) -> Option<nat> {
    if all_digits(unsigned_part(s)) {
        Some(digits_value(unsigned_part(s)))
    } else {
        None
    }
}

/// `n` times `scale`, where there is such a number and it fits in 64 bits.
pub open spec fn scaled(n: Option<nat>, scale: nat) -> Option<u64> {
    match n {
        Some(n) => if n * scale <= u64::MAX {
            Some((n * scale) as u64)
        } else {
            None
        },
        None => None,
    }
}

/// The interval written in `s`, in milliseconds: a number of seconds (`5s`), of minutes (`1m`) or,
/// without a unit, of milliseconds.
pub open spec fn interval_ms(s: Seq<char>) -> Option<u64> {
    if s.len() > 0 && s.last() == 's' {
        scaled(number(s.drop_last()), 1000)
    } else if s.len() > 0 && s.last() == 'm' {
        scaled(number(s.drop_last()), 60_000)
    } else {
        scaled(number(s), 1)
    }
}

/// More digits never make a smaller number.
proof fn lemma_digits_value_grows(s: Seq<char>, i: int)
    requires
        0 <= i <= s.len(),
    ensures
        digits_value(s.take(i)) <= digits_value(s),
    decreases s.len() - i,
{
    if i < s.len() {
        lemma_digits_value_grows(s, i + 1);
        assert(s.take(i + 1).drop_last() =~= s.take(i));
    } else {
        assert(s.take(i) =~= s);
    }
}

/// A number times a positive scale is too large once the number is.
proof fn lemma_scale_grows(n: nat, m: nat, scale: nat)
    by (nonlinear_arith)
    requires
        n <= m,
    ensures
        n * scale <= m * scale,
        scale >= 1 ==> m <= m * scale,
{
}

/// Reads the characters `from..to` of `v` as a decimal number and multiplies it by `scale`.
fn read_scaled(v: &Vec<char>, from: usize, to: usize, scale: u64) -> (r: Option<u64>)
    requires
        from <= to <= v@.len(),
        scale >= 1,
    ensures
        r == scaled(number(v@.subrange(from as int, to as int)), scale as nat),
{
    let ghost whole = v@.subrange(from as int, to as int);
    let mut i: usize = from;
    if from < to && v[from] == '+' {
        i = from + 1;
        assert(whole.drop_first() =~= v@.subrange(from + 1, to as int));
    }
    let ghost start = i as int;
    let ghost digits = v@.subrange(start, to as int);
    assert(unsigned_part(whole) == digits);
    if i == to {
        return None;
    }
    let mut n: u64 = 0;
    assert(digits.take(0) =~= Seq::empty());
    while i < to
        invariant
            from <= start <= i <= to <= v@.len(),
            start < to,
            digits == v@.subrange(start, to as int),
            whole == v@.subrange(from as int, to as int),
            digits == unsigned_part(whole),
            forall|j: int| 0 <= j < i - start ==> is_digit(#[trigger] digits[j]),
            n == digits_value(digits.take(i - start)),
            scale >= 1,
        decreases to - i,
    {
        let c: char = v[i];
        if !('0' <= c && c <= '9') {
            assert(digits[i - start] == c);
            return None;
        }
        let d: u64 = (c as u64) - 48;
        let ghost next = digits.take(i - start + 1);
        assert(next.drop_last() =~= digits.take(i - start));
        assert(digits_value(next) == 10 * n + d);
        if n > (u64::MAX - d) / 10 {
            proof {
                lemma_digits_value_grows(digits, i - start + 1);
                lemma_scale_grows(digits_value(next), digits_value(digits), scale as nat);
            }
            return None;
        }
        n = 10 * n + d;
        i += 1;
    }
    assert(digits.take(i - start) =~= digits);
    n.checked_mul(scale)
}

/// Reads an interval, in milliseconds: `250` is 250 milliseconds, `5s` is five seconds and `1m` one
/// minute. `None` where `s` is no such text, or where the interval does not fit in 64 bits.
pub fn parse_interval_ms(s: &str) -> (r: Option<u64>)
    ensures
        r == interval_ms(s@),
{
    let v: Vec<char> = chars_of(s);
    let n: usize = v.len();
    assert(v@.subrange(0, n as int) =~= s@);
    if n > 0 && v[n - 1] == 's' {
        assert(v@.subrange(0, n - 1) =~= s@.drop_last());
        read_scaled(&v, 0, n - 1, 1000)
    } else if n > 0 && v[n - 1] == 'm' {
        assert(v@.subrange(0, n - 1) =~= s@.drop_last());
        read_scaled(&v, 0, n - 1, 60_000)
    } else {
        read_scaled(&v, 0, n, 1)
    }
}

/// The digit for `d`.
pub open spec fn digit_char(d: nat) -> char {
    ('0' as nat + d) as char
}

/// `n` in decimal, without leading zeros.
pub open spec fn decimal(n: nat) -> Seq<char>
    decreases n,
{
    if n < 10 {
        seq![digit_char(n)]
    } else {
        decimal(n / 10).push(digit_char(n % 10))
    }
}

/// The digit for `d`, as text.
fn digit_text(d: u64) -> (r: &'static str)
    requires
        d < 10,
    ensures
        r@ == seq![digit_char(d as nat)],
{
    let digits: &'static str = "0123456789";
    proof {
        reveal_strlit("0123456789");
    }
    let r: &'static str = digits.substring_char(d as usize, d as usize + 1);
    assert(r@ =~= seq![digits@[d as int]]);
    r
}

/// `n` in decimal, without leading zeros.
pub fn decimal_text(n: u64) -> (r: String)
    ensures
        r@ == decimal(n as nat),
    decreases n,
{
    if n < 10 {
        let d: &'static str = digit_text(n);
        d.to_owned()
    } else {
        let mut r: String = decimal_text(n / 10);
        let ghost before = r@;
        r.append(digit_text(n % 10));
        assert(r@ =~= before.push(digit_char((n % 10) as nat)));
        r
    }
}

/// What `decimal` writes is digits, and reads as the number it was written for.
pub proof fn lemma_decimal_reads_back(n: nat)
    ensures
        all_digits(decimal(n)),
        digits_value(decimal(n)) == n,
        number(decimal(n)) == Some(n),
    decreases n,
{
    if n >= 10 {
        lemma_decimal_reads_back(n / 10);
        assert(decimal(n).drop_last() =~= decimal(n / 10));
    } else {
        assert(decimal(n).drop_last() =~= Seq::empty());
        assert(digits_value(decimal(n).drop_last()) == 0);
    }
    assert(is_digit(decimal(n)[0]));
    assert(unsigned_part(decimal(n)) == decimal(n));
}

/// An interval is read back in each of its three spellings: bare milliseconds, seconds, minutes.
pub proof fn lemma_interval_reads_back(n: nat)
    ensures
        interval_ms(decimal(n)) == scaled(Some(n), 1),
        interval_ms(decimal(n).push('s')) == scaled(Some(n), 1000),
        interval_ms(decimal(n).push('m')) == scaled(Some(n), 60_000),
{
    lemma_decimal_reads_back(n);
    assert(is_digit(decimal(n).last()));
    assert(decimal(n).push('s').drop_last() =~= decimal(n));
    assert(decimal(n).push('m').drop_last() =~= decimal(n));
}

/// Digits count by their place: one more digit at the end makes ten times the number, plus the digit.
pub proof fn lemma_digits_count_by_place(s: Seq<char>, c: char)
    ensures
        digits_value(Seq::empty()) == 0,
        '0' <= c <= '9' ==> digits_value(s.push(c)) == 10 * digits_value(s) + (c as int - 48),
{
    assert(s.push(c).drop_last() =~= s);
}

/// What is an interval, and of how many milliseconds: digits, with a plus sign before them or not,
/// and after them nothing (milliseconds), `s` (seconds) or `m` (minutes). Any such text is one as
/// long as the milliseconds fit in 64 bits, and no other text is.
pub proof fn lemma_interval_form(s: Seq<char>)
    ensures
        ({
            let unit: int = if s.len() > 0 && s[s.len() - 1] == 's' {
                1000
            } else if s.len() > 0 && s[s.len() - 1] == 'm' {
                60_000
            } else {
                1
            };
            let to: int = if unit == 1 {
                s.len() as int
            } else {
                s.len() - 1
            };
            let from: int = if to > 0 && s[0] == '+' {
                1
            } else {
                0
            };
            let digits = s.subrange(from, to);
            let well_formed = from < to && forall|i: int|
                from <= i < to ==> '0' <= #[trigger] s[i] <= '9';
            let ms = digits_value(digits) * unit;
            match interval_ms(s) {
                Some(r) => well_formed && r == ms,
                None => !well_formed || ms > u64::MAX,
            }
        }),
{
    let body = if s.len() > 0 && (s[s.len() - 1] == 's' || s[s.len() - 1] == 'm') {
        s.drop_last()
    } else {
        s
    };
    let to = body.len() as int;
    let from: int = if to > 0 && s[0] == '+' {
        1
    } else {
        0
    };
    let digits = s.subrange(from, to);
    assert(unsigned_part(body) =~= digits);
    if from < to && (forall|i: int| from <= i < to ==> '0' <= #[trigger] s[i] <= '9') {
        assert forall|k: int| 0 <= k < digits.len() implies is_digit(#[trigger] digits[k]) by {
            assert(digits[k] == s[from + k]);
        }
    }
    if all_digits(digits) {
        assert forall|i: int| from <= i < to implies '0' <= #[trigger] s[i] <= '9' by {
            assert(is_digit(digits[i - from]));
        }
    }
}

/// Decimal text is digits only, has no zero before other digits, and counts by place as the number.
pub proof fn lemma_decimal_form(n: nat)
    ensures
        decimal(n).len() > 0,
        forall|i: int| 0 <= i < decimal(n).len() ==> '0' <= #[trigger] decimal(n)[i] <= '9',
        decimal(n).len() > 1 ==> decimal(n)[0] != '0',
        digits_value(decimal(n)) == n,
    decreases n,
{
    lemma_decimal_reads_back(n);
    assert forall|i: int| 0 <= i < decimal(n).len() implies '0' <= #[trigger] decimal(n)[i]
        <= '9' by {
        assert(is_digit(decimal(n)[i]));
    }
    if n >= 10 {
        lemma_decimal_form(n / 10);
        assert(decimal(n)[0] == decimal(n / 10)[0]);
        if decimal(n / 10).len() == 1 {
            assert(n / 10 < 10) by {
                if n / 10 >= 10 {
                    lemma_decimal_form(n / 10 / 10);
                }
            }
            assert(decimal(n / 10)[0] == digit_char(n / 10));
        }
    }
}

} // verus!
