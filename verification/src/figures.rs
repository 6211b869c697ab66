//! Sizes, counts and spans of time as a person reads them.

use crate::outside;
use crate::text;
use vstd::prelude::*;
use vstd::string::*;

verus! {

/// `x / d` to the nearest whole number, a tie going to the even one.
pub open spec fn half_even(x: nat, d: nat) -> nat {
    let q = x / d;
    let r = x % d;
    if 2 * r > d || (2 * r == d && q % 2 == 1) {
        q + 1
    } else {
        q
    }
}

/// A number of tenths with its decimal point.
pub open spec fn tenths(q: nat) -> Seq<char> {
    text::dec(q / 10) + "."@ + text::dec(q % 10)
}

fn tenths_text(q: u128) -> (r: String)
    requires
        q / 10 <= u64::MAX,
    ensures
        r@ == tenths(q as nat),
{
    text::number((q / 10) as u64).concat(".").concat(text::number((q % 10) as u64).as_str())
}

fn round_half_even(x: u128, d: u128) -> (q: u128)
    requires
        0 < d,
        2 * d <= u128::MAX,
    ensures
        q == half_even(x as nat, d as nat),
        q <= x / d + 1,
{
    let q: u128 = x / d;
    let r: u128 = x % d;
    assert(r < d) by (nonlinear_arith)
        requires
            r == x % d,
            d > 0,
    ;
    if 2 * r > d || (2 * r == d && q % 2 == 1) {
        assert(q < x) by (nonlinear_arith)
            requires
                q == x / d,
                r == x % d,
                r > 0,
                d > 0,
        ;
        q + 1
    } else {
        q
    }
}

/// How far apart doubles are from `n` on: every whole number up to `2^53`, then
/// every second, every fourth.
pub open spec fn spacing(n: nat) -> nat
    decreases n,
{
    if n < 9007199254740992 {
        1
    } else {
        2 * spacing(n / 2)
    }
}

/// A whole number as a double holds it.
pub open spec fn as_double(n: nat) -> nat {
    spacing(n) * half_even(n, spacing(n))
}

fn spacing_at(n: u128) -> (r: u128)
    requires
        n <= u64::MAX,
    ensures
        r == spacing(n as nat),
        1 <= r <= 4096,
{
    let mut r: u128 = 1;
    let mut left: u128 = n;
    while left >= 9007199254740992
        invariant
            n <= u64::MAX,
            1 <= r <= 4096,
            left * r <= n,
            spacing(n as nat) == r * spacing(left as nat),
        decreases left,
    {
        let half: u128 = left / 2;
        assert(half * (2 * r) <= left * r) by (nonlinear_arith)
            requires
                2 * half <= left,
                1 <= r,
        ;
        assert(r <= 2048) by (nonlinear_arith)
            requires
                left >= 9007199254740992,
                left * r <= 18446744073709551615,
        ;
        assert(r * (2 * spacing(half as nat)) == (2 * r) * spacing(half as nat))
            by (nonlinear_arith);
        left = half;
        r = r * 2;
    }
    assert(r * spacing(left as nat) == r) by (nonlinear_arith)
        requires
            spacing(left as nat) == 1,
    ;
    r
}

fn to_double(n: u64) -> (r: u128)
    ensures
        r == as_double(n as nat),
        r <= n + 4096,
{
    let unit: u128 = spacing_at(n as u128);
    let q: u128 = round_half_even(n as u128, unit);
    assert(unit * q <= n + 4096) by (nonlinear_arith)
        requires
            q <= (n as u128) / unit + 1,
            1 <= unit <= 4096,
    ;
    unit * q
}

pub open spec fn byte_text(n: nat) -> Seq<char> {
    if n < 1024 {
        text::dec(n) + " B"@
    } else if n < 1048576 {
        tenths(half_even(n * 10, 1024)) + " KB"@
    } else {
        tenths(half_even(as_double(n) * 10, 1048576)) + " MB"@
    }
}

/// `4.1 KB`: for a file read or written.
pub fn bytes(n: u64) -> (r: String)
    ensures
        r@ == byte_text(n as nat),
{
    if n < 1024 {
        text::number(n).concat(" B")
    } else if n < 1048576 {
        tenths_text(round_half_even(n as u128 * 10, 1024)).concat(" KB")
    } else {
        tenths_text(round_half_even(to_double(n) * 10, 1048576)).concat(" MB")
    }
}

/// `s` with a comma before every third character from the end, but not in
/// front.
pub open spec fn grouped(s: Seq<char>) -> Seq<char>
    decreases s.len(),
{
    if s.len() <= 3 {
        s
    } else {
        grouped(s.take(s.len() - 3)) + ","@ + s.skip(s.len() - 3)
    }
}

/// `1,204`: token counts get big enough to want separators.
pub fn thousands(n: u64) -> (r: String)
    ensures
        r@ == grouped(text::dec(n as nat)),
{
    let v = text::chars_of(text::number(n).as_str());
    assert(v@.take(v@.len() as int) =~= v@);
    group(&v, v.len())
}

fn group(v: &Vec<char>, n: usize) -> (r: String)
    requires
        n <= v.len(),
    ensures
        r@ == grouped(v@.take(n as int)),
    decreases n,
{
    let ghost s = v@.take(n as int);
    if n <= 3 {
        let r = text::slice_text(v, 0, n);
        assert(r@ =~= s);
        r
    } else {
        assert(s.take(s.len() - 3) =~= v@.take(n - 3));
        let tail = text::slice_text(v, n - 3, n);
        assert(tail@ =~= s.skip(s.len() - 3));
        group(v, n - 3).concat(",").concat(tail.as_str())
    }
}

/// `n` and `unit` doubled until a thousandth of `n` has as many bits as a double.
pub open spec fn lifted(n: nat, unit: nat) -> (nat, nat)
    decreases 9007199254740992000 - n,
{
    if n == 0 || n >= 4503599627370496000 {
        (n, unit)
    } else {
        lifted(2 * n, 2 * unit)
    }
}

/// `n / 1000` to the nearest tenth, as doubles have it: `n` as a double, the
/// double nearest to a thousandth of it, and the tenth nearest to that.
pub open spec fn thousandths(n: nat) -> nat {
    let (top, unit) = lifted(as_double(n), 1);
    let step = spacing(top / 1000);
    half_even(10 * (step * half_even(top, 1000 * step)), unit)
}

fn nearest_tenth(n: u64) -> (q: u128)
    ensures
        q == thousandths(n as nat),
        q / 10 <= u64::MAX,
{
    let x: u128 = to_double(n);
    let mut top: u128 = x;
    let mut unit: u128 = 1;
    while top != 0 && top < 4503599627370496000
        invariant
            top == x * unit,
            1 <= unit,
            top <= 2 * 18446744073709551616,
            unit <= 2 * 4503599627370496000,
            x <= n + 4096,
            lifted(x as nat, 1) == lifted(top as nat, unit as nat),
        decreases 9007199254740992000 - top,
    {
        assert(2 * top == x * (2 * unit) && 2 * unit <= 2 * 4503599627370496000) by (
            nonlinear_arith)
            requires
                top == x * unit,
                0 < top < 4503599627370496000,
                1 <= unit,
        ;
        top = top * 2;
        unit = unit * 2;
    }
    let step: u128 = spacing_at(top / 1000);
    let part: u128 = 1000 * step;
    let m: u128 = round_half_even(top, part);
    assert(step * m <= top / 1000 + 8192) by (nonlinear_arith)
        requires
            m <= top / part + 1,
            part == 1000 * step,
            1 <= step <= 4096,
    ;
    let ten: u128 = 10 * (step * m);
    let q: u128 = round_half_even(ten, unit);
    assert(q / 10 <= u64::MAX) by (nonlinear_arith)
        requires
            q <= ten / unit + 1,
            ten == 10 * (step * m),
            step * m <= top / 1000 + 8192,
            top <= 2 * 18446744073709551616,
            1 <= unit,
    ;
    q
}

pub open spec fn kilo_text(n: nat) -> Seq<char> {
    if n >= 1000 && n % 1000 == 0 {
        text::dec(n / 1000) + "k"@
    } else if n >= 1000 {
        tenths(thousandths(n)) + "k"@
    } else {
        text::dec(n)
    }
}

/// `32k`: a context window, compactly.
pub fn kilo(n: u32) -> (r: String)
    ensures
        r@ == kilo_text(n as nat),
{
    if n >= 1000 && n % 1000 == 0 {
        text::number((n / 1000) as u64).concat("k")
    } else if n >= 1000 {
        tenths_text(nearest_tenth(n as u64)).concat("k")
    } else {
        text::number(n as u64)
    }
}

pub open spec fn milli_text(ms: nat) -> Seq<char> {
    if ms < 1000 {
        text::dec(ms) + "ms"@
    } else {
        tenths(thousandths(ms)) + "s"@
    }
}

/// `12ms`, or `3.4s` from a second on.
pub fn millis(ms: u64) -> (r: String)
    ensures
        r@ == milli_text(ms as nat),
{
    if ms < 1000 {
        text::number(ms).concat("ms")
    } else {
        tenths_text(nearest_tenth(ms)).concat("s")
    }
}

/// A span of milliseconds in seconds, with one decimal.
pub open spec fn seconds_text(ms: nat) -> Seq<char> {
    tenths(thousandths(ms)) + "s"@
}

/// `0.3s`: a span of milliseconds in seconds.
pub fn seconds(ms: u64) -> (r: String)
    ensures
        r@ == seconds_text(ms as nat),
{
    tenths_text(nearest_tenth(ms)).concat("s")
}

/// A number below 100 with two digits.
pub open spec fn two(n: nat) -> Seq<char> {
    if n < 10 {
        "0"@ + text::dec(n)
    } else {
        text::dec(n)
    }
}

fn two_digits(n: u64) -> (r: String)
    ensures
        r@ == two(n as nat),
{
    if n < 10 {
        String::from_str("0").concat(text::number(n).as_str())
    } else {
        text::number(n)
    }
}

pub open spec fn human_text(s: nat) -> Seq<char> {
    if s < 60 {
        text::dec(s) + "s"@
    } else if s < 3600 {
        text::dec(s / 60) + "m"@ + two(s % 60) + "s"@
    } else {
        text::dec(s / 3600) + "h"@ + two((s % 3600) / 60) + "m"@
    }
}

/// A span of time: `42s`, `1m03s`, `2h05m`.
pub fn human(secs: u64) -> (r: String)
    ensures
        r@ == human_text(secs as nat),
{
    if secs < 60 {
        text::number(secs).concat("s")
    } else if secs < 3600 {
        text::number(secs / 60).concat("m").concat(two_digits(secs % 60).as_str()).concat("s")
    } else {
        text::number(secs / 3600).concat("h").concat(two_digits((secs % 3600) / 60).as_str()).concat(
            "m",
        )
    }
}

pub open spec fn clock_text(ms: u64) -> Seq<char> {
    match outside::utc_ms(ms as i64) {
        Some(t) => t,
        None => "--"@,
    }
}

/// A unix-ms instant as UTC: `09-24 01:40:12Z`. Always UTC, always the same
/// shape: the fleet spans hosts and time zones, and a log is only comparable
/// across them in one zone.
pub fn clock(unix_ms: u64) -> (r: String)
    ensures
        r@ == clock_text(unix_ms),
{
    match outside::format_utc_ms(unix_ms as i64) {
        Some(t) => t,
        None => "--".to_owned(),
    }
}

/// The hours and the minutes of the day in UTC, at a unix time in seconds.
pub open spec fn minute_text(unix: int) -> Seq<char> {
    let day = unix % 86400;
    two((day / 3600) as nat) + ":"@ + two((day % 3600 / 60) as nat) + "Z"@
}

pub open spec fn hhmm_text(unix: i64) -> Seq<char> {
    if outside::is_dated(unix) {
        minute_text(unix as int)
    } else {
        "--:--"@
    }
}

/// UTC `HH:MM` for a unix time in seconds.
pub fn hhmm(unix: i64) -> (r: String)
    ensures
        r@ == hhmm_text(unix),
{
    match outside::format_utc_minute(unix) {
        Some(t) => t,
        None => "--:--".to_owned(),
    }
}

pub open spec fn stamped(at: Option<u64>, prev: Option<u64>) -> Seq<char> {
    match at {
        None => ""@,
        Some(t) => match prev {
            Some(p) => if t >= p {
                clock_text(t) + " +"@ + human_text(((t - p) / 1000) as nat)
            } else {
                clock_text(t)
            },
            None => clock_text(t),
        },
    }
}

/// The time column for an event, from its block's seal time, plus the gap since
/// the previous stamped event. A block with no seal time gets no time at all:
/// an honest blank beats a guess.
pub fn stamp_at(at: Option<u64>, prev: Option<u64>) -> (r: String)
    ensures
        r@ == stamped(at, prev),
{
    match at {
        None => {
            proof {
                reveal_strlit("");
            }
            String::new()
        },
        Some(t) => match prev {
            Some(p) => {
                if t >= p {
                    clock(t).concat(" +").concat(human((t - p) / 1000).as_str())
                } else {
                    clock(t)
                }
            },
            None => clock(t),
        },
    }
}

/// An estimated time for an event at `block`: its distance from the head, at the
/// nominal block time, and the gap since the previous event.
pub open spec fn when_text(
    block: u64,
    prev: Option<u64>,
    head: u64,
    now: i64,
    block_ms: u64,
) -> Seq<char> {
    let each = block_ms / 1000;
    let at = now - crate::activity::less(head as int, block as int) * each;
    let base = "≈"@ + hhmm_text(at as i64);
    match prev {
        Some(p) => base + " (+"@ + human_text(
            (crate::activity::less(block as int, p as int) * each) as nat,
        ) + ")"@,
        None => base,
    }
}

/// No figure of such a time is out of range.
pub open spec fn when_fits(
    block: u64,
    prev: Option<u64>,
    head: u64,
    now: i64,
    block_ms: u64,
) -> bool {
    let each = block_ms / 1000;
    let gone = crate::activity::less(head as int, block as int) * each;
    &&& gone <= i64::MAX
    &&& now - gone >= i64::MIN
    &&& prev matches Some(p) ==> crate::activity::less(block as int, p as int) * each <= u64::MAX
}

/// An estimated time column for an event at `block`, marked `≈`: its distance
/// from the head times the nominal block time.
pub fn when(block: u64, prev: Option<u64>, head: u64, now: i64, block_ms: u64) -> (r: String)
    requires
        when_fits(block, prev, head, now, block_ms),
    ensures
        r@ == when_text(block, prev, head, now, block_ms),
{
    let each: u64 = block_ms / 1000;
    let back: u64 = head.saturating_sub(block);
    let gone: i64 = (back * each) as i64;
    let base = String::from_str("≈").concat(hhmm(now - gone).as_str());
    match prev {
        Some(p) => base.concat(" (+").concat(human(block.saturating_sub(p) * each).as_str()).concat(
            ")",
        ),
        None => base,
    }
}

// ---------------------------------------------------------------------
// What the figures mean
// ---------------------------------------------------------------------

/// A rounded quotient is the nearest whole number, and of two as near the even
/// one.
pub proof fn rounding_goes_to_the_nearest(x: nat, d: nat)
    requires
        d > 0,
    ensures
        2 * (half_even(x, d) * d) <= 2 * x + d,
        2 * x <= 2 * (half_even(x, d) * d) + d,
        2 * (half_even(x, d) * d) == 2 * x + d || 2 * x == 2 * (half_even(x, d) * d) + d
            ==> half_even(x, d) % 2 == 0,
{
    let q = x / d;
    let r = x % d;
    vstd::arithmetic::div_mod::lemma_fundamental_div_mod(x as int, d as int);
    assert(d * q == q * d) by (nonlinear_arith);
    assert((q + 1) * d == q * d + d) by (nonlinear_arith);
    assert(r < d) by {
        vstd::arithmetic::div_mod::lemma_mod_bound(x as int, d as int);
    }
}

/// A number that a double holds stands for itself, and so does every whole
/// number below two to the fifty-third.
pub proof fn small_numbers_are_exact(n: nat)
    requires
        n < 9007199254740992,
    ensures
        as_double(n) == n,
{
    assert(spacing(n) == 1);
    assert(n / 1 == n && n % 1 == 0);
    assert(1 * half_even(n, 1) == half_even(n, 1));
}

/// Sizes below a kilobyte are told to the byte, below a megabyte to a tenth of a
/// kilobyte, and from there on to a tenth of a megabyte.
pub proof fn sizes_are_told_to_a_tenth(n: nat)
    ensures
        n < 1024 ==> byte_text(n) == text::dec(n) + " B"@,
        1024 <= n < 1048576 ==> exists|q: nat|
            byte_text(n) == #[trigger] tenths(q) + " KB"@ && 2 * (q * 1024) <= 20 * n + 1024 && 20
                * n <= 2 * (q * 1024) + 1024,
        1048576 <= n < 9007199254740992 ==> exists|q: nat|
            byte_text(n) == #[trigger] tenths(q) + " MB"@ && 2 * (q * 1048576) <= 20 * n + 1048576
                && 20 * n <= 2 * (q * 1048576) + 1048576,
{
    if 1024 <= n < 1048576 {
        rounding_goes_to_the_nearest(n * 10, 1024);
        assert(byte_text(n) == tenths(half_even(n * 10, 1024)) + " KB"@);
    }
    if 1048576 <= n < 9007199254740992 {
        small_numbers_are_exact(n);
        rounding_goes_to_the_nearest(n * 10, 1048576);
        assert(byte_text(n) == tenths(half_even(n * 10, 1048576)) + " MB"@);
    }
}

/// A count of tenths is told as its whole part, a point and one digit.
pub proof fn tenths_have_one_digit(q: nat)
    ensures
        exists|whole: nat, digit: nat|
            digit < 10 && q == 10 * whole + digit && tenths(q) == #[trigger] text::dec(whole)
                + "."@ + #[trigger] text::dec(digit),
{
    assert(q == 10 * (q / 10) + q % 10);
    assert(tenths(q) == text::dec(q / 10) + "."@ + text::dec(q % 10));
}

/// Digits are grouped by three from the right: every fourth character from there
/// is a comma, and the others are the digits in their order.
pub proof fn digits_are_grouped_by_three(s: Seq<char>, k: int)
    requires
        0 <= k < grouped(s).len(),
    ensures
        grouped(s).len() == s.len() + (if s.len() == 0 {
            0
        } else {
            (s.len() - 1) / 3
        }),
        k % 4 == 3 ==> grouped(s)[grouped(s).len() - 1 - k] == ',',
        k % 4 != 3 ==> k - k / 4 < s.len() && grouped(s)[grouped(s).len() - 1 - k] == s[s.len() - 1
            - (k - k / 4)],
    decreases s.len(),
{
    if s.len() > 3 {
        reveal_strlit(",");
        let front = s.take(s.len() - 3);
        let g = grouped(front);
        assert(g.len() > 0);
        digits_are_grouped_by_three(
            front,
            if k >= 4 {
                k - 4
            } else {
                0
            },
        );
        assert(grouped(s) == g + ","@ + s.skip(s.len() - 3));
        if k >= 4 {
            assert(grouped(s)[grouped(s).len() - 1 - k] == g[g.len() - 1 - (k - 4)]);
        }
    }
}

/// Two digits are always two, and make the number.
pub proof fn two_digits_are_two(n: nat)
    requires
        n < 100,
    ensures
        two(n) == (if n < 10 {
            "0"@ + text::dec(n)
        } else {
            text::dec(n)
        }),
        n < 10 ==> text::starts(two(n), "0"@),
{
    if n < 10 {
        assert(two(n).subrange(0, "0"@.len() as int) =~= "0"@);
    }
}

/// A span is told in seconds, in minutes and seconds, or in hours and minutes,
/// and none of what is told is lost but the seconds of a span of hours.
pub proof fn a_span_is_told_in_its_units(s: nat)
    ensures
        s < 60 ==> human_text(s) == text::dec(s) + "s"@,
        60 <= s < 3600 ==> exists|m: nat, t: nat|
            t < 60 && s == 60 * m + t && human_text(s) == #[trigger] text::dec(m) + "m"@
                + #[trigger] two(t) + "s"@,
        s >= 3600 ==> exists|h: nat, m: nat|
            m < 60 && 3600 * h + 60 * m <= s < 3600 * h + 60 * m + 60 && human_text(s)
                == #[trigger] text::dec(h) + "h"@ + #[trigger] two(m) + "m"@,
{
    if 60 <= s < 3600 {
        assert(human_text(s) == text::dec(s / 60) + "m"@ + two(s % 60) + "s"@);
    }
    if s >= 3600 {
        let h = s / 3600;
        let m = (s % 3600) / 60;
        assert(human_text(s) == text::dec(h) + "h"@ + two(m) + "m"@);
    }
}

/// The time of day is told in hours and minutes of the day the second is in.
pub proof fn a_minute_is_told_of_its_day(unix: int)
    ensures
        exists|h: nat, m: nat|
            h < 24 && m < 60 && 0 <= unix % 86400 - 3600 * h - 60 * m < 60 && minute_text(unix)
                == #[trigger] two(h) + ":"@ + #[trigger] two(m) + "Z"@,
{
    let day = unix % 86400;
    let h = (day / 3600) as nat;
    let m = (day % 3600 / 60) as nat;
    assert(minute_text(unix) == two(h) + ":"@ + two(m) + "Z"@);
}

/// A time is stamped with its clock, and with how long after the one before it
/// came, where it came after it.
pub proof fn a_stamp_tells_the_clock_and_the_gap(at: u64, prev: Option<u64>)
    ensures
        stamped(None, prev) == ""@,
        text::starts(stamped(Some(at), prev), clock_text(at)),
        prev matches Some(p) ==> (at >= p ==> text::ends(
            stamped(Some(at), prev),
            human_text(((at - p) / 1000) as nat),
        )),
        !(prev matches Some(p) && at >= p) ==> stamped(Some(at), prev) == clock_text(at),
{
    let s = stamped(Some(at), prev);
    assert(s.subrange(0, clock_text(at).len() as int) =~= clock_text(at));
    if prev is Some && at >= prev->0 {
        let h = human_text(((at - prev->0) / 1000) as nat);
        assert(s.subrange(s.len() - h.len(), s.len() as int) =~= h);
    }
}

/// Thousands are told as such where they are whole; what is smaller is told as it
/// is.
pub proof fn round_thousands_are_told_whole(n: nat)
    ensures
        kilo_text(1000 * n) == (if n == 0 {
            text::dec(0)
        } else {
            text::dec(n) + "k"@
        }),
        n < 1000 ==> kilo_text(n) == text::dec(n) && milli_text(n) == text::dec(n) + "ms"@,
        n >= 1000 && n % 1000 != 0 ==> kilo_text(n) == tenths(thousandths(n)) + "k"@,
        n >= 1000 ==> milli_text(n) == tenths(thousandths(n)) + "s"@,
        seconds_text(n) == tenths(thousandths(n)) + "s"@,
{
}

/// A block's time is estimated from the head's: so many blocks back, each of its
/// span; and the gap before it is told in the same measure.
pub proof fn a_blocks_time_is_counted_back(
    block: u64,
    prev: u64,
    head: u64,
    now: i64,
    block_ms: u64,
)
    requires
        block <= head,
        prev <= block,
        when_fits(block, Some(prev), head, now, block_ms),
    ensures
        when_text(block, None, head, now, block_ms) == "≈"@ + hhmm_text(
            (now - (head - block) * (block_ms / 1000)) as i64,
        ),
        text::starts(
            when_text(block, Some(prev), head, now, block_ms),
            when_text(block, None, head, now, block_ms),
        ),
        text::ends(
            when_text(block, Some(prev), head, now, block_ms),
            " (+"@ + human_text(((block - prev) * (block_ms / 1000)) as nat) + ")"@,
        ),
{
    let b = when_text(block, None, head, now, block_ms);
    let w = when_text(block, Some(prev), head, now, block_ms);
    let e = " (+"@ + human_text(((block - prev) * (block_ms / 1000)) as nat) + ")"@;
    assert(crate::activity::less(head as int, block as int) == head - block);
    assert(crate::activity::less(block as int, prev as int) == block - prev);
    assert(w =~= b + e);
    assert(w.subrange(0, b.len() as int) =~= b);
    assert(w.subrange(w.len() - e.len(), w.len() as int) =~= e);
}

/// A time that has a date is told by its minute, and any other by a blank.
pub proof fn a_time_without_a_date_is_blank(unix: i64)
    ensures
        outside::is_dated(unix) ==> hhmm_text(unix) == minute_text(unix as int),
        !outside::is_dated(unix) ==> hhmm_text(unix) == "--:--"@,
{
}

} // verus!
