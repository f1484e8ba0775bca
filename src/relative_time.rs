//! Coarse "time ago" labels and digit counting for aligned columns.

use vstd::prelude::*;
use crate::text::{chars_of, decimal, push_all, push_decimal, string_of};

verus! {

pub const SECONDS_PER_MINUTE: u64 = 60;
pub const MINUTES_PER_HOUR: u64 = 60;
pub const HOURS_PER_DAY: u64 = 24;
pub const DAYS_PER_WEEK: u64 = 7;
pub const DAYS_PER_MONTH: u64 = 30;
pub const MONTHS_PER_YEAR: u64 = 12;

/// "<n> <unit>", with an "s" after the unit unless `n` is one.
pub open spec fn plural_text(unit: Seq<char>, n: nat) -> Seq<char> {
    decimal(n) + seq![' '] + unit + if n == 1 {
        Seq::<char>::empty()
    } else {
        seq!['s']
    }
}

/// The label for a commit made at `timestamp`, seen at `now` (both in seconds
/// since the epoch): "now" for the present or the future, else the count of
/// the largest unit that fits in the elapsed time.
pub open spec fn relative_text(timestamp: nat, now: nat) -> Seq<char> {
    if timestamp >= now {
        "now"@
    } else {
        let secs = (now - timestamp) as nat;
        let mins = secs / SECONDS_PER_MINUTE as nat;
        let hours = mins / MINUTES_PER_HOUR as nat;
        let days = hours / HOURS_PER_DAY as nat;
        let months = days / DAYS_PER_MONTH as nat;
        if secs < SECONDS_PER_MINUTE {
            plural_text("sec"@, secs)
        } else if mins < MINUTES_PER_HOUR {
            plural_text("min"@, mins)
        } else if hours < HOURS_PER_DAY {
            plural_text("hour"@, hours)
        } else if days < DAYS_PER_WEEK {
            plural_text("day"@, days)
        } else if days < DAYS_PER_MONTH {
            plural_text("week"@, days / DAYS_PER_WEEK as nat)
        } else if months < MONTHS_PER_YEAR {
            plural_text("month"@, months)
        } else {
            plural_text("year"@, months / MONTHS_PER_YEAR as nat)
        }
    }
}

/// Writes `n` followed by `s`, pluralised with a trailing "s" unless `n` is one.
pub fn plural(s: &str, n: u64) -> (r: String)
    ensures
        r@ == plural_text(s@, n as nat),
        n == 1 ==> r@ == seq!['1', ' '] + s@,
        n != 1 ==> r@ == decimal(n as nat) + seq![' '] + s@ + seq!['s'],
{
    let mut out: Vec<char> = Vec::new();
    push_decimal(&mut out, n);
    out.push(' ');
    let unit = chars_of(s);
    push_all(&mut out, unit.as_slice());
    if n != 1 {
        out.push('s');
    }
    proof {
        if n == 1 {
            assert(decimal(1) =~= seq!['1']);
        }
    }
    assert(out@ =~= plural_text(s@, n as nat));
    string_of(out.as_slice())
}

/// The label for a commit made at `timestamp`, seen at `now`.
pub fn relative_label(timestamp: u64, now: u64) -> (r: String)
    ensures
        r@ == relative_text(timestamp as nat, now as nat),
{
    if timestamp >= now {
        return "now".to_string();
    }
    let secs = now - timestamp;
    if secs < SECONDS_PER_MINUTE {
        return plural("sec", secs);
    }
    let mins = secs / SECONDS_PER_MINUTE;
    if mins < MINUTES_PER_HOUR {
        return plural("min", mins);
    }
    let hours = mins / MINUTES_PER_HOUR;
    if hours < HOURS_PER_DAY {
        return plural("hour", hours);
    }
    let days = hours / HOURS_PER_DAY;
    if days < DAYS_PER_WEEK {
        return plural("day", days);
    }
    if days < DAYS_PER_MONTH {
        return plural("week", days / DAYS_PER_WEEK);
    }
    let months = days / DAYS_PER_MONTH;
    if months < MONTHS_PER_YEAR {
        return plural("month", months);
    }
    plural("year", months / MONTHS_PER_YEAR)
}

/// Relies on `SystemTime::elapsed` taken from the Unix epoch: the time from
/// the epoch to the present, in whole seconds, or `None` when the clock stands
/// before the epoch. Nothing is known of the value: it depends on the clock.
#[verifier::external_body]
fn seconds_since_epoch() -> (r: Option<u64>) {
    std::time::UNIX_EPOCH.elapsed().ok().map(|d| d.as_secs())
}

/// The label for a commit made at `timestamp`, seen from the system clock.
/// A clock that stands before the epoch counts as the epoch itself.
pub fn epoch_to_relative_str(timestamp: u64) -> (r: String)
    ensures
        exists|now: nat| r@ == relative_text(timestamp as nat, now),
{
    let now = match seconds_since_epoch() {
        Some(s) => s,
        None => 0,
    };
    relative_label(timestamp, now)
}

/// How many base-ten digits `n` is written with.
pub fn count_digits(n: usize) -> (r: usize)
    ensures
        r == decimal(n as nat).len(),
{
    proof {
        lemma_decimal_len_step(n as nat);
    }
    if n <= 9 {
        1
    } else if n <= 99 {
        proof {
            lemma_decimal_len_step(n as nat / 10);
        }
        2
    } else {
        proof {
            lemma_decimal_len_bound(n as nat);
        }
        let mut m: usize = n;
        let mut i: usize = 0;
        while m > 0
            invariant
                decimal(n as nat).len() <= n,
                m > 0 ==> i + decimal(m as nat).len() == decimal(n as nat).len(),
                m == 0 ==> i == decimal(n as nat).len(),
            decreases m,
        {
            proof {
                lemma_decimal_len_step(m as nat);
            }
            m = m / 10;
            i = i + 1;
        }
        i
    }
}

/// The label of a commit made `ago` seconds before `now` counts the largest
/// unit that fits in `ago`: seconds below a minute, minutes below an hour,
/// hours below a day, days below a week, weeks below thirty days, months of
/// thirty days below twelve of them, and years of twelve such months beyond.
pub proof fn lemma_relative_units(ago: nat, now: nat)
    requires
        ago <= now,
    ensures
        ago == 0 ==> relative_text((now - ago) as nat, now) == "now"@,
        0 < ago < 60 ==> relative_text((now - ago) as nat, now) == plural_text("sec"@, ago),
        60 <= ago < 3600 ==> relative_text((now - ago) as nat, now) == plural_text(
            "min"@,
            ago / 60,
        ),
        3600 <= ago < 86400 ==> relative_text((now - ago) as nat, now) == plural_text(
            "hour"@,
            ago / 3600,
        ),
        86400 <= ago < 604800 ==> relative_text((now - ago) as nat, now) == plural_text(
            "day"@,
            ago / 86400,
        ),
        604800 <= ago < 2592000 ==> relative_text((now - ago) as nat, now) == plural_text(
            "week"@,
            ago / 604800,
        ),
        2592000 <= ago < 31104000 ==> relative_text((now - ago) as nat, now) == plural_text(
            "month"@,
            ago / 2592000,
        ),
        31104000 <= ago ==> relative_text((now - ago) as nat, now) == plural_text(
            "year"@,
            ago / 31104000,
        ),
{
    let x = ago as int;
    vstd::arithmetic::div_mod::lemma_div_denominator(x, 60, 60);
    vstd::arithmetic::div_mod::lemma_div_denominator(x, 3600, 24);
    vstd::arithmetic::div_mod::lemma_div_denominator(x, 86400, 7);
    vstd::arithmetic::div_mod::lemma_div_denominator(x, 86400, 30);
    vstd::arithmetic::div_mod::lemma_div_denominator(x, 2592000, 12);
    assert(x / 60 / 60 / 24 == x / 86400);
    assert(x / 60 / 60 / 24 / 7 == x / 604800);
    assert(x / 60 / 60 / 24 / 30 == x / 2592000);
    assert(x / 60 / 60 / 24 / 30 / 12 == x / 31104000);
}

/// A number takes no more digits than its value (and fewer from two on).
pub proof fn lemma_decimal_len_bound(n: nat)
    requires
        n >= 1,
    ensures
        decimal(n).len() <= n,
        n >= 2 ==> decimal(n).len() < n,
    decreases n,
{
    if n >= 10 {
        lemma_decimal_len_bound(n / 10);
    }
}

proof fn lemma_decimal_len_step(n: nat)
    ensures
        n < 10 ==> decimal(n).len() == 1,
        n >= 10 ==> decimal(n).len() == decimal(n / 10).len() + 1,
{
}

} // verus!
