//! Times as they are shown to the user.

use vstd::prelude::*;
use vstd::string::*;
use crate::ids::unix_now;
use crate::text::chars::{from_chars, push_text};
use crate::text::number::{decimal, show_u128, show_u64, value_of};

verus! {

/// The year, month and day, in UTC, of a time in nanoseconds of Unix time;
/// nothing for times beyond the calendar.
pub uninterp spec fn utc_date(nanos: i128) -> Option<(i32, u8, u8)>;

/// The date of a time: `time::OffsetDateTime::from_unix_timestamp_nanos` with
/// its `year`, `month` and `day`.
///
/// The claim: the date is a function of the time.
#[verifier::external_body]
pub(crate) fn date_of(nanos: i128) -> (r: Option<(i32, u8, u8)>)
    ensures
        r == utc_date(nanos),
{
    let t = time::OffsetDateTime::from_unix_timestamp_nanos(nanos).ok();
    t.map(|t| (t.year(), u8::from(t.month()), t.day()))
}

/// A numeral with zeros in front up to a width.
pub open spec fn zero_padded(digits: Seq<char>, width: int) -> Seq<char>
    decreases width - digits.len(),
{
    if digits.len() >= width {
        digits
    } else {
        zero_padded(seq!['0'] + digits, width)
    }
}

/// A date as year, month and day.
pub open spec fn shown_date(year: i32, month: u8, day: u8) -> Seq<char> {
    let y = if year < 0 {
        seq!['-'] + zero_padded(decimal((-year) as nat), 3)
    } else {
        zero_padded(decimal(year as nat), 4)
    };
    y + "-"@ + zero_padded(decimal(month as nat), 2) + "-"@ + zero_padded(
        decimal(day as nat),
        2,
    )
}

/// The year, month and day of a time where clocks are `offset` seconds ahead
/// of UTC: the date of the time that UTC has once its clocks show the same.
/// Nothing for times beyond the calendar.
pub open spec fn local_date(nanos: i128, offset: i32) -> Option<(i32, u8, u8)> {
    let local = nanos + offset * 1_000_000_000;
    if i128::MIN <= local <= i128::MAX {
        utc_date(local as i128)
    } else {
        None
    }
}

/// How long ago a time was: minutes, hours, days, and once a week has passed
/// the date, where clocks are `offset` seconds ahead of UTC.
pub open spec fn ago(now: i128, then: i128, offset: i32) -> Seq<char> {
    let secs = if now > then {
        (now - then) / 1_000_000_000
    } else {
        0
    };
    if secs < 60 {
        "刚刚"@
    } else if secs < 3_600 {
        decimal((secs / 60) as nat) + "m"@
    } else if secs < 86_400 {
        decimal((secs / 3_600) as nat) + "h"@
    } else if secs < 604_800 {
        decimal((secs / 86_400) as nat) + "d"@
    } else {
        match local_date(then, offset) {
            Some(d) => shown_date(d.0, d.1, d.2),
            None => Seq::empty(),
        }
    }
}

/// Puts zeros in front of a numeral up to a width.
fn pad(digits: String, width: usize) -> (r: String)
    ensures
        r@ == zero_padded(digits@, width as int),
{
    let mut s = digits;
    loop
        invariant
            zero_padded(digits@, width as int) == zero_padded(s@, width as int),
        ensures
            zero_padded(digits@, width as int) == s@,
        decreases width - s@.len(),
    {
        let n: usize = s.as_str().unicode_len();
        if n >= width {
            break ;
        }
        let mut longer: Vec<char> = Vec::new();
        longer.push('0');
        push_text(&mut longer, s.as_str());
        assert(longer@ == seq!['0'] + s@);
        s = from_chars(longer.as_slice());
    }
    s
}

/// A date as year, month and day.
pub fn show_date(year: i32, month: u8, day: u8) -> (r: String)
    ensures
        r@ == shown_date(year, month, day),
{
    let mut out: Vec<char> = Vec::new();
    if year < 0 {
        out.push('-');
        let y = pad(show_u64((-(year as i64)) as u64), 3);
        push_text(&mut out, y.as_str());
    } else {
        let y = pad(show_u64(year as u64), 4);
        push_text(&mut out, y.as_str());
    }
    push_text(&mut out, "-");
    let m = pad(show_u64(month as u64), 2);
    push_text(&mut out, m.as_str());
    push_text(&mut out, "-");
    let d = pad(show_u64(day as u64), 2);
    push_text(&mut out, d.as_str());
    assert(out@ == shown_date(year, month, day));
    from_chars(out.as_slice())
}

/// A number with a unit.
fn amount(n: u128, unit: &str) -> (r: String)
    ensures
        r@ == decimal(n as nat) + unit@,
{
    let mut s = show_u128(n);
    s.append(unit);
    s
}

/// The date of a time where clocks are `offset` seconds ahead of UTC.
fn local_date_of(nanos: i128, offset: i32) -> (r: Option<(i32, u8, u8)>)
    ensures
        r == local_date(nanos, offset),
{
    let ahead: i128 = offset as i128 * 1_000_000_000;
    match nanos.checked_add(ahead) {
        Some(local) => date_of(local),
        None => None,
    }
}

/// How long before `now` the time `then` was, which was taken where clocks
/// are `offset` seconds ahead of UTC.
pub fn relative_time_at(now: i128, then: i128, offset: i32) -> (r: String)
    ensures
        r@ == ago(now, then, offset),
{
    if now <= then {
        return "刚刚".to_owned();
    }
    let nanos: u128 = match now.checked_sub(then) {
        Some(d) => d as u128,
        None => i128::MAX as u128,
    };
    let secs: u128 = nanos / 1_000_000_000;
    if secs < 60 {
        "刚刚".to_owned()
    } else if secs < 3_600 {
        amount(secs / 60, "m")
    } else if secs < 86_400 {
        amount(secs / 3_600, "h")
    } else if secs < 604_800 {
        amount(secs / 86_400, "d")
    } else {
        match local_date_of(then, offset) {
            Some(d) => show_date(d.0, d.1, d.2),
            None => {
                let s = String::new();
                assert(s@ == Seq::<char>::empty());
                s
            },
        }
    }
}

/// How long ago the time `then` was, by the clock; it was taken where clocks
/// are `offset` seconds ahead of UTC.
pub fn relative_time(then: i128, offset: i32) -> (r: String)
    ensures
        exists|now: i128| r@ == #[trigger] ago(now, then, offset),
{
    let now: i128 = unix_now();
    relative_time_at(now, then, offset)
}

/// How long ago a time was is told in the largest unit of which at least one
/// has passed, rounded down: minutes, hours, days, and after a week the date.
pub proof fn age_is_told_in_its_largest_unit(
    now: i128,
    then: i128,
    offset: i32,
    secs: int,
    r: String,
)
    requires
        call_ensures(relative_time_at, (now, then, offset), r),
        secs * 1_000_000_000 <= now - then < (secs + 1) * 1_000_000_000,
    ensures
        secs < 60 ==> r@ == "刚刚"@,
        60 <= secs < 60 * 60 ==> exists|m: int|
            m * 60 <= secs < (m + 1) * 60 && r@ == #[trigger] decimal(m as nat) + "m"@,
        60 * 60 <= secs < 24 * 60 * 60 ==> exists|h: int|
            h * 3600 <= secs < (h + 1) * 3600 && r@ == #[trigger] decimal(h as nat) + "h"@,
        24 * 60 * 60 <= secs < 7 * 24 * 60 * 60 ==> exists|d: int|
            d * 86_400 <= secs < (d + 1) * 86_400 && r@ == #[trigger] decimal(d as nat) + "d"@,
{
    if secs >= 0 && now > then {
        assert((now - then) / 1_000_000_000 == secs) by (nonlinear_arith)
            requires
                secs * 1_000_000_000 <= now - then < (secs + 1) * 1_000_000_000,
        ;
        if 60 <= secs < 3600 {
            let m = secs / 60;
            assert(m * 60 <= secs < (m + 1) * 60 && r@ == decimal(m as nat) + "m"@);
        }
        if 3600 <= secs < 86_400 {
            let h = secs / 3600;
            assert(h * 3600 <= secs < (h + 1) * 3600 && r@ == decimal(h as nat) + "h"@);
        }
        if 86_400 <= secs < 604_800 {
            let d = secs / 86_400;
            assert(d * 86_400 <= secs < (d + 1) * 86_400 && r@ == decimal(d as nat) + "d"@);
        }
    }
}

/// A time more than a week ago is told as the date that clocks showed where it
/// was taken.
pub proof fn old_times_are_told_as_dates(
    now: i128,
    then: i128,
    offset: i32,
    date: (i32, u8, u8),
    shown: String,
    r: String,
)
    requires
        call_ensures(relative_time_at, (now, then, offset), r),
        now - then >= 604_800_000_000_000,
        i128::MIN <= then + offset * 1_000_000_000 <= i128::MAX,
        utc_date((then + offset * 1_000_000_000) as i128) == Some(date),
        call_ensures(show_date, (date.0, date.1, date.2), shown),
    ensures
        r@ == shown@,
{
}

proof fn lemma_padded(digits: Seq<char>, width: int)
    ensures
        zero_padded(digits, width).len() == if digits.len() < width {
            width
        } else {
            digits.len() as int
        },
        ({
            let k = zero_padded(digits, width).len() - digits.len();
            &&& k >= 0
            &&& zero_padded(digits, width).skip(k) == digits
            &&& forall|i: int| 0 <= i < k ==> #[trigger] zero_padded(digits, width)[i] == '0'
        }),
    decreases width - digits.len(),
{
    if digits.len() < width {
        let longer = seq!['0'] + digits;
        lemma_padded(longer, width);
        let all = zero_padded(longer, width);
        let k = all.len() - digits.len();
        assert(all.skip(k) == all.skip(k - 1).skip(1));
        assert(longer.skip(1) == digits);
        assert(all.skip(k - 1)[0] == all[k - 1]);
    } else {
        assert(digits.skip(0) == digits);
    }
}

/// A date is its year in four digits, its month in two and its day in two,
/// with hyphens between them.
pub proof fn date_is_year_month_day(year: i32, month: u8, day: u8, r: String)
    requires
        call_ensures(show_date, (year, month, day), r),
        0 <= year <= 9999,
        1 <= month <= 12,
        1 <= day <= 31,
    ensures
        r@.len() == 10,
        r@[4] == '-' && r@[7] == '-',
        value_of(r@.take(4)) == year,
        value_of(r@.subrange(5, 7)) == month,
        value_of(r@.subrange(8, 10)) == day,
{
    reveal_strlit("-");
    let y = decimal(year as nat);
    let m = decimal(month as nat);
    let d = decimal(day as nat);
    lemma_short_decimal(year as nat);
    lemma_short_decimal(month as nat);
    lemma_short_decimal(day as nat);
    lemma_padded(y, 4);
    lemma_padded(m, 2);
    lemma_padded(d, 2);
    lemma_padded_value(y, 4);
    lemma_padded_value(m, 2);
    lemma_padded_value(d, 2);
    assert(r@.take(4) == zero_padded(y, 4));
    assert(r@.subrange(5, 7) == zero_padded(m, 2));
    assert(r@.subrange(8, 10) == zero_padded(d, 2));
}

proof fn lemma_short_decimal(n: nat)
    ensures
        value_of(decimal(n)) == n,
        n < 10 ==> decimal(n).len() == 1,
        10 <= n < 100 ==> decimal(n).len() == 2,
        100 <= n < 1000 ==> decimal(n).len() == 3,
        1000 <= n < 10000 ==> decimal(n).len() == 4,
    decreases n,
{
    if n < 10 {
        assert(decimal(n).drop_last() == Seq::<char>::empty());
        assert(value_of(Seq::<char>::empty()) == 0);
    } else {
        lemma_short_decimal(n / 10);
        assert(decimal(n).drop_last() == decimal(n / 10));
    }
}

proof fn lemma_zero_in_front(digits: Seq<char>)
    ensures
        value_of(seq!['0'] + digits) == value_of(digits),
    decreases digits.len(),
{
    let all = seq!['0'] + digits;
    if digits.len() == 0 {
        assert(all.drop_last() == Seq::<char>::empty());
        assert(value_of(Seq::<char>::empty()) == 0);
        assert(digits == Seq::<char>::empty());
    } else {
        lemma_zero_in_front(digits.drop_last());
        assert(all.drop_last() == seq!['0'] + digits.drop_last());
    }
}

proof fn lemma_padded_value(digits: Seq<char>, width: int)
    ensures
        value_of(zero_padded(digits, width)) == value_of(digits),
    decreases width - digits.len(),
{
    if digits.len() < width {
        lemma_zero_in_front(digits);
        lemma_padded_value(seq!['0'] + digits, width);
    }
}

} // verus!
