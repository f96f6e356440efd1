//! Civil dates of the days since the Unix epoch.
//!
//! `civil_from_days` is Howard Hinnant's algorithm: days are counted from
//! 0000-03-01 in eras of 400 years (146097 days), and each year runs from
//! March to February, so that a leap day ends its year. The laws below tie
//! it to the calendar itself: day 0 is 1970-01-01, every day is a valid
//! date, and the day after any day is the next date.

use vstd::prelude::*;

verus! {

/// A leap year of the proleptic Gregorian calendar.
pub open spec fn is_leap(y: int) -> bool {
    (y % 4 == 0 && y % 100 != 0) || y % 400 == 0
}

/// The number of days of month `m` (1 to 12) of year `y`.
pub open spec fn month_len(y: int, m: int) -> int {
    if m == 2 {
        if is_leap(y) {
            29
        } else {
            28
        }
    } else if m == 4 || m == 6 || m == 9 || m == 11 {
        30
    } else {
        31
    }
}

/// `(year, month, day)` names a day of the calendar.
pub open spec fn valid_date(t: (int, int, int)) -> bool {
    1 <= t.1 <= 12 && 1 <= t.2 <= month_len(t.0, t.1)
}

/// The date after a date.
pub open spec fn next_day(t: (int, int, int)) -> (int, int, int) {
    if t.2 < month_len(t.0, t.1) {
        (t.0, t.1, t.2 + 1)
    } else if t.1 < 12 {
        (t.0, t.1 + 1, 1)
    } else {
        (t.0 + 1, 1, 1)
    }
}

/// The days of an era up to `doe`, counted as if every year had 365 days:
/// the leap days before `doe` are taken out.
pub open spec fn common_days(doe: int) -> int {
    doe - doe / 1460 + doe / 36524 - doe / 146096
}

/// The first day of year `yoe` of an era (years counted from March).
pub open spec fn year_start(yoe: int) -> int {
    365 * yoe + yoe / 4 - yoe / 100
}

/// The first day of month `mp` of a year counted from March.
pub open spec fn month_start(mp: int) -> int {
    (153 * mp + 2) / 5
}

/// The civil (proleptic Gregorian) date `(year, month, day)` of the day
/// `days` after 1970-01-01.
pub open spec fn civil_from_days(days: int) -> (int, int, int) {
    let z = days + 719468;
    let era = z / 146097;
    let doe = z - era * 146097;
    let yoe = common_days(doe) / 365;
    let doy = doe - year_start(yoe);
    let mp = (5 * doy + 2) / 153;
    let d = doy - month_start(mp) + 1;
    let m = if mp < 10 {
        mp + 3
    } else {
        mp - 9
    };
    (if m <= 2 {
        yoe + era * 400 + 1
    } else {
        yoe + era * 400
    }, m, d)
}

/// Year `yoe` of an era (counted from March) ends with a leap day: the
/// February it ends with belongs to a leap year.
pub open spec fn march_leap(yoe: int) -> bool {
    (yoe + 1) % 4 == 0 && ((yoe + 1) % 100 != 0 || (yoe + 1) % 400 == 0)
}

/// The number of days of year `yoe` of an era.
pub open spec fn year_len(yoe: int) -> int {
    if march_leap(yoe) {
        366
    } else {
        365
    }
}

/// The first day of a year, counted in common days, is 365 days per year.
proof fn lemma_year_start_common(y: int)
    requires
        0 <= y <= 399,
    ensures
        common_days(year_start(y)) == 365 * y,
{
    let q = y / 4;
    let c = y / 100;
    let t = y % 100;
    assert(y == 100 * c + t);
    assert(y / 4 == 25 * c + t / 4);
    let s = year_start(y);
    assert(s == 36524 * c + 365 * t + t / 4);
    assert(365 * t + t / 4 <= 36159);
    assert(s / 36524 == c);
    assert(s == 1460 * q + 365 * (y % 4) + q - c);
    assert(q >= c);
    assert(365 * (y % 4) + q - c < 1460);
    assert(s / 1460 == q);
    assert(s <= 145731);
    assert(s / 146096 == 0);
}

/// The last day of a year, counted in common days, falls in the year's 365.
proof fn lemma_year_end_common(y: int)
    requires
        0 <= y <= 399,
    ensures
        common_days(year_start(y) + year_len(y) - 1) <= 365 * y + 364,
{
    let q = y / 4;
    let r = y % 4;
    let c = y / 100;
    let t = y % 100;
    assert(y == 100 * c + t);
    assert(y / 4 == 25 * c + t / 4);
    let s = year_start(y);
    let l = year_len(y) - 365;
    let e = s + 364 + l;
    assert(s == 36524 * c + 365 * t + t / 4);
    assert(s == 1460 * q + 365 * r + q - c);
    assert(q >= c);
    if r <= 2 {
        assert(l == 0);
        assert(e / 1460 == q);
    } else {
        assert(1460 * (q + 1) <= e);
        assert(e < 1460 * (q + 2));
        assert(e / 1460 == q + 1);
    }
    if y == 399 {
        assert(e == 146096);
        assert(e / 36524 == 4);
        assert(e / 146096 == 1);
    } else {
        assert(365 * t + t / 4 + 364 + l < 36524);
        assert(e / 36524 == c);
        assert(e < 146096);
        assert(e / 146096 == 0);
    }
}

/// The years of an era follow each other without gap, and fill it.
proof fn lemma_year_next(y: int)
    requires
        0 <= y <= 399,
    ensures
        y < 399 ==> year_start(y) + year_len(y) == year_start(y + 1),
        y == 399 ==> year_start(y) + year_len(y) == 146097,
{
    assert((y + 1) / 4 - y / 4 == if (y + 1) % 4 == 0 { 1int } else { 0int });
    assert((y + 1) / 100 - y / 100 == if (y + 1) % 100 == 0 { 1int } else { 0int });
}

/// A later year of an era starts after an earlier one ends.
proof fn lemma_year_order(a: int, b: int)
    requires
        0 <= a < b <= 399,
    ensures
        year_start(b) >= year_start(a) + year_len(a),
    decreases b - a,
{
    lemma_year_next(a);
    if b > a + 1 {
        lemma_year_order(a + 1, b);
        lemma_year_next(a + 1);
    }
}

/// Counting common days never goes backwards within an era.
proof fn lemma_common_days_mono(a: int, b: int)
    requires
        0 <= a <= b <= 146096,
    ensures
        common_days(a) <= common_days(b),
{
    if b == a + 1 {
        if b == 146096 {
            assert(b / 1460 == a / 1460);
            assert(b / 36524 == 4 && a / 36524 == 3);
        } else {
            assert(b / 146096 == 0 && a / 146096 == 0);
            assert(b / 1460 - a / 1460 <= 1);
            assert(b / 36524 >= a / 36524);
        }
    } else if b >= a + 2 {
        assert(b / 1460 - a / 1460 <= (b - a) / 1460 + 1);
        assert((b - a) / 1460 + 1 <= b - a - 1);
        assert(b / 36524 >= a / 36524);
        assert(b / 146096 - a / 146096 <= 1);
    }
}

/// The year of an era that day `doe` of the era falls in: the one
/// `civil_from_days` takes, the only one that holds it.
proof fn lemma_year_of(doe: int)
    requires
        0 <= doe <= 146096,
    ensures
        0 <= common_days(doe) / 365 <= 399,
        year_start(common_days(doe) / 365) <= doe < year_start(common_days(doe) / 365) + year_len(
            common_days(doe) / 365,
        ),
{
    let k = common_days(doe) / 365;
    lemma_common_days_mono(0, doe);
    lemma_common_days_mono(doe, 146096);
    lemma_year_end_common(399);
    lemma_year_next(399);
    assert(common_days(doe) >= 0);
    assert(0 <= k <= 399);
    lemma_year_start_common(k);
    if doe < year_start(k) {
        assert(k >= 1);
        lemma_year_next(k - 1);
        lemma_year_end_common(k - 1);
        lemma_common_days_mono(doe, year_start(k - 1) + year_len(k - 1) - 1);
        assert(false);
    }
    if doe >= year_start(k) + year_len(k) {
        lemma_year_next(k);
        assert(k < 399);
        lemma_year_start_common(k + 1);
        lemma_year_next(k + 1);
        lemma_common_days_mono(year_start(k + 1), doe);
        assert(false);
    }
}

/// A day of an era falls in exactly one of its years.
proof fn lemma_year_unique(doe: int, y: int)
    requires
        0 <= y <= 399,
        year_start(y) <= doe < year_start(y) + year_len(y),
    ensures
        common_days(doe) / 365 == y,
{
    lemma_year_next(399);
    lemma_year_next(y);
    if y < 399 {
        lemma_year_order(y, 399);
    }
    assert(0 <= doe <= 146096) by {
        if y > 0 {
            lemma_year_order(0, y);
        }
    }
    lemma_year_of(doe);
    let k = common_days(doe) / 365;
    if k < y {
        lemma_year_order(k, y);
    } else if k > y {
        lemma_year_order(y, k);
    }
}

/// The calendar month of month `mp` of a year counted from March.
pub open spec fn month_of(mp: int) -> int {
    if mp < 10 {
        mp + 3
    } else {
        mp - 9
    }
}

/// The month of a year, counted from March, that day `doy` falls in: the one
/// `civil_from_days` takes.
proof fn lemma_month_of(doy: int)
    requires
        0 <= doy <= 365,
    ensures
        0 <= (5 * doy + 2) / 153 <= 11,
        month_start((5 * doy + 2) / 153) <= doy,
        (5 * doy + 2) / 153 < 11 ==> doy < month_start((5 * doy + 2) / 153 + 1),
{
    let mp = (5 * doy + 2) / 153;
    assert(153 * mp <= 5 * doy + 2 < 153 * mp + 153);
    assert((153 * mp + 2) / 5 <= doy);
    assert(doy < (153 * (mp + 1) + 2) / 5);
}

/// A day of a year falls in exactly one of its months.
proof fn lemma_month_unique(doy: int, k: int)
    requires
        0 <= k <= 11,
        month_start(k) <= doy < month_start(k + 1),
    ensures
        (5 * doy + 2) / 153 == k,
{
    assert(153 * k <= 5 * doy + 2 < 153 * k + 153);
}

/// Every month but February has a fixed length: the distance to the next
/// month's start.
proof fn lemma_month_length(mp: int, y: int)
    requires
        0 <= mp <= 10,
    ensures
        month_start(mp + 1) - month_start(mp) == month_len(y, month_of(mp)),
        month_start(11) == 337,
{
    if mp == 0 {
    } else if mp == 1 {
    } else if mp == 2 {
    } else if mp == 3 {
    } else if mp == 4 {
    } else if mp == 5 {
    } else if mp == 6 {
    } else if mp == 7 {
    } else if mp == 8 {
    } else if mp == 9 {
    } else {
    }
}

/// February of the year after year `yoe` of era `era` is a leap month
/// exactly when year `yoe` ends with a leap day.
proof fn lemma_leap_of(era: int, yoe: int)
    requires
        0 <= yoe <= 399,
    ensures
        is_leap(yoe + era * 400 + 1) == march_leap(yoe),
{
    let y = yoe + era * 400 + 1;
    assert(y == 4 * (era * 100) + (yoe + 1));
    vstd::arithmetic::div_mod::lemma_mod_multiples_vanish(era * 100, yoe + 1, 4);
    assert(y == 100 * (era * 4) + (yoe + 1));
    vstd::arithmetic::div_mod::lemma_mod_multiples_vanish(era * 4, yoe + 1, 100);
    assert(y == 400 * era + (yoe + 1));
    vstd::arithmetic::div_mod::lemma_mod_multiples_vanish(era, yoe + 1, 400);
}

/// Every day after the epoch has a valid date.
pub proof fn law_civil_dates_valid(days: int)
    requires
        days >= 0,
    ensures
        valid_date(civil_from_days(days)),
{
    let z = days + 719468;
    let era = z / 146097;
    let doe = z - era * 146097;
    lemma_year_of(doe);
    let yoe = common_days(doe) / 365;
    let doy = doe - year_start(yoe);
    lemma_month_of(doy);
    let mp = (5 * doy + 2) / 153;
    let t = civil_from_days(days);
    if mp < 11 {
        lemma_month_length(mp, t.0);
        assert(t.1 == month_of(mp));
    } else {
        lemma_month_length(0, t.0);
        lemma_leap_of(era, yoe);
        assert(t.1 == 2);
        assert(t.0 == yoe + era * 400 + 1);
    }
}

/// Day 0 is 1970-01-01.
pub proof fn law_epoch_date()
    ensures
        civil_from_days(0) == (1970int, 1int, 1int),
{
    assert(719468int / 146097 == 4);
    assert(common_days(135080) == 134991);
    assert(134991int / 365 == 369);
    assert(year_start(369) == 134774);
    assert((5 * 306 + 2) / 153 == 10int);
    assert(month_start(10) == 306);
}

/// The day after any day after the epoch has the next date.
pub proof fn law_days_advance(days: int)
    requires
        days >= 0,
    ensures
        civil_from_days(days + 1) == next_day(civil_from_days(days)),
{
    let z = days + 719468;
    let era = z / 146097;
    let doe = z - era * 146097;
    lemma_year_of(doe);
    let yoe = common_days(doe) / 365;
    let doy = doe - year_start(yoe);
    lemma_month_of(doy);
    let mp = (5 * doy + 2) / 153;
    let d = doy - month_start(mp) + 1;
    let t = civil_from_days(days);
    let u = civil_from_days(days + 1);
    lemma_leap_of(era, yoe);
    lemma_month_length(0, t.0);
    if doe < 146096 {
        assert((z + 1) / 146097 == era);
        assert(z + 1 - era * 146097 == doe + 1);
        if doy + 1 < year_len(yoe) {
            lemma_year_unique(doe + 1, yoe);
            let mp2 = (5 * (doy + 1) + 2) / 153;
            if mp == 11 {
                lemma_month_unique(doy + 1, 11);
                assert(mp2 == 11);
                assert(u == (t.0, t.1, t.2 + 1));
            } else if doy + 1 < month_start(mp + 1) {
                lemma_month_unique(doy + 1, mp);
                lemma_month_length(mp, t.0);
                assert(mp2 == mp);
                assert(u == (t.0, t.1, t.2 + 1));
            } else {
                lemma_month_length(mp, t.0);
                if mp + 1 < 11 {
                    lemma_month_length(mp + 1, t.0);
                }
                lemma_month_unique(doy + 1, mp + 1);
                assert(mp2 == mp + 1);
                assert(d == month_len(t.0, t.1));
            }
        } else {
            assert(yoe < 399) by {
                lemma_year_next(399);
                if yoe == 399 {
                    assert(doe == 146096);
                }
            }
            lemma_year_next(yoe);
            lemma_year_unique(doe + 1, yoe + 1);
            lemma_month_unique(doy, 11);
            assert(mp == 11);
            assert((5 * 0 + 2) / 153 == 0int);
            assert(month_start(0) == 0);
            assert(u == (t.0, 3int, 1int));
        }
    } else {
        assert((z + 1) / 146097 == era + 1);
        assert(z + 1 - (era + 1) * 146097 == 0);
        lemma_year_unique(146096, 399);
        assert(yoe == 399);
        assert(year_start(399) == 145731);
        assert(doy == 365);
        lemma_month_unique(365, 11);
        assert(common_days(0) == 0);
        assert(year_start(0) == 0);
        assert((5 * 0 + 2) / 153 == 0int);
        assert(month_start(0) == 0);
        assert(u == (t.0, 3int, 1int));
    }
}

/// `(year, month, day)` dates in calendar order.
pub open spec fn date_lt(a: (int, int, int), b: (int, int, int)) -> bool {
    a.0 < b.0 || (a.0 == b.0 && (a.1 < b.1 || (a.1 == b.1 && a.2 < b.2)))
}

/// A later day after the epoch has a later date.
pub proof fn law_dates_increase(d1: int, d2: int)
    requires
        0 <= d1 < d2,
    ensures
        date_lt(civil_from_days(d1), civil_from_days(d2)),
    decreases d2 - d1,
{
    law_days_advance(d1);
    if d2 > d1 + 1 {
        law_dates_increase(d1 + 1, d2);
    }
}

/// Before 10000-01-01 (day 2932897) the year has at most four digits.
pub proof fn lemma_year_range(days: int)
    requires
        0 <= days < 2932897,
    ensures
        0 <= civil_from_days(days).0 <= 9999,
{
    let z = days + 719468;
    let era = z / 146097;
    let doe = z - era * 146097;
    assert(4 <= era <= 24);
    lemma_year_of(doe);
    let yoe = common_days(doe) / 365;
    let doy = doe - year_start(yoe);
    lemma_month_of(doy);
    let mp = (5 * doy + 2) / 153;
    if era == 24 && yoe == 399 {
        assert(year_start(399) == 145731);
        assert(doe <= 146036);
        assert(doy <= 305);
        if mp >= 10 {
            assert(month_start(10) == 306);
            assert(month_start(11) == 337);
        }
        assert(mp < 10);
    }
}

} // verus!
