//! Reading the subset of ISO-8601 instants that latency projections need.

use vstd::prelude::*;
use crate::text::{chars_of, parse_i32, parse_unsigned, signed_value, unsigned_value};

verus! {

/// The position of the first occurrence of a character, or the length of the text.
pub open spec fn find(s: Seq<char>, c: char) -> int
    decreases s.len(),
{
    if s.len() == 0 || s[0] == c {
        0
    } else {
        1 + find(s.skip(1), c)
    }
}

/// What `find` returns is the first occurrence.
pub proof fn lemma_find(s: Seq<char>, c: char, i: int)
    requires
        0 <= i <= s.len(),
        forall|j: int| 0 <= j < i ==> s[j] != c,
        i == s.len() || s[i] == c,
    ensures
        find(s, c) == i,
    decreases s.len(),
{
    if i > 0 {
        assert forall|j: int| 0 <= j < i - 1 implies s.skip(1)[j] != c by {
            assert(s[j + 1] != c);
        }
        lemma_find(s.skip(1), c, i - 1);
    }
}

/// The part with a given position among the parts that a separator divides a text into.
pub open spec fn part(s: Seq<char>, separator: char, position: nat) -> Option<Seq<char>>
    decreases position,
{
    let i = find(s, separator);
    if position == 0 {
        Some(s.take(i))
    } else if i < s.len() {
        part(s.skip(i + 1), separator, (position - 1) as nat)
    } else {
        None
    }
}

/// The first occurrence of a character from one position up to another, or the end.
pub fn find_char(chars: &Vec<char>, from: usize, to: usize, c: char) -> (r: usize)
    requires
        from <= to <= chars.len(),
    ensures
        from <= r <= to,
        r - from == find(chars@.subrange(from as int, to as int), c),
        r < to ==> chars@[r as int] == c,
        forall|j: int| from <= j < r ==> chars@[j] != c,
{
    let mut i: usize = from;
    while i < to
        invariant_except_break
            forall|j: int| from <= j < i ==> chars@[j] != c,
        invariant
            from <= i <= to <= chars.len(),
        ensures
            forall|j: int| from <= j < i ==> chars@[j] != c,
            i == to || chars@[i as int] == c,
        decreases to - i,
    {
        if chars[i] == c {
            break;
        }
        i += 1;
    }
    proof {
        lemma_find(chars@.subrange(from as int, to as int), c, i - from);
    }
    i
}

/// Where the part with a given position stands.
pub fn part_range(chars: &Vec<char>, from: usize, to: usize, separator: char, position: usize) -> (r: Option<(usize, usize)>)
    requires
        from <= to <= chars.len(),
    ensures
        match r {
            Some((a, b)) => {
                &&& from <= a <= b <= to
                &&& part(chars@.subrange(from as int, to as int), separator, position as nat) == Some(
                    chars@.subrange(a as int, b as int),
                )
            },
            None => part(chars@.subrange(from as int, to as int), separator, position as nat) is None,
        },
    decreases position,
{
    let i: usize = find_char(chars, from, to, separator);
    let ghost s = chars@.subrange(from as int, to as int);
    if position == 0 {
        assert(s.take(i - from) =~= chars@.subrange(from as int, i as int));
        Some((from, i))
    } else if i < to {
        assert(s.skip(i - from + 1) =~= chars@.subrange(i + 1, to as int));
        part_range(chars, i + 1, to, separator, position - 1)
    } else {
        None
    }
}

/// Days from the epoch to a date of the proleptic Gregorian calendar.
pub open spec fn civil_days(year: int, month: int, day: int) -> Option<int> {
    if 1 <= month <= 12 && 1 <= day <= 31 {
        let y = if month <= 2 {
            year - 1
        } else {
            year
        };
        let era = y / 400;
        let yoe = y % 400;
        let doy = (153 * (if month > 2 {
            month - 3
        } else {
            month + 9
        }) + 2) / 5 + day - 1;
        let doe = yoe * 365 + yoe / 4 - yoe / 100 + doy;
        Some(era * 146097 + doe - 719468)
    } else {
        None
    }
}

/// Days from the epoch to a date written as year, month and day.
pub open spec fn date_days(date: Seq<char>) -> Option<int> {
    match (part(date, '-', 0), part(date, '-', 1), part(date, '-', 2)) {
        (Some(y), Some(m), Some(d)) => match (signed_value(y), unsigned_value(m), unsigned_value(d)) {
            (Some(year), Some(month), Some(day)) => if i32::MIN <= year <= i32::MAX && month <= u32::MAX && day
                <= u32::MAX {
                civil_days(year, month as int, day as int)
            } else {
                None
            },
            _ => None,
        },
        _ => None,
    }
}

/// Milliseconds of a fraction of a second, of which at most three places are given: so many
/// tenths, hundredths or thousandths as it has digits.
pub open spec fn fraction_millis(places: Seq<char>) -> Option<nat> {
    let digits = if places.len() > 0 && places[0] == '+' {
        places.len() - 1
    } else {
        places.len() as int
    };
    match unsigned_value(places) {
        Some(value) => if digits == 1 {
            Some(value * 100)
        } else if digits == 2 {
            Some(value * 10)
        } else {
            Some(value)
        },
        None => None,
    }
}

/// Seconds, and the milliseconds in the first three places of their fraction.
pub open spec fn second_parts(s: Seq<char>) -> Option<(nat, nat)> {
    let dot = find(s, '.');
    if dot < s.len() {
        let fraction = s.skip(dot + 1);
        let places = if fraction.len() < 3 {
            fraction
        } else {
            fraction.take(3)
        };
        match (unsigned_value(s.take(dot)), fraction_millis(places)) {
            (Some(second), Some(millis)) => if second <= u32::MAX {
                Some((second, millis))
            } else {
                None
            },
            _ => None,
        }
    } else {
        match unsigned_value(s) {
            Some(second) => if second <= u32::MAX {
                Some((second, 0))
            } else {
                None
            },
            None => None,
        }
    }
}

/// Seconds into the day and milliseconds of a time written as hour, minute and second.
pub open spec fn time_parts(time: Seq<char>) -> Option<(nat, nat)> {
    match (part(time, ':', 0), part(time, ':', 1), part(time, ':', 2)) {
        (Some(h), Some(m), Some(s)) => match (unsigned_value(h), unsigned_value(m), second_parts(s)) {
            (Some(hour), Some(minute), Some((second, millis))) => if hour <= u32::MAX && minute <= u32::MAX {
                Some((hour * 3600 + minute * 60 + second, millis))
            } else {
                None
            },
            _ => None,
        },
        _ => None,
    }
}

/// Milliseconds from the epoch to an instant written as a date, `T`, a time and `Z`.
pub open spec fn epoch_millis(s: Seq<char>) -> Option<nat> {
    if s.len() > 0 && s.last() == 'Z' {
        let rest = s.drop_last();
        let t = find(rest, 'T');
        if t < rest.len() {
            match (date_days(rest.take(t)), time_parts(rest.skip(t + 1))) {
                (Some(days), Some((seconds, millis))) => {
                    let total = (days * 86400 + seconds) * 1000 + millis;
                    if days * 86400 + seconds >= 0 && total <= u64::MAX {
                        Some(total as nat)
                    } else {
                        None
                    }
                },
                _ => None,
            }
        } else {
            None
        }
    } else {
        None
    }
}

/// Milliseconds from one instant to a later one; zero if the second is not later or if
/// one of the two cannot be read.
pub open spec fn duration_between(start: Seq<char>, end: Seq<char>) -> u64 {
    match (epoch_millis(start), epoch_millis(end)) {
        (Some(a), Some(b)) => if a <= b {
            (b - a) as u64
        } else {
            0
        },
        _ => 0,
    }
}

/// Days from the epoch to a date of the proleptic Gregorian calendar.
pub fn days_from_civil(year: i32, month: u32, day: u32) -> (r: Option<i64>)
    ensures
        match r {
            Some(days) => civil_days(year as int, month as int, day as int) == Some(days as int) && -800000000000
                <= days <= 800000000000,
            None => civil_days(year as int, month as int, day as int) is None,
        },
{
    if month < 1 || month > 12 || day < 1 || day > 31 {
        return None;
    }
    let y: i64 = if month <= 2 {
        year as i64 - 1
    } else {
        year as i64
    };
    let era: i64 = if y >= 0 {
        y / 400
    } else {
        0 - ((0 - y) + 399) / 400
    };
    let yoe: i64 = y - era * 400;
    assert(era == y as int / 400 && yoe == y as int % 400) by (nonlinear_arith)
        requires
            yoe == y - era * 400,
            y >= 0 ==> era == y as int / 400,
            y < 0 ==> era == 0 - ((0 - y) + 399) as int / 400,
    ;
    let m: i64 = month as i64;
    let shifted: i64 = if m > 2 {
        m - 3
    } else {
        m + 9
    };
    let doy: i64 = (153 * shifted + 2) / 5 + day as i64 - 1;
    let doe: i64 = yoe * 365 + yoe / 4 - yoe / 100 + doy;
    Some(era * 146097 + doe - 719468)
}

/// Milliseconds of a fraction of a second.
fn parse_fraction(chars: &Vec<char>, from: usize, to: usize) -> (r: Option<u64>)
    requires
        from <= to <= chars.len(),
        to - from <= 3,
    ensures
        match r {
            Some(millis) => fraction_millis(chars@.subrange(from as int, to as int)) == Some(millis as nat) && millis
                <= 999,
            None => fraction_millis(chars@.subrange(from as int, to as int)) is None,
        },
{
    let ghost places = chars@.subrange(from as int, to as int);
    proof {
        lemma_three_places(places);
    }
    let value: u64 = match parse_unsigned(chars, from, to, u64::MAX) {
        Some(value) => value,
        None => {
            return None;
        },
    };
    let digits: usize = if from < to && chars[from] == '+' {
        to - from - 1
    } else {
        to - from
    };
    if digits == 1 {
        Some(value * 100)
    } else if digits == 2 {
        Some(value * 10)
    } else {
        Some(value)
    }
}

/// Seconds and milliseconds of the seconds part of a time.
fn parse_second_millis(chars: &Vec<char>, from: usize, to: usize) -> (r: Option<(u32, u64)>)
    requires
        from <= to <= chars.len(),
    ensures
        match r {
            Some((second, millis)) => second_parts(chars@.subrange(from as int, to as int)) == Some(
                (second as nat, millis as nat),
            ),
            None => second_parts(chars@.subrange(from as int, to as int)) is None,
        },
        r matches Some((_, millis)) ==> millis <= 999,
{
    let ghost s = chars@.subrange(from as int, to as int);
    let dot: usize = find_char(chars, from, to, '.');
    if dot < to {
        let end: usize = if to - (dot + 1) < 3 {
            to
        } else {
            dot + 4
        };
        proof {
            assert(s.take(dot - from) =~= chars@.subrange(from as int, dot as int));
            let fraction = s.skip(dot - from + 1);
            if fraction.len() < 3 {
                assert(fraction =~= chars@.subrange(dot + 1, end as int));
            } else {
                assert(fraction.take(3) =~= chars@.subrange(dot + 1, end as int));
            }
        }
        match (parse_unsigned(chars, from, dot, u32::MAX as u64), parse_fraction(chars, dot + 1, end)) {
            (Some(second), Some(millis)) => Some((second as u32, millis)),
            _ => None,
        }
    } else {
        match parse_unsigned(chars, from, to, u32::MAX as u64) {
            Some(second) => Some((second as u32, 0)),
            None => None,
        }
    }
}

proof fn lemma_three_digits(s: Seq<char>)
    requires
        s.len() <= 3,
        forall|i: int| 0 <= i < s.len() ==> crate::text::is_digit(#[trigger] s[i]),
    ensures
        crate::text::digits_value(s) <= 999,
        s.len() <= 2 ==> crate::text::digits_value(s) <= 99,
        s.len() <= 1 ==> crate::text::digits_value(s) <= 9,
{
    reveal_with_fuel(crate::text::digits_value, 4);
    if s.len() > 0 {
        assert(crate::text::is_digit(s[s.len() - 1]));
    }
    if s.len() > 1 {
        assert(crate::text::is_digit(s[s.len() - 2]));
        assert(s.drop_last().last() == s[s.len() - 2]);
    }
    if s.len() > 2 {
        assert(crate::text::is_digit(s[s.len() - 3]));
        assert(s.drop_last().drop_last().last() == s[s.len() - 3]);
    }
}

proof fn lemma_three_places(s: Seq<char>)
    requires
        s.len() <= 3,
    ensures
        unsigned_value(s) matches Some(n) ==> n <= 999,
        fraction_millis(s) matches Some(n) ==> n <= 999,
{
    if unsigned_value(s) is Some {
        if s.len() > 0 && s[0] == '+' {
            lemma_three_digits(s.skip(1));
        } else {
            lemma_three_digits(s);
        }
    }
}

fn parse_date(chars: &Vec<char>, from: usize, to: usize) -> (r: Option<i64>)
    requires
        from <= to <= chars.len(),
    ensures
        match r {
            Some(days) => date_days(chars@.subrange(from as int, to as int)) == Some(days as int) && -800000000000
                <= days <= 800000000000,
            None => date_days(chars@.subrange(from as int, to as int)) is None,
        },
{
    match (
        part_range(chars, from, to, '-', 0),
        part_range(chars, from, to, '-', 1),
        part_range(chars, from, to, '-', 2),
    ) {
        (Some((ya, yb)), Some((ma, mb)), Some((da, db))) => {
            match (
                parse_i32(chars, ya, yb),
                parse_unsigned(chars, ma, mb, u32::MAX as u64),
                parse_unsigned(chars, da, db, u32::MAX as u64),
            ) {
                (Some(year), Some(month), Some(day)) => days_from_civil(year, month as u32, day as u32),
                _ => None,
            }
        },
        _ => None,
    }
}

fn parse_time(chars: &Vec<char>, from: usize, to: usize) -> (r: Option<(i64, u64)>)
    requires
        from <= to <= chars.len(),
    ensures
        match r {
            Some((seconds, millis)) => time_parts(chars@.subrange(from as int, to as int)) == Some(
                (seconds as nat, millis as nat),
            ) && 0 <= seconds <= 20000000000000 && millis <= 999,
            None => time_parts(chars@.subrange(from as int, to as int)) is None,
        },
{
    match (
        part_range(chars, from, to, ':', 0),
        part_range(chars, from, to, ':', 1),
        part_range(chars, from, to, ':', 2),
    ) {
        (Some((ha, hb)), Some((ma, mb)), Some((sa, sb))) => {
            match (
                parse_unsigned(chars, ha, hb, u32::MAX as u64),
                parse_unsigned(chars, ma, mb, u32::MAX as u64),
                parse_second_millis(chars, sa, sb),
            ) {
                (Some(hour), Some(minute), Some((second, millis))) => Some(
                    (hour as i64 * 3600 + minute as i64 * 60 + second as i64, millis),
                ),
                _ => None,
            }
        },
        _ => None,
    }
}

/// Milliseconds from the epoch to an instant.
pub fn parse_epoch_millis(timestamp: &str) -> (r: Option<u64>)
    ensures
        match r {
            Some(n) => epoch_millis(timestamp@) == Some(n as nat),
            None => epoch_millis(timestamp@) is None,
        },
{
    let chars = chars_of(timestamp);
    let len: usize = chars.len();
    if len == 0 || chars[len - 1] != 'Z' {
        return None;
    }
    let end: usize = len - 1;
    let ghost rest = timestamp@.drop_last();
    assert(rest =~= chars@.subrange(0, end as int));
    let t: usize = find_char(&chars, 0, end, 'T');
    if t == end {
        return None;
    }
    assert(rest.take(t as int) =~= chars@.subrange(0, t as int));
    assert(rest.skip(t + 1) =~= chars@.subrange(t + 1, end as int));
    match (parse_date(&chars, 0, t), parse_time(&chars, t + 1, end)) {
        (Some(days), Some((seconds, millis))) => {
            let total: i64 = days * 86400 + seconds;
            if total < 0 {
                return None;
            }
            match (total as u64).checked_mul(1000) {
                Some(scaled) => scaled.checked_add(millis),
                None => None,
            }
        },
        _ => None,
    }
}

/// Milliseconds from one instant to a later one.
pub fn saturating_duration(start: &str, end: &str) -> (r: u64)
    ensures
        r == duration_between(start@, end@),
{
    match (parse_epoch_millis(start), parse_epoch_millis(end)) {
        (Some(a), Some(b)) => b.saturating_sub(a),
        _ => 0,
    }
}

// ---------------------------------------------------------------------------
// Laws
// ---------------------------------------------------------------------------

/// The duration between two instants is the difference of their milliseconds; it is zero
/// where the second is the earlier one or where one of them cannot be read.
pub proof fn law_durations(start: Seq<char>, end: Seq<char>)
    ensures
        epoch_millis(start) matches Some(a) ==> epoch_millis(end) matches Some(b) ==> {
            &&& a <= b ==> duration_between(start, end) == b - a
            &&& a > b ==> duration_between(start, end) == 0
        },
        epoch_millis(start) is None || epoch_millis(end) is None ==> duration_between(start, end) == 0,
        epoch_millis(start) matches Some(a) ==> a <= u64::MAX,
{
}

/// The days before the first of March in the 400 years that a year lies in, counted in years
/// that begin in March.
spec fn days_of_years(y: int) -> int {
    (y / 400) * 146097 + (y % 400) * 365 + (y % 400) / 4 - (y % 400) / 100
}

proof fn lemma_quotient(n: int, d: int, q: int, r: int)
    requires
        d > 0,
        n == q * d + r,
        0 <= r < d,
    ensures
        n / d == q,
        n % d == r,
{
    vstd::arithmetic::div_mod::lemma_fundamental_div_mod_converse(n, d, q, r);
}

proof fn lemma_next_quotients(q: int)
    requires
        0 <= q,
    ensures
        (q + 1) % 4 == 0 ==> (q + 1) / 4 == q / 4 + 1,
        (q + 1) % 4 != 0 ==> (q + 1) / 4 == q / 4,
        (q + 1) % 100 == 0 ==> (q + 1) / 100 == q / 100 + 1 && (q + 1) % 4 == 0,
        (q + 1) % 100 != 0 ==> (q + 1) / 100 == q / 100,
{
    let n = q + 1;
    if n % 4 == 0 {
        lemma_quotient(q, 4, n / 4 - 1, 3);
    } else {
        lemma_quotient(q, 4, n / 4, n % 4 - 1);
    }
    if n % 100 == 0 {
        lemma_quotient(q, 100, n / 100 - 1, 99);
        lemma_quotient(n, 4, 25 * (n / 100), 0);
    } else {
        lemma_quotient(q, 100, n / 100, n % 100 - 1);
    }
}

proof fn lemma_year_length(year: int)
    ensures
        year % 4 == 0 && (year % 100 != 0 || year % 400 == 0) ==> days_of_years(year) - days_of_years(year - 1) == 366,
        !(year % 4 == 0 && (year % 100 != 0 || year % 400 == 0)) ==> days_of_years(year) - days_of_years(year - 1)
            == 365,
{
    let era = (year - 1) / 400;
    let q = (year - 1) % 400;
    let n = q + 1;
    if q == 399 {
        lemma_quotient(year, 400, era + 1, 0);
        lemma_quotient(year, 4, 100 * (era + 1), 0);
    } else {
        lemma_quotient(year, 400, era, n);
        lemma_quotient(year, 4, 100 * era + n / 4, n % 4);
        lemma_quotient(year, 100, 4 * era + n / 100, n % 100);
        lemma_next_quotients(q);
    }
}

/// The days of a date count from the first of January 1970: the next day of a month is one
/// more, the first of the next month comes after the last day of this one, and February has
/// a day more in a leap year. There are twelve months, of at most thirty-one days.
pub proof fn law_days_follow_the_calendar(year: int, month: int, day: int)
    ensures
        civil_days(1970, 1, 1) == Some(0int),
        civil_days(year, month, day) is Some <==> 1 <= month <= 12 && 1 <= day <= 31,
        1 <= month <= 12 && 1 <= day <= 30 ==> civil_days(year, month, day + 1)->0 == civil_days(year, month, day)->0 + 1,
        month == 1 || month == 3 || month == 5 || month == 7 || month == 8 || month == 10 ==> civil_days(
            year,
            month + 1,
            1,
        )->0 == civil_days(year, month, 1)->0 + 31,
        month == 4 || month == 6 || month == 9 || month == 11 ==> civil_days(year, month + 1, 1)->0 == civil_days(
            year,
            month,
            1,
        )->0 + 30,
        month == 2 && year % 4 == 0 && (year % 100 != 0 || year % 400 == 0) ==> civil_days(year, 3, 1)->0
            == civil_days(year, 2, 1)->0 + 29,
        month == 2 && !(year % 4 == 0 && (year % 100 != 0 || year % 400 == 0)) ==> civil_days(year, 3, 1)->0
            == civil_days(year, 2, 1)->0 + 28,
        civil_days(year + 1, 1, 1)->0 == civil_days(year, 12, 1)->0 + 31,
{
    if month == 2 {
        lemma_year_length(year);
        assert(civil_days(year, 3, 1)->0 == days_of_years(year) - 719468);
        assert(civil_days(year, 2, 1)->0 == days_of_years(year - 1) + 337 - 719468);
    }
}

/// A character that does not stand in a text.
spec fn lacks(s: Seq<char>, c: char) -> bool {
    forall|i: int| 0 <= i < s.len() ==> #[trigger] s[i] != c
}

proof fn lemma_parts(a: Seq<char>, c: char, b: Seq<char>)
    requires
        lacks(a, c),
    ensures
        find(a, c) == a.len(),
        find(a + seq![c] + b, c) == a.len(),
        part(a, c, 0) == Some(a),
        part(a + seq![c] + b, c, 0) == Some(a),
        forall|n: nat| #[trigger] part(a + seq![c] + b, c, n + 1) == part(b, c, n),
{
    let whole = a + seq![c] + b;
    lemma_find(a, c, a.len() as int);
    assert forall|j: int| 0 <= j < a.len() implies whole[j] != c by {
        assert(whole[j] == a[j]);
    }
    lemma_find(whole, c, a.len() as int);
    assert(whole.take(a.len() as int) =~= a);
    assert(a.take(a.len() as int) =~= a);
    assert(whole.skip(a.len() as int + 1) =~= b);
}

proof fn lemma_digits_lack(s: Seq<char>, c: char)
    requires
        crate::text::all_digits(s),
        !crate::text::is_digit(c),
    ensures
        lacks(s, c),
{
    assert forall|i: int| 0 <= i < s.len() implies #[trigger] s[i] != c by {
        assert(crate::text::is_digit(s[i]));
    }
}

proof fn lemma_lacks_joined(a: Seq<char>, x: char, b: Seq<char>, c: char)
    requires
        lacks(a, c),
        lacks(b, c),
        x != c,
    ensures
        lacks(a + seq![x] + b, c),
{
    let whole = a + seq![x] + b;
    assert forall|i: int| 0 <= i < whole.len() implies #[trigger] whole[i] != c by {
        if i < a.len() {
            assert(whole[i] == a[i]);
        } else if i > a.len() {
            assert(whole[i] == b[i - a.len() - 1]);
        }
    }
}

proof fn lemma_three(a: Seq<char>, b: Seq<char>, c: Seq<char>, x: char)
    requires
        lacks(a, x),
        lacks(b, x),
        lacks(c, x),
    ensures
        part(a + seq![x] + (b + seq![x] + c), x, 0) == Some(a),
        part(a + seq![x] + (b + seq![x] + c), x, 1) == Some(b),
        part(a + seq![x] + (b + seq![x] + c), x, 2) == Some(c),
{
    let tail = b + seq![x] + c;
    lemma_parts(a, x, tail);
    lemma_parts(b, x, c);
    lemma_parts(c, x, Seq::empty());
    assert(part(a + seq![x] + tail, x, (0 + 1) as nat) == part(tail, x, 0));
    assert(part(a + seq![x] + tail, x, (1 + 1) as nat) == part(tail, x, 1));
    assert(part(tail, x, (0 + 1) as nat) == part(c, x, 0));
}

/// A date and a time of day with whole seconds, in digits, are the seconds of the days
/// before the date and of the hours, minutes and seconds of the time, times a thousand. The
/// separators are `-`, `T`, `:` and a final `Z`.
pub proof fn law_instants_are_read(
    year: Seq<char>,
    month: Seq<char>,
    day: Seq<char>,
    hour: Seq<char>,
    minute: Seq<char>,
    second: Seq<char>,
)
    requires
        crate::text::all_digits(year) && unsigned_value(year)->0 <= i32::MAX,
        crate::text::all_digits(month) && 1 <= unsigned_value(month)->0 <= 12,
        crate::text::all_digits(day) && 1 <= unsigned_value(day)->0 <= 31,
        crate::text::all_digits(hour) && unsigned_value(hour)->0 <= u32::MAX,
        crate::text::all_digits(minute) && unsigned_value(minute)->0 <= u32::MAX,
        crate::text::all_digits(second) && unsigned_value(second)->0 <= u32::MAX,
    ensures
        ({
            let days = civil_days(
                unsigned_value(year)->0 as int,
                unsigned_value(month)->0 as int,
                unsigned_value(day)->0 as int,
            )->0;
            let seconds = days * 86400 + unsigned_value(hour)->0 * 3600 + unsigned_value(minute)->0 * 60
                + unsigned_value(second)->0;
            let text = year + seq!['-'] + (month + seq!['-'] + day) + seq!['T'] + (hour + seq![':'] + (minute + seq![':']
                + second)) + seq!['Z'];
            &&& 0 <= seconds && seconds * 1000 <= u64::MAX ==> epoch_millis(text) == Some((seconds * 1000) as nat)
            &&& !(0 <= seconds && seconds * 1000 <= u64::MAX) ==> epoch_millis(text) is None
            &&& epoch_millis(text.drop_last()) is None
        }),
{
    let date = year + seq!['-'] + (month + seq!['-'] + day);
    let time = hour + seq![':'] + (minute + seq![':'] + second);
    let rest = date + seq!['T'] + time;
    let text = rest + seq!['Z'];
    lemma_digits_lack(year, '-');
    lemma_digits_lack(month, '-');
    lemma_digits_lack(day, '-');
    lemma_digits_lack(hour, ':');
    lemma_digits_lack(minute, ':');
    lemma_digits_lack(second, ':');
    lemma_digits_lack(second, '.');
    lemma_three(year, month, day, '-');
    lemma_three(hour, minute, second, ':');
    lemma_parts(second, '.', Seq::empty());
    lemma_digits_lack(year, 'T');
    lemma_digits_lack(month, 'T');
    lemma_digits_lack(day, 'T');
    lemma_lacks_joined(month, '-', day, 'T');
    lemma_lacks_joined(year, '-', month + seq!['-'] + day, 'T');
    lemma_parts(date, 'T', time);
    assert(text.last() == 'Z');
    assert(text.drop_last() =~= rest);
    assert(rest.take(date.len() as int) =~= date);
    assert(rest.skip(date.len() as int + 1) =~= time);
    assert(crate::text::is_digit(year[0]) && year[0] != '-');
    assert(crate::text::is_digit(second[second.len() - 1]));
    assert(rest.last() == second.last());
    assert(second_parts(second) == Some((unsigned_value(second)->0, 0nat)));
}

/// A fraction of a second counts by its first three places: one place in hundreds of
/// milliseconds, two in tens, three or more in ones.
pub proof fn law_fractions_are_read(second: Seq<char>, places: Seq<char>)
    requires
        crate::text::all_digits(second) && unsigned_value(second)->0 <= u32::MAX,
        crate::text::all_digits(places),
    ensures
        ({
            let read = second_parts(second + seq!['.'] + places);
            &&& read matches Some((whole, millis))
            &&& whole == unsigned_value(second)->0
            &&& places.len() == 1 ==> millis == 100 * unsigned_value(places)->0
            &&& places.len() == 2 ==> millis == 10 * unsigned_value(places)->0
            &&& places.len() >= 3 ==> millis == unsigned_value(places.take(3))->0
        }),
{
    lemma_digits_lack(second, '.');
    lemma_parts(second, '.', places);
    let whole = second + seq!['.'] + places;
    assert(whole.take(second.len() as int) =~= second);
    assert(whole.skip(second.len() as int + 1) =~= places);
    assert(crate::text::is_digit(places[0]));
    if places.len() >= 3 {
        let three = places.take(3);
        assert forall|i: int| 0 <= i < three.len() implies crate::text::is_digit(#[trigger] three[i]) by {
            assert(three[i] == places[i]);
        }
    }
}

} // verus!
