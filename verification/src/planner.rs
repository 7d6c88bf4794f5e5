//! The planner's task model (shared by the Today / Week / Month views) and the
//! date helpers those views need. Tasks are owned, editable runtime state (in
//! memory, like the travel demo) so the views support CRUD.

use vstd::prelude::*;
use crate::format::{dec, push_decimal, two_digits};
use crate::text::push_char;
use chrono::Datelike;

verus! {

/// A calendar date of the proleptic Gregorian calendar.
#[derive(Clone, Copy, Debug, PartialEq, Eq, Hash, Structural)]
pub struct Date {
    pub year: i32,
    /// 1 to 12.
    pub month: u32,
    /// 1 to the length of the month.
    pub day: u32,
}

/// The earliest year a date can have (`chrono`'s range).
pub open spec fn min_year() -> int {
    -262143
}

/// The latest year a date can have (`chrono`'s range).
pub open spec fn max_year() -> int {
    262142
}

/// Is `y` a leap year of the Gregorian calendar?
pub open spec fn is_leap(y: int) -> bool {
    (y % 4 == 0 && y % 100 != 0) || y % 400 == 0
}

/// The number of days of month `m` of year `y`.
pub open spec fn days_in_month(y: int, m: int) -> int {
    if m == 2 {
        if is_leap(y) {
            29
        } else {
            28
        }
    } else if m == 4 || m == 6 || m == 9 || m == 11 {
        30
    } else {
        31
    }
}

/// Does `d` name a day of the calendar, within the supported years?
pub open spec fn is_valid_date(d: Date) -> bool {
    &&& min_year() <= d.year <= max_year()
    &&& 1 <= d.month <= 12
    &&& 1 <= d.day <= days_in_month(d.year as int, d.month as int)
}

/// The number of days from 1970-01-01 to a date of the proleptic Gregorian
/// calendar (negative before it): whole 400-year eras, then the years, months
/// (counted from March) and days within the era.
#[verifier::opaque]
pub open spec fn day_number(y: int, m: int, d: int) -> int {
    let yy = if m <= 2 { y - 1 } else { y };
    let era = yy / 400;
    let yoe = yy - era * 400;
    let mp = (m + 9) % 12;
    let doy = (153 * mp + 2) / 5 + d - 1;
    let doe = yoe * 365 + yoe / 4 - yoe / 100 + doy;
    era * 146097 + doe - 719468
}

/// The day number of a date.
pub open spec fn date_number(d: Date) -> int {
    day_number(d.year as int, d.month as int, d.day as int)
}

/// The weekday of a date, counted from Monday = 0 (`num_days_from_monday`):
/// 1970-01-01 was a Thursday.
pub open spec fn weekday_number(y: i32, m: u32, d: u32) -> u32 {
    ((day_number(y as int, m as int, d as int) + 3) % 7) as u32
}

/// The date `n` days after (or, negative, before) a date, when chrono can hold
/// it (`checked_add_days` / `checked_sub_days`): the shift fits in `i32` and the
/// date with that day number lies within the supported years.
pub open spec fn calendar_shift(y: i32, m: u32, d: u32, n: int) -> Option<(i32, u32, u32)> {
    let target = day_number(y as int, m as int, d as int) + n;
    if -0x7fff_ffff <= n <= 0x7fff_ffff && exists|t: Date| #[trigger] is_valid_date(t) && date_number(t) == target {
        let t = choose|t: Date| #[trigger] is_valid_date(t) && date_number(t) == target;
        Some((t.year, t.month, t.day))
    } else {
        None
    }
}

/// A shifted date is a valid date whose day number is `n` further on.
pub proof fn lemma_shifted_number(x: Date, n: int)
    ensures
        shifted(x, n) matches Some(t) ==> is_valid_date(t) && date_number(t) == date_number(x) + n,
{
}

/// The date a shift result names.
pub open spec fn shifted(d: Date, n: int) -> Option<Date> {
    match calendar_shift(d.year, d.month, d.day, n) {
        Some(t) => Some(Date { year: t.0, month: t.1, day: t.2 }),
        None => None,
    }
}

/// Calls `chrono::NaiveDate::from_ymd_opt(..).weekday().num_days_from_monday()`.
/// `from_ymd_opt` succeeds on every date `is_valid_date` admits (a month in
/// range, a day in the month, a year in chrono's range). Claims: the weekday is
/// below 7 and is `weekday_number`, the weekday of the proleptic Gregorian
/// calendar that chrono counts in.
#[verifier::external_body]
fn weekday_from_monday(d: Date) -> (r: u32)
    requires
        is_valid_date(d),
    ensures
        r < 7,
        r == weekday_number(d.year, d.month, d.day),
{
    chrono::NaiveDate::from_ymd_opt(d.year, d.month, d.day).unwrap().weekday().num_days_from_monday()
}

/// Calls `chrono::NaiveDate::checked_add_days`. Claims: the result is
/// `calendar_shift` by `n` days (chrono refuses more than `i32::MAX` days and
/// dates past its range, and a day number names one date), and a date it returns is a valid date (chrono
/// builds no other); a zero shift gives the date back (`add_days` keeps the
/// ordinal), and going back `n` days from a result lands on the date again
/// (dates are a count of days).
#[verifier::external_body]
fn add_days(d: Date, n: u64) -> (r: Option<Date>)
    requires
        is_valid_date(d),
    ensures
        calendar_shift(d.year, d.month, d.day, n as int) == (match r {
            Some(x) => Some((x.year, x.month, x.day)),
            None => None,
        }),
        r matches Some(x) ==> is_valid_date(x),
        n == 0 ==> r == Some(d),
        r matches Some(x) ==> calendar_shift(x.year, x.month, x.day, -(n as int)) == Some((d.year, d.month, d.day)),
{
    chrono::NaiveDate::from_ymd_opt(d.year, d.month, d.day).unwrap().checked_add_days(
        chrono::Days::new(n),
    ).map(|x| Date { year: x.year(), month: x.month(), day: x.day() })
}

/// Calls `chrono::NaiveDate::checked_sub_days`. Claims: the result is
/// `calendar_shift` by `-n` days, and a date it returns is a valid date; a zero
/// shift gives the date back, and going forward `n` days from a result lands on
/// the date again.
#[verifier::external_body]
fn sub_days(d: Date, n: u64) -> (r: Option<Date>)
    requires
        is_valid_date(d),
    ensures
        calendar_shift(d.year, d.month, d.day, -(n as int)) == (match r {
            Some(x) => Some((x.year, x.month, x.day)),
            None => None,
        }),
        r matches Some(x) ==> is_valid_date(x),
        n == 0 ==> r == Some(d),
        r matches Some(x) ==> calendar_shift(x.year, x.month, x.day, n as int) == Some((d.year, d.month, d.day)),
{
    chrono::NaiveDate::from_ymd_opt(d.year, d.month, d.day).unwrap().checked_sub_days(
        chrono::Days::new(n),
    ).map(|x| Date { year: x.year(), month: x.month(), day: x.day() })
}

/// The number of days of a month (exec form).
pub fn month_length(y: i32, m: u32) -> (r: u32)
    requires
        1 <= m <= 12,
    ensures
        r == days_in_month(y as int, m as int),
{
    if m == 2 {
        if (y % 4 == 0 && y % 100 != 0) || y % 400 == 0 {
            29
        } else {
            28
        }
    } else if m == 4 || m == 6 || m == 9 || m == 11 {
        30
    } else {
        31
    }
}

impl Date {
    /// The date `year-month-day`, if it exists in the calendar (`from_ymd_opt`).
    pub fn from_ymd(year: i32, month: u32, day: u32) -> (r: Option<Date>)
        ensures
            r matches Some(d) ==> d == (Date { year, month, day }),
            r is Some <==> is_valid_date((Date { year, month, day })),
    {
        if year < -262143 || year > 262142 || month < 1 || month > 12 {
            return None;
        }
        if day < 1 || day > month_length(year, month) {
            return None;
        }
        Some(Date { year, month, day })
    }

    /// Weekday, Monday = 0.
    pub fn weekday(&self) -> (r: u32)
        requires
            is_valid_date(*self),
        ensures
            r < 7,
            r == weekday_number(self.year, self.month, self.day),
    {
        weekday_from_monday(*self)
    }

    /// The date `n` days later, if in range.
    pub fn checked_add_days(&self, n: u64) -> (r: Option<Date>)
        requires
            is_valid_date(*self),
        ensures
            r == shifted(*self, n as int),
            r matches Some(x) ==> is_valid_date(x),
            n == 0 ==> r == Some(*self),
            r matches Some(x) ==> shifted(x, -(n as int)) == Some(*self),
    {
        add_days(*self, n)
    }

    /// The date `n` days earlier, if in range.
    pub fn checked_sub_days(&self, n: u64) -> (r: Option<Date>)
        requires
            is_valid_date(*self),
        ensures
            r == shifted(*self, -(n as int)),
            r matches Some(x) ==> is_valid_date(x),
            n == 0 ==> r == Some(*self),
            r matches Some(x) ==> shifted(x, n as int) == Some(*self),
    {
        sub_days(*self, n)
    }
}

/// A dated to-do item shown on the planner.
#[derive(Clone, Debug)]
pub struct Task {
    pub id: u64,
    pub date: Date,
    pub text: String,
    pub done: bool,
}

/// `d` moved by `offset` days, or `d` itself when that leaves the range.
pub open spec fn offset_or_same(d: Date, offset: int) -> Date {
    match shifted(d, offset) {
        Some(x) => x,
        None => d,
    }
}

fn offset_date(today: Date, offset: i64) -> (r: Date)
    requires
        is_valid_date(today),
        -1000 <= offset <= 1000,
    ensures
        r == offset_or_same(today, offset as int),
        is_valid_date(r),
        offset == 0 ==> r == today,
{
    let moved = if offset >= 0 {
        today.checked_add_days(offset as u64)
    } else {
        today.checked_sub_days((-offset) as u64)
    };
    match moved {
        Some(d) => d,
        None => today,
    }
}

fn task(id: u64, today: Date, offset: i64, text: &str, done: bool) -> (t: Task)
    requires
        is_valid_date(today),
        -1000 <= offset <= 1000,
    ensures
        t.id == id,
        t.date == offset_or_same(today, offset as int),
        offset == 0 ==> t.date == today,
        t.text@ == text@,
        t.done == done,
{
    Task { id, date: offset_date(today, offset), text: String::from_str(text), done }
}

/// The seed tasks' day offsets from today, in order.
pub open spec fn seed_offsets() -> Seq<int> {
    seq![0, 0, 0, 1, 2, 4, -1]
}

/// The seed tasks' texts, in order.
pub open spec fn seed_texts() -> Seq<&'static str> {
    seq![
        "send draft to Ana",
        "book dentist",
        "morning run — 5k",
        "review Kyoto itinerary",
        "weekly review",
        "ship draft",
        "pay rent",
    ]
}

/// Which seed tasks start out done, in order.
pub open spec fn seed_done() -> Seq<bool> {
    seq![false, false, true, false, false, false, true]
}

/// Are `r` the seed tasks around `today`: ids 1 to 7, dated by `seed_offsets`,
/// with the texts of `seed_texts` and the done flags of `seed_done`?
pub open spec fn is_seed_tasks(r: Seq<Task>, today: Date) -> bool {
    &&& r.len() == 7
    &&& forall|i: int| 0 <= i < 7 ==> #[trigger] r[i].id == i + 1 && r[i].date == offset_or_same(
        today,
        seed_offsets()[i],
    ) && r[i].text@ == seed_texts()[i]@ && r[i].done == seed_done()[i]
}

/// Seed a handful of tasks around `today` so the views aren't empty on first run:
/// ids 1 to 7, dated by `seed_offsets` (three of them today), with the texts of
/// `seed_texts` and the done flags of `seed_done`.
pub fn initial_tasks(today: Date) -> (r: Vec<Task>)
    requires
        is_valid_date(today),
    ensures
        r.len() == 7,
        forall|i: int| 0 <= i < 7 ==> #[trigger] r@[i].id == i + 1 && r@[i].date == offset_or_same(
            today,
            seed_offsets()[i],
        ) && r@[i].text@ == seed_texts()[i]@ && r@[i].done == seed_done()[i],
        is_seed_tasks(r@, today),
        r@[0].date == today && r@[1].date == today && r@[2].date == today,
        forall|i: int|
            0 <= i < 7 && #[trigger] shifted(today, seed_offsets()[i]) is Some ==> date_number(r@[i].date)
                == date_number(today) + seed_offsets()[i],
        forall|i: int| 3 <= i < 7 && #[trigger] shifted(today, seed_offsets()[i]) is Some ==> r@[i].date != today,
{
    let r = vec![
        task(1, today, 0, "send draft to Ana", false),
        task(2, today, 0, "book dentist", false),
        task(3, today, 0, "morning run — 5k", true),
        task(4, today, 1, "review Kyoto itinerary", false),
        task(5, today, 2, "weekly review", false),
        task(6, today, 4, "ship draft", false),
        task(7, today, -1, "pay rent", true),
    ];
    proof {
        assert forall|i: int|
            0 <= i < 7 && #[trigger] shifted(today, seed_offsets()[i]) is Some implies date_number(r@[i].date)
                == date_number(today) + seed_offsets()[i] by {
            lemma_shifted_number(today, seed_offsets()[i]);
        }
        assert forall|i: int| 3 <= i < 7 && #[trigger] shifted(today, seed_offsets()[i]) is Some implies r@[i].date
            != today by {
            lemma_shifted_number(today, seed_offsets()[i]);
            assert(seed_offsets()[i] != 0);
        }
    }
    r
}

/// The week of `date`: its Monday (`weekday` days back), then the next six days.
pub open spec fn week_days(date: Date) -> Seq<Date> {
    let monday = offset_or_same(date, -(weekday_number(date.year, date.month, date.day) as int));
    Seq::new(7, |i: int| offset_or_same(monday, i))
}

/// The seven days of the week containing `date`, Monday first.
pub fn week_of(date: Date) -> (r: [Date; 7])
    requires
        is_valid_date(date),
    ensures
        r@ == week_days(date),
        r@.contains(date),
        shifted(date, -(weekday_number(date.year, date.month, date.day) as int)) is Some ==> {
            &&& weekday_number(r@[0].year, r@[0].month, r@[0].day) == 0
            &&& forall|i: int|
                0 <= i < 7 && #[trigger] shifted(r@[0], i) is Some ==> date_number(r@[i]) == date_number(r@[0]) + i
        },
{
    let back = date.weekday();
    let found = date.checked_sub_days(back as u64);
    let monday = match found {
        Some(d) => d,
        None => date,
    };
    let r = [
        offset_date(monday, 0),
        offset_date(monday, 1),
        offset_date(monday, 2),
        offset_date(monday, 3),
        offset_date(monday, 4),
        offset_date(monday, 5),
        offset_date(monday, 6),
    ];
    assert(r@ =~= week_days(date));
    proof {
        if found is Some {
            assert(offset_or_same(monday, back as int) == date);
            assert(r@[back as int] == date);
            lemma_shifted_number(date, -(back as int));
            let a = date_number(date) + 3;
            assert(back == a % 7);
            assert(r@[0] == monday);
            assert((date_number(monday) + 3) % 7 == 0);
            assert forall|i: int| 0 <= i < 7 && #[trigger] shifted(r@[0], i) is Some implies date_number(r@[i])
                == date_number(r@[0]) + i by {
                lemma_shifted_number(monday, i);
            }
        } else {
            assert(r@[0] == date);
        }
    }
    r
}

/// The cell of month grid position `k` (row-major, Monday first): the day of the
/// month it shows, or `None` for padding before day 1 or after the last day.
pub open spec fn grid_cell(y: i32, m: u32, lead: int, k: int) -> Option<Date> {
    let n = k - lead + 1;
    if 1 <= n <= days_in_month(y as int, m as int) {
        Some(Date { year: y, month: m, day: n as u32 })
    } else {
        None
    }
}

/// The calendar grid (weeks × 7) covering `date`'s month; `None` = padding cell
/// from an adjacent month. The first day sits under its weekday; there are just
/// enough rows for the last day.
pub fn month_grid(date: Date) -> (r: Vec<[Option<Date>; 7]>)
    requires
        is_valid_date(date),
    ensures
        ({
            let first = Date { year: date.year, month: date.month, day: 1 };
            let lead = weekday_number(first.year, first.month, first.day) as int;
            let cells = lead + days_in_month(date.year as int, date.month as int);
            &&& r.len() == (cells + 6) / 7
            &&& forall|w: int, c: int|
                0 <= w < r.len() && 0 <= c < 7 ==> #[trigger] r@[w]@[c] == grid_cell(
                    date.year,
                    date.month,
                    lead,
                    7 * w + c,
                )
        }),
{
    let first = Date { year: date.year, month: date.month, day: 1 };
    let lead = first.weekday() as usize;
    let dim = month_length(date.year, date.month) as usize;
    let ghost cells = lead + dim;
    let mut weeks: Vec<[Option<Date>; 7]> = Vec::new();
    let mut w: usize = 0;
    while 7 * w < lead + dim
        invariant
            lead < 7,
            28 <= dim <= 31,
            dim == days_in_month(date.year as int, date.month as int),
            lead == weekday_number(date.year, date.month, 1),
            weeks.len() == w,
            7 * w < lead + dim + 7,
            forall|a: int, c: int|
                0 <= a < w && 0 <= c < 7 ==> #[trigger] weeks@[a]@[c] == grid_cell(
                    date.year,
                    date.month,
                    lead as int,
                    7 * a + c,
                ),
        decreases lead + dim + 7 - 7 * w,
    {
        let mut row: [Option<Date>; 7] = [None, None, None, None, None, None, None];
        let mut c: usize = 0;
        while c < 7
            invariant
                c <= 7,
                w <= 6,
                lead < 7,
                dim == days_in_month(date.year as int, date.month as int),
                forall|b: int| 0 <= b < c ==> #[trigger] row@[b] == grid_cell(
                    date.year,
                    date.month,
                    lead as int,
                    7 * w + b,
                ),
                forall|b: int| c <= b < 7 ==> #[trigger] row@[b] is None,
            decreases 7 - c,
        {
            let k = 7 * w + c;
            if k + 1 > lead && k + 1 - lead <= dim {
                row.set(c, Some(Date { year: date.year, month: date.month, day: (k + 1 - lead) as u32 }));
            }
            c += 1;
        }
        weeks.push(row);
        w += 1;
    }
    weeks
}

/// The English name of month `m` (1 = January).
pub open spec fn month_name(m: int) -> Seq<char> {
    if m == 1 {
        "January"@
    } else if m == 2 {
        "February"@
    } else if m == 3 {
        "March"@
    } else if m == 4 {
        "April"@
    } else if m == 5 {
        "May"@
    } else if m == 6 {
        "June"@
    } else if m == 7 {
        "July"@
    } else if m == 8 {
        "August"@
    } else if m == 9 {
        "September"@
    } else if m == 10 {
        "October"@
    } else if m == 11 {
        "November"@
    } else {
        "December"@
    }
}

/// The three-letter name of month `m`.
pub open spec fn month_abbr(m: int) -> Seq<char> {
    if m == 1 {
        "Jan"@
    } else if m == 2 {
        "Feb"@
    } else if m == 3 {
        "Mar"@
    } else if m == 4 {
        "Apr"@
    } else if m == 5 {
        "May"@
    } else if m == 6 {
        "Jun"@
    } else if m == 7 {
        "Jul"@
    } else if m == 8 {
        "Aug"@
    } else if m == 9 {
        "Sep"@
    } else if m == 10 {
        "Oct"@
    } else if m == 11 {
        "Nov"@
    } else {
        "Dec"@
    }
}

/// The three-letter name of weekday `w` (Monday = 0).
pub open spec fn weekday_abbr(w: int) -> Seq<char> {
    if w == 0 {
        "Mon"@
    } else if w == 1 {
        "Tue"@
    } else if w == 2 {
        "Wed"@
    } else if w == 3 {
        "Thu"@
    } else if w == 4 {
        "Fri"@
    } else if w == 5 {
        "Sat"@
    } else {
        "Sun"@
    }
}

/// The English month names, January first.
pub open spec fn english_months() -> Seq<Seq<char>> {
    seq![
        "January"@,
        "February"@,
        "March"@,
        "April"@,
        "May"@,
        "June"@,
        "July"@,
        "August"@,
        "September"@,
        "October"@,
        "November"@,
        "December"@,
    ]
}

/// No two months share a name.
proof fn lemma_month_name_injective(m: int, n: int)
    requires
        1 <= m <= 12,
        1 <= n <= 12,
    ensures
        m != n ==> month_name(m) != month_name(n),
{
    reveal_strlit("January");
    reveal_strlit("February");
    reveal_strlit("March");
    reveal_strlit("April");
    reveal_strlit("May");
    reveal_strlit("June");
    reveal_strlit("July");
    reveal_strlit("August");
    reveal_strlit("September");
    reveal_strlit("October");
    reveal_strlit("November");
    reveal_strlit("December");
    reveal_strlit("Jan");
    reveal_strlit("Feb");
    reveal_strlit("Mar");
    reveal_strlit("Apr");
    reveal_strlit("Jun");
    reveal_strlit("Jul");
    reveal_strlit("Aug");
    reveal_strlit("Sep");
    reveal_strlit("Oct");
    reveal_strlit("Nov");
    reveal_strlit("Dec");
    let a = month_name(m);
    let b = month_name(n);
    if m != n && a == b {
        assert(a.len() == b.len());
        assert(a[0] == b[0]);
        assert(a[1] == b[1]);
        assert(a[2] == b[2]);
    }
}

/// Month `m` (1 to 12) is named by the `m`-th English month name; no two
/// months share a name; the three-letter name is the full name's first three
/// letters; and the months named April, June, September and November are
/// exactly those of 30 days, February exactly the one of fewer.
pub proof fn lemma_month_names(y: int, m: int, n: int)
    requires
        1 <= m <= 12,
        1 <= n <= 12,
    ensures
        month_name(m) == english_months()[m - 1],
        m != n ==> month_name(m) != month_name(n),
        month_abbr(m) == month_name(m).take(3),
        (days_in_month(y, m) == 30) <==> (month_name(m) == "April"@ || month_name(m) == "June"@ || month_name(m)
            == "September"@ || month_name(m) == "November"@),
        (days_in_month(y, m) < 30) <==> month_name(m) == "February"@,
{
    reveal_strlit("January");
    reveal_strlit("February");
    reveal_strlit("March");
    reveal_strlit("April");
    reveal_strlit("May");
    reveal_strlit("June");
    reveal_strlit("July");
    reveal_strlit("August");
    reveal_strlit("September");
    reveal_strlit("October");
    reveal_strlit("November");
    reveal_strlit("December");
    reveal_strlit("Jan");
    reveal_strlit("Feb");
    reveal_strlit("Mar");
    reveal_strlit("Apr");
    reveal_strlit("Jun");
    reveal_strlit("Jul");
    reveal_strlit("Aug");
    reveal_strlit("Sep");
    reveal_strlit("Oct");
    reveal_strlit("Nov");
    reveal_strlit("Dec");
    lemma_month_name_injective(m, n);
    lemma_month_name_injective(m, 2);
    lemma_month_name_injective(m, 4);
    lemma_month_name_injective(m, 6);
    lemma_month_name_injective(m, 9);
    lemma_month_name_injective(m, 11);
    assert(month_abbr(m) == month_name(m).take(3));
}

fn month_name_str(m: u32) -> (r: &'static str)
    ensures
        r@ == month_name(m as int),
{
    if m == 1 {
        "January"
    } else if m == 2 {
        "February"
    } else if m == 3 {
        "March"
    } else if m == 4 {
        "April"
    } else if m == 5 {
        "May"
    } else if m == 6 {
        "June"
    } else if m == 7 {
        "July"
    } else if m == 8 {
        "August"
    } else if m == 9 {
        "September"
    } else if m == 10 {
        "October"
    } else if m == 11 {
        "November"
    } else {
        "December"
    }
}

fn month_abbr_str(m: u32) -> (r: &'static str)
    ensures
        r@ == month_abbr(m as int),
{
    if m == 1 {
        "Jan"
    } else if m == 2 {
        "Feb"
    } else if m == 3 {
        "Mar"
    } else if m == 4 {
        "Apr"
    } else if m == 5 {
        "May"
    } else if m == 6 {
        "Jun"
    } else if m == 7 {
        "Jul"
    } else if m == 8 {
        "Aug"
    } else if m == 9 {
        "Sep"
    } else if m == 10 {
        "Oct"
    } else if m == 11 {
        "Nov"
    } else {
        "Dec"
    }
}

fn weekday_abbr_str(w: u32) -> (r: &'static str)
    ensures
        r@ == weekday_abbr(w as int),
{
    if w == 0 {
        "Mon"
    } else if w == 1 {
        "Tue"
    } else if w == 2 {
        "Wed"
    } else if w == 3 {
        "Thu"
    } else if w == 4 {
        "Fri"
    } else if w == 5 {
        "Sat"
    } else {
        "Sun"
    }
}

/// The decimal text of a signed year (`-` before a negative one).
pub open spec fn year_text(y: int) -> Seq<char> {
    if y < 0 {
        seq!['-'] + dec((-y) as nat)
    } else {
        dec(y as nat)
    }
}

fn push_year(s: &mut String, y: i32)
    ensures
        final(s)@ == old(s)@ + year_text(y as int),
{
    if y < 0 {
        push_char(s, '-');
        let m: u64 = if y == i32::MIN { 2147483648u64 } else { (-y) as u64 };
        push_decimal(s, m);
    } else {
        push_decimal(s, y as u64);
    }
}

/// "August 2026" for a month header.
pub fn month_title(date: Date) -> (r: String)
    ensures
        r@ == month_name(date.month as int) + seq![' '] + year_text(date.year as int),
{
    let mut r = String::from_str(month_name_str(date.month));
    push_char(&mut r, ' ');
    push_year(&mut r, date.year);
    r
}

/// "Mon, Aug 2" for a day header.
pub fn day_title(date: Date) -> (r: String)
    requires
        is_valid_date(date),
    ensures
        r@ == weekday_abbr(weekday_number(date.year, date.month, date.day) as int) + seq![',', ' ']
            + month_abbr(date.month as int) + seq![' '] + dec(date.day as nat),
{
    let mut r = String::from_str(weekday_abbr_str(date.weekday()));
    push_char(&mut r, ',');
    push_char(&mut r, ' ');
    r.append(month_abbr_str(date.month));
    push_char(&mut r, ' ');
    push_decimal(&mut r, date.day as u64);
    r
}

/// Four digits of `a` (below 10000), zero-padded.
pub open spec fn four_digits(a: nat) -> Seq<char> {
    two_digits(a / 100) + two_digits(a % 100)
}

/// The year as `%Y` writes it: four digits for years 0 to 9999; otherwise a sign
/// and the digits, zero-padded to four.
pub open spec fn iso_year_text(y: int) -> Seq<char> {
    if 0 <= y <= 9999 {
        four_digits(y as nat)
    } else {
        let a: nat = if y < 0 {
            (-y) as nat
        } else {
            y as nat
        };
        seq![if y < 0 { '-' } else { '+' }] + if a <= 9999 {
            four_digits(a)
        } else {
            dec(a)
        }
    }
}

/// The ISO text `YYYY-MM-DD` of a date (a journal entry's title).
pub open spec fn iso_date_text(d: Date) -> Seq<char> {
    iso_year_text(d.year as int) + seq!['-'] + two_digits(d.month as nat) + seq!['-'] + two_digits(
        d.day as nat,
    )
}

/// `YYYY-MM-DD` (`%Y-%m-%d`).
pub fn iso_date(d: Date) -> (r: String)
    ensures
        r@ == iso_date_text(d),
{
    let mut r = String::new();
    if 0 <= d.year && d.year <= 9999 {
        crate::format::push_two_digits(&mut r, (d.year / 100) as u64);
        crate::format::push_two_digits(&mut r, (d.year % 100) as u64);
    } else {
        push_char(&mut r, if d.year < 0 { '-' } else { '+' });
        let a: u64 = if d.year == i32::MIN {
            2147483648u64
        } else if d.year < 0 {
            (-d.year) as u64
        } else {
            d.year as u64
        };
        if a <= 9999 {
            crate::format::push_two_digits(&mut r, a / 100);
            crate::format::push_two_digits(&mut r, a % 100);
        } else {
            crate::format::push_decimal(&mut r, a);
        }
    }
    push_char(&mut r, '-');
    crate::format::push_two_digits(&mut r, d.month as u64);
    push_char(&mut r, '-');
    crate::format::push_two_digits(&mut r, d.day as u64);
    r
}

/// The month grid shows every day of the month exactly once: day `n` sits in
/// cell `lead + n - 1`, which is inside the grid's rows, and no other cell shows it.
pub proof fn lemma_month_grid_covers(y: i32, m: u32, lead: int)
    requires
        0 <= lead < 7,
        1 <= m <= 12,
    ensures
        forall|n: int|
            1 <= n <= days_in_month(y as int, m as int) ==> lead + n - 1 < 7 * ((lead + days_in_month(
                y as int,
                m as int,
            ) + 6) / 7) && #[trigger] grid_cell(y, m, lead, lead + n - 1) == Some(
                Date { year: y, month: m, day: n as u32 },
            ),
        forall|k: int|
            #[trigger] grid_cell(y, m, lead, k) matches Some(d) ==> k == lead + d.day - 1,
{
    let c = lead + days_in_month(y as int, m as int);
    assert(c <= 7 * ((c + 6) / 7)) by (nonlinear_arith)
        requires
            c >= 0,
    ;
}

} // verus!
