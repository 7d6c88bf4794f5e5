//! The Travel view's data (two demo trips) and Google Maps URL builders.
//!
//! The trips are owned, editable runtime state so the schedule supports CRUD.
//! Each stop is a scheduled event: a place (name and coordinates, for the map)
//! plus a start time and duration on the day's timeline. Coordinates are held
//! in hundred-thousandths of a degree, the precision the map URLs carry.

use vstd::prelude::*;
use crate::format::{clock_text, coord_text, dec, pct_text, push_coord, push_decimal, push_pct};
use crate::order::{before, is_stable_order, lex_lt};
use crate::text::{occurs_at, push_char};

verus! {

/// A scheduled stop on a day's itinerary/timeline.
#[derive(Clone, Debug)]
pub struct Stop {
    /// Stable id (for CRUD: delete/move a specific event).
    pub id: u64,
    pub name: String,
    pub activity: String,
    /// How you get here from the previous stop (`None` for the first).
    pub commute: Option<String>,
    /// Latitude in hundred-thousandths of a degree.
    pub lat: i64,
    /// Longitude in hundred-thousandths of a degree.
    pub lng: i64,
    /// Start time, minutes from midnight.
    pub start_min: u32,
    /// Duration in minutes.
    pub dur_min: u32,
}

/// A single day of an itinerary.
#[derive(Clone, Debug)]
pub struct Day {
    pub date: String,
    pub title: String,
    pub detail: String,
    pub stops: Vec<Stop>,
}

/// A trip booking (flight, hotel, …): a checklist item.
#[derive(Clone, Debug)]
pub struct Booking {
    pub label: String,
    pub done: bool,
}

/// A trip: tabs, itinerary and bookings.
#[derive(Clone, Debug)]
pub struct Trip {
    pub crumb: String,
    pub tab: String,
    pub sub: String,
    pub title: String,
    pub when: String,
    /// Appended to each stop name for the browser directions link (e.g. "Japan").
    pub country: String,
    pub days: Vec<Day>,
    pub bookings: Vec<Booking>,
}

/// Sort keys of stops: their start times.
pub open spec fn start_keys(stops: Seq<Stop>) -> Seq<Seq<u64>> {
    stops.map_values(|s: Stop| seq![s.start_min as u64])
}

/// The stops that a list of references points at.
pub open spec fn deref_stops(v: Seq<&Stop>) -> Seq<Stop> {
    v.map_values(|s: &Stop| *s)
}

/// The stops taken in the order of positions `p`.
pub open spec fn timeline_of(stops: Seq<Stop>, p: Seq<usize>) -> Seq<Stop> {
    Seq::new(p.len(), |i: int| stops[p[i] as int])
}

/// Is `p` the timeline order of `stops`: the stable order of their start times?
pub open spec fn is_timeline_order(stops: Seq<Stop>, p: Seq<usize>) -> bool {
    is_stable_order(start_keys(stops), false, p)
}

impl Day {
    /// Stops sorted by start time (the timeline order); stops that start at the
    /// same minute keep their order.
    pub fn timed(&self) -> (r: Vec<&Stop>)
        ensures
            exists|p: Seq<usize>|
                #[trigger] is_timeline_order(self.stops@, p) && deref_stops(r@) == timeline_of(
                    self.stops@,
                    p,
                ),
            forall|i: int, j: int|
                0 <= i < j < r.len() ==> r@[i].start_min <= r@[j].start_min,
    {
        let mut keys: Vec<Vec<u64>> = Vec::new();
        let mut k: usize = 0;
        while k < self.stops.len()
            invariant
                k <= self.stops.len(),
                keys.len() == k,
                forall|j: int| 0 <= j < k ==> #[trigger] keys@[j]@ == seq![self.stops@[j].start_min as u64],
            decreases self.stops.len() - k,
        {
            keys.push(vec![self.stops[k].start_min as u64]);
            k += 1;
        }
        let ghost ks = start_keys(self.stops@);
        assert(keys@.map_values(|x: Vec<u64>| x@) == ks);
        let order = crate::order::stable_order(&keys, false);
        let mut r: Vec<&Stop> = Vec::new();
        let mut i: usize = 0;
        while i < order.len()
            invariant
                i <= order.len() == self.stops.len(),
                is_stable_order(ks, false, order@),
                r.len() == i,
                forall|j: int| 0 <= j < i ==> *r@[j] == self.stops@[#[trigger] order@[j] as int],
            decreases order.len() - i,
        {
            r.push(&self.stops[order[i]]);
            i += 1;
        }
        proof {
            assert(deref_stops(r@) =~= timeline_of(self.stops@, order@));
            assert(is_timeline_order(self.stops@, order@));
            assert forall|a: int, b: int| 0 <= a < b < r.len() implies r@[a].start_min
                <= r@[b].start_min by {
                let pa = order@[a] as int;
                let pb = order@[b] as int;
                assert(before(ks, false, pa, pb));
                assert(ks[pa] == seq![self.stops@[pa].start_min as u64]);
                assert(ks[pb] == seq![self.stops@[pb].start_min as u64]);
                if lex_lt(ks[pa], ks[pb]) {
                    assert(ks[pa].drop_first() == Seq::<u64>::empty());
                }
            }
        }
        r
    }
}

/// Clock time `H:MM` (24h) of minutes from midnight.
pub fn fmt_time(min: u32) -> (r: String)
    ensures
        r@ == clock_text(min as nat),
{
    let mut r = String::new();
    push_decimal(&mut r, ((min / 60) % 24) as u64);
    push_char(&mut r, ':');
    crate::format::push_two_digits(&mut r, (min % 60) as u64);
    r
}

/// The place text of a stop for directions: `"<stop>, <country>"`.
pub open spec fn loc_text(stop: Stop, trip: Trip) -> Seq<char> {
    stop.name@ + seq![',', ' '] + trip.country@
}

/// A geocodable location string ("<stop>, <country>") for the browser link.
pub fn loc(stop: &Stop, trip: &Trip) -> (r: String)
    ensures
        r@ == loc_text(*stop, *trip),
{
    let mut r = stop.name.clone();
    push_char(&mut r, ',');
    push_char(&mut r, ' ');
    r.append(trip.country.as_str());
    r
}

/// A stop row for the builder: (name, activity, commute, lat, lng, duration min).
pub type Row = (&'static str, &'static str, Option<&'static str>, i64, i64, u32);

/// Start of the `i`-th stop of a day whose stops last `durs`: 9:00, then each
/// stop's duration plus a 45-minute gap.
spec fn start_at(durs: Seq<u32>, i: int) -> int
    decreases i,
{
    if i <= 0 {
        540
    } else {
        start_at(durs, i - 1) + durs[i - 1] + 45
    }
}

spec fn row_durs(rows: Seq<Row>) -> Seq<u32> {
    rows.map_values(|r: Row| r.5)
}

/// Start times stay small while every stop lasts at most a day and there are at
/// most a thousand stops.
proof fn lemma_start_bound(durs: Seq<u32>, i: int)
    requires
        0 <= i <= durs.len(),
        forall|j: int| 0 <= j < durs.len() ==> durs[j] <= 1440,
    ensures
        start_at(durs, i) <= 540 + i * 1485,
    decreases i,
{
    if i > 0 {
        lemma_start_bound(durs, i - 1);
    }
}

/// The demo rows: each stop lasts between a minute and a day, so their start
/// times fit in `u32`.
proof fn lemma_demo_rows(t: int, d: int)
    ensures
        forall|i: int| 0 <= i < demo_day(t, d).3.len() ==> 0 < #[trigger] demo_day(t, d).3[i].5 <= 1440,
        start_at(row_durs(demo_day(t, d).3), demo_day(t, d).3.len() as int) <= u32::MAX,
{
    let rows = demo_day(t, d).3;
    assert(rows.len() <= 4);
    assert forall|i: int| 0 <= i < rows.len() implies 0 < #[trigger] rows[i].5 <= 1440 by {
        if i == 0 {
        } else if i == 1 {
        } else if i == 2 {
        } else {
        }
    }
    lemma_start_bound(row_durs(rows), rows.len() as int);
}

/// A demo day built from its table has stops that all last some time.
proof fn lemma_demo_durations(dy: Day, t: int, d: int)
    requires
        demo_day_is(dy, t, d),
    ensures
        durations_positive(dy),
{
    lemma_demo_rows(t, d);
    let rows = demo_day(t, d).3;
    assert forall|i: int| 0 <= i < dy.stops.len() implies #[trigger] dy.stops@[i].dur_min > 0 by {
        assert(stop_from_row(dy.stops@[i], rows[i]));
        assert(0 < rows[i].5);
    }
}

/// Start times never go down along a day.
proof fn lemma_start_monotone(durs: Seq<u32>, i: int, j: int)
    requires
        0 <= i <= j <= durs.len(),
    ensures
        start_at(durs, i) <= start_at(durs, j),
    decreases j - i,
{
    if i < j {
        lemma_start_monotone(durs, i, j - 1);
    }
}

/// The ids of the stops of a day, in order.
pub open spec fn day_ids(d: Day) -> Seq<u64> {
    d.stops@.map_values(|s: Stop| s.id)
}

/// The ids of the stops of several days, day after day.
pub open spec fn days_ids(ds: Seq<Day>) -> Seq<u64>
    decreases ds.len(),
{
    if ds.len() == 0 {
        Seq::empty()
    } else {
        days_ids(ds.drop_last()) + day_ids(ds.last())
    }
}

/// The ids of every stop of several trips, trip after trip.
pub open spec fn trips_ids(ts: Seq<Trip>) -> Seq<u64>
    decreases ts.len(),
{
    if ts.len() == 0 {
        Seq::empty()
    } else {
        trips_ids(ts.drop_last()) + days_ids(ts.last().days@)
    }
}

/// The ids `lo, lo + 1, …, lo + n - 1`.
pub open spec fn id_range(lo: int, n: int) -> Seq<u64> {
    Seq::new(n as nat, |i: int| (lo + i) as u64)
}

proof fn lemma_id_range_concat(lo: int, n: int, m: int)
    requires
        0 <= n,
        0 <= m,
    ensures
        id_range(lo, n) + id_range(lo + n, m) == id_range(lo, n + m),
{
    assert(id_range(lo, n) + id_range(lo + n, m) =~= id_range(lo, n + m));
}

/// A day's timeline: the first stop at 9:00, each next one 45 minutes after the
/// previous one ends.
pub open spec fn well_timed(d: Day) -> bool {
    &&& d.stops.len() > 0 ==> d.stops@[0].start_min == 540
    &&& forall|i: int| 0 <= i < d.stops.len() - 1 ==> #[trigger] d.stops@[i + 1].start_min
        == d.stops@[i].start_min + d.stops@[i].dur_min + 45
}

/// Every stop of the day lasts some time.
pub open spec fn durations_positive(d: Day) -> bool {
    forall|i: int| 0 <= i < d.stops.len() ==> #[trigger] d.stops@[i].dur_min > 0
}

/// Optional text equal to an optional string literal.
pub open spec fn opt_text_is(o: Option<String>, c: Option<&'static str>) -> bool {
    match c {
        Some(x) => o matches Some(y) && y@ == x@,
        None => o is None,
    }
}

/// A stop holds the place data of a row: name, activity, commute, coordinates
/// and duration.
pub open spec fn stop_from_row(s: Stop, row: Row) -> bool {
    &&& s.name@ == row.0@
    &&& s.activity@ == row.1@
    &&& opt_text_is(s.commute, row.2)
    &&& s.lat == row.3
    &&& s.lng == row.4
    &&& s.dur_min == row.5
}

/// A day built from its texts and rows, its stop ids running from `first`.
pub open spec fn day_from(
    d: Day,
    date: Seq<char>,
    title: Seq<char>,
    detail: Seq<char>,
    rows: Seq<Row>,
    first: int,
) -> bool {
    &&& d.date@ == date
    &&& d.title@ == title
    &&& d.detail@ == detail
    &&& d.stops.len() == rows.len()
    &&& forall|i: int| 0 <= i < rows.len() ==> #[trigger] stop_from_row(d.stops@[i], rows[i])
    &&& day_ids(d) == id_range(first, rows.len() as int)
    &&& well_timed(d)
}

/// Build a day, sequencing start times from 9:00 with a 45-minute gap and taking
/// ids from `next` on.
fn day(next: &mut u64, date: &str, title: &str, detail: &str, rows: &[Row]) -> (d: Day)
    requires
        *old(next) + rows@.len() <= u64::MAX,
        start_at(row_durs(rows@), rows@.len() as int) <= u32::MAX,
    ensures
        *final(next) == *old(next) + rows@.len(),
        d.stops.len() == rows@.len(),
        d.date@ == date@,
        d.title@ == title@,
        d.detail@ == detail@,
        day_ids(d) == id_range(*old(next) as int, rows@.len() as int),
        well_timed(d),
        day_from(d, date@, title@, detail@, rows@, *old(next) as int),
{
    let ghost n0 = *next;
    let ghost durs = row_durs(rows@);
    let mut t: u32 = 540;
    let mut stops: Vec<Stop> = Vec::new();
    let mut i: usize = 0;
    while i < rows.len()
        invariant
            i <= rows@.len(),
            n0 + rows@.len() <= u64::MAX,
            *next == n0 + i,
            durs == row_durs(rows@),
            start_at(durs, rows@.len() as int) <= u32::MAX,
            t == start_at(durs, i as int),
            stops.len() == i,
            forall|j: int| 0 <= j < i ==> {
                let s = #[trigger] stops@[j];
                &&& s.id == n0 + j
                &&& stop_from_row(s, rows@[j])
                &&& s.start_min == start_at(durs, j)
            },
        decreases rows@.len() - i,
    {
        let row = rows[i];
        let commute = match row.2 {
            Some(c) => Some(String::from_str(c)),
            None => None,
        };
        proof {
            lemma_start_monotone(durs, i + 1, rows@.len() as int);
        }
        stops.push(
            Stop {
                id: *next,
                name: String::from_str(row.0),
                activity: String::from_str(row.1),
                commute,
                lat: row.3,
                lng: row.4,
                start_min: t,
                dur_min: row.5,
            },
        );
        *next = *next + 1;
        t = t + row.5 + 45;
        i += 1;
    }
    let d = Day {
        date: String::from_str(date),
        title: String::from_str(title),
        detail: String::from_str(detail),
        stops,
    };
    assert(day_ids(d) =~= id_range(n0 as int, rows@.len() as int));
    d
}

fn booking(label: &str, done: bool) -> (b: Booking)
    ensures
        b.label@ == label@,
        b.done == done,
{
    Booking { label: String::from_str(label), done }
}

/// The demo days, trip by trip: date, title, detail and stop rows.
pub open spec fn demo_day(t: int, d: int) -> (&'static str, &'static str, &'static str, Seq<Row>) {
    if t == 0 && d == 0 {
        (
            "Oct 3",
            "Arrive — Gion",
            "airport → hotel · evening walk",
            seq![
                ("Kyoto Station", "Haruka express in from KIX", None, 3498580, 13575880, 60),
                ("Gion", "check in, drop bags", Some("taxi · 15 min"), 3500360, 13577520, 60),
                ("Yasaka Shrine", "evening walk down Hanamikoji", Some("walk · 8 min"), 3500360, 13577850, 75),
            ],
        )
    } else if t == 0 && d == 1 {
        (
            "Oct 4",
            "East side temples",
            "Kiyomizu → Philosopher's Path",
            seq![
                ("Kiyomizu-dera", "at opening, 6:00", Some("walk · 20 min from hotel"), 3499490, 13578500, 90),
                ("Ninenzaka", "coffee, shops", Some("walk · 10 min"), 3499730, 13578080, 60),
                ("Nanzen-ji", "aqueduct + zen garden", Some("bus 202 · 25 min"), 3501110, 13579370, 75),
                ("Ginkaku-ji", "silver pavilion before close", Some("walk · 30 min along the path"), 3502700, 13579820, 60),
            ],
        )
    } else if t == 0 && d == 2 {
        (
            "Oct 5",
            "Arashiyama",
            "bamboo at 7:00 · river afternoon",
            seq![
                ("Saga-Arashiyama Station", "", Some("JR Sagano line · 17 min"), 3501890, 13567870, 30),
                ("Arashiyama Bamboo Grove", "before the crowds", Some("walk · 10 min"), 3501690, 13567170, 60),
                ("Tenryu-ji", "garden, lunch nearby", Some("walk · 5 min"), 3501590, 13567370, 90),
                ("Togetsukyo Bridge", "river, afternoon light", Some("walk · 8 min"), 3501280, 13567760, 45),
            ],
        )
    } else if t == 0 && d == 3 {
        (
            "Oct 6",
            "Nara day trip",
            "Todai-ji, deer park",
            seq![
                ("Nara Park", "deer, mochi stand", Some("Kintetsu limited express · 35 min"), 3468510, 13584300, 60),
                ("Todai-ji", "daibutsu hall", Some("walk · 12 min"), 3468890, 13583980, 90),
                ("Kasuga-taisha", "lantern paths · back for dinner", Some("walk · 15 min"), 3468190, 13584800, 75),
            ],
        )
    } else if t == 0 && d == 4 {
        (
            "Oct 7–10",
            "Loose days",
            "markets, gardens, one rest day",
            seq![
                ("Nishiki Market", "morning graze", None, 3500500, 13576490, 90),
                ("Kyoto Gyoen", "gardens from the reading list", Some("subway · 12 min"), 3502420, 13576200, 120),
            ],
        )
    } else if t == 1 && d == 0 {
        (
            "Mar 14",
            "Arrive — Alfama",
            "airport → hotel · first wander",
            seq![
                ("Lisbon Airport", "TAP in, midday", None, 3877420, -913420i64, 60),
                ("Alfama", "check in, drop bags", Some("metro + walk · 35 min"), 3871190, -912980i64, 60),
                ("Praça do Comércio", "river front at dusk", Some("walk · 12 min"), 3870770, -913660i64, 75),
            ],
        )
    } else if t == 1 && d == 1 {
        (
            "Mar 15",
            "Belém morning",
            "monastery, tower, pastéis",
            seq![
                ("Jerónimos Monastery", "at opening", Some("tram 15 · 25 min"), 3869790, -920650i64, 75),
                ("Pastéis de Belém", "the originals, still warm", Some("walk · 3 min"), 3869760, -920320i64, 45),
                ("Belém Tower", "river walk", Some("walk · 15 min"), 3869160, -921600i64, 60),
                ("MAAT Lisbon", "if energy holds", Some("walk · 12 min"), 3869610, -919380i64, 60),
            ],
        )
    } else if t == 1 && d == 2 {
        (
            "Mar 16",
            "Sintra day trip",
            "Regaleira + Pena",
            seq![
                ("Sintra Station", "", Some("train from Rossio · 40 min"), 3879850, -938680i64, 30),
                ("Quinta da Regaleira", "initiation well, early", Some("walk · 15 min"), 3879670, -939660i64, 90),
                ("Pena Palace", "park first, palace after lunch", Some("bus 434 · 15 min"), 3878760, -939050i64, 120),
            ],
        )
    } else if t == 1 && d == 3 {
        (
            "Mar 17–18",
            "Loose days",
            "LX Factory, food, fado?",
            seq![
                ("LX Factory", "bookshop + lunch", None, 3870270, -917860i64, 90),
                ("Time Out Market Lisboa", "dinner, last night", Some("walk · 10 min"), 3870710, -914590i64, 90),
            ],
        )
    } else {
        ("", "", "", seq![])
    }
}

/// The id of the first stop of each demo day: ids run on through days and trips.
pub open spec fn demo_first_id(t: int, d: int) -> int {
    if t == 0 && d == 0 {
        1
    } else if t == 0 && d == 1 {
        4
    } else if t == 0 && d == 2 {
        8
    } else if t == 0 && d == 3 {
        12
    } else if t == 0 && d == 4 {
        15
    } else if t == 1 && d == 0 {
        17
    } else if t == 1 && d == 1 {
        20
    } else if t == 1 && d == 2 {
        24
    } else if t == 1 && d == 3 {
        27
    } else {
        0
    }
}

/// The number of days of each demo trip.
pub open spec fn demo_day_count(t: int) -> int {
    if t == 0 {
        5
    } else if t == 1 {
        4
    } else {
        0
    }
}

/// The texts of each demo trip: crumb, tab, sub, title, when and country.
pub open spec fn demo_trip(t: int) -> (&'static str, &'static str, &'static str, &'static str, &'static str, &'static str) {
    if t == 0 {
        ("Kyoto", "Kyoto — October", "Oct 3 – 10 · in 68 days", "Kyoto — October", "Oct 3 — 10 · in 68 days", "Japan")
    } else {
        (
            "Lisbon",
            "Lisbon — March",
            "Mar 14 – 18 · in planning",
            "Lisbon — March",
            "Mar 14 — 18 · in planning",
            "Portugal",
        )
    }
}

/// The bookings of each demo trip: label and whether it is done.
pub open spec fn demo_bookings(t: int) -> Seq<(&'static str, bool)> {
    if t == 0 {
        seq![
            ("Flight — SFO → KIX (ANA)", true),
            ("Hotel — Gion, 7 nights", true),
            ("JR Pass — 7 day", false),
            ("Kaiseki dinner — Oct 5", false),
        ]
    } else {
        seq![
            ("Flight — LHR → LIS (TAP)", true),
            ("Hotel — Alfama, 4 nights", false),
            ("Sintra train tickets", false),
            ("Fado night — reservation", false),
        ]
    }
}

/// A trip holding the texts and bookings given.
pub open spec fn trip_from(
    tr: Trip,
    texts: (&'static str, &'static str, &'static str, &'static str, &'static str, &'static str),
    bookings: Seq<(&'static str, bool)>,
) -> bool {
    &&& tr.crumb@ == texts.0@
    &&& tr.tab@ == texts.1@
    &&& tr.sub@ == texts.2@
    &&& tr.title@ == texts.3@
    &&& tr.when@ == texts.4@
    &&& tr.country@ == texts.5@
    &&& tr.bookings.len() == bookings.len()
    &&& forall|i: int| 0 <= i < bookings.len() ==> #[trigger] tr.bookings@[i].label@ == bookings[i].0@
        && tr.bookings@[i].done == bookings[i].1
}

/// Demo day `d` of trip `t` is built from its table entry.
pub open spec fn demo_day_is(dy: Day, t: int, d: int) -> bool {
    day_from(dy, demo_day(t, d).0@, demo_day(t, d).1@, demo_day(t, d).2@, demo_day(t, d).3, demo_first_id(t, d))
}

/// Are `r` the demo trips: two of them, with the texts, bookings and days of the
/// demo tables, their stop ids running 1 to 28 through days and trips?
pub open spec fn is_demo_trips(r: Seq<Trip>) -> bool {
    &&& r.len() == 2
    &&& forall|t: int| 0 <= t < 2 ==> #[trigger] trip_from(r[t], demo_trip(t), demo_bookings(t)) && r[t].days.len()
        == demo_day_count(t)
    &&& forall|t: int, d: int| 0 <= t < 2 && 0 <= d < demo_day_count(t) ==> #[trigger] demo_day_is(r[t].days@[d], t, d)
    &&& trips_ids(r) == id_range(1, 28)
}

/// The initial (demo) trips: fresh owned data each call. Two trips, each with days
/// and bookings; every day has stops, timed from 9:00 with 45-minute gaps; the
/// stop ids run 1, 2, 3, … through all trips, days and stops, so no two are equal.
pub fn initial_trips() -> (r: Vec<Trip>)
    ensures
        r.len() == 2,
        forall|t: int| 0 <= t < r.len() ==> #[trigger] r@[t].days.len() > 0 && r@[t].bookings.len() > 0,
        forall|t: int, d: int|
            0 <= t < r.len() && 0 <= d < r@[t].days.len() ==> #[trigger] r@[t].days@[d].stops.len() > 0
                && well_timed(r@[t].days@[d]) && durations_positive(r@[t].days@[d]),
        trips_ids(r@) == id_range(1, 28),
        forall|i: int, j: int| 0 <= i < j < trips_ids(r@).len() ==> trips_ids(r@)[i] != trips_ids(r@)[j],
        forall|t: int|
            0 <= t < 2 ==> #[trigger] trip_from(r@[t], demo_trip(t), demo_bookings(t)) && r@[t].days.len()
                == demo_day_count(t),
        forall|t: int, d: int| 0 <= t < 2 && 0 <= d < demo_day_count(t) ==> #[trigger] demo_day_is(r@[t].days@[d], t, d),
        is_demo_trips(r@),
{
    let mut id: u64 = 1;

    proof {
        lemma_demo_rows(0, 0);
    }
    let t0d0 = day(
        &mut id,
        "Oct 3",
        "Arrive — Gion",
        "airport → hotel · evening walk",
        &[
            ("Kyoto Station", "Haruka express in from KIX", None, 3498580, 13575880, 60),
            ("Gion", "check in, drop bags", Some("taxi · 15 min"), 3500360, 13577520, 60),
            ("Yasaka Shrine", "evening walk down Hanamikoji", Some("walk · 8 min"), 3500360, 13577850, 75),
        ],
    );
    assert(demo_day_is(t0d0, 0, 0));
    proof {
        lemma_demo_durations(t0d0, 0, 0);
    }
    proof {
        lemma_demo_rows(0, 1);
    }
    let t0d1 = day(
        &mut id,
        "Oct 4",
        "East side temples",
        "Kiyomizu → Philosopher's Path",
        &[
            ("Kiyomizu-dera", "at opening, 6:00", Some("walk · 20 min from hotel"), 3499490, 13578500, 90),
            ("Ninenzaka", "coffee, shops", Some("walk · 10 min"), 3499730, 13578080, 60),
            ("Nanzen-ji", "aqueduct + zen garden", Some("bus 202 · 25 min"), 3501110, 13579370, 75),
            ("Ginkaku-ji", "silver pavilion before close", Some("walk · 30 min along the path"), 3502700, 13579820, 60),
        ],
    );
    assert(demo_day_is(t0d1, 0, 1));
    proof {
        lemma_demo_durations(t0d1, 0, 1);
    }
    proof {
        lemma_demo_rows(0, 2);
    }
    let t0d2 = day(
        &mut id,
        "Oct 5",
        "Arashiyama",
        "bamboo at 7:00 · river afternoon",
        &[
            ("Saga-Arashiyama Station", "", Some("JR Sagano line · 17 min"), 3501890, 13567870, 30),
            ("Arashiyama Bamboo Grove", "before the crowds", Some("walk · 10 min"), 3501690, 13567170, 60),
            ("Tenryu-ji", "garden, lunch nearby", Some("walk · 5 min"), 3501590, 13567370, 90),
            ("Togetsukyo Bridge", "river, afternoon light", Some("walk · 8 min"), 3501280, 13567760, 45),
        ],
    );
    assert(demo_day_is(t0d2, 0, 2));
    proof {
        lemma_demo_durations(t0d2, 0, 2);
    }
    proof {
        lemma_demo_rows(0, 3);
    }
    let t0d3 = day(
        &mut id,
        "Oct 6",
        "Nara day trip",
        "Todai-ji, deer park",
        &[
            ("Nara Park", "deer, mochi stand", Some("Kintetsu limited express · 35 min"), 3468510, 13584300, 60),
            ("Todai-ji", "daibutsu hall", Some("walk · 12 min"), 3468890, 13583980, 90),
            ("Kasuga-taisha", "lantern paths · back for dinner", Some("walk · 15 min"), 3468190, 13584800, 75),
        ],
    );
    assert(demo_day_is(t0d3, 0, 3));
    proof {
        lemma_demo_durations(t0d3, 0, 3);
    }
    proof {
        lemma_demo_rows(0, 4);
    }
    let t0d4 = day(
        &mut id,
        "Oct 7–10",
        "Loose days",
        "markets, gardens, one rest day",
        &[
            ("Nishiki Market", "morning graze", None, 3500500, 13576490, 90),
            ("Kyoto Gyoen", "gardens from the reading list", Some("subway · 12 min"), 3502420, 13576200, 120),
        ],
    );
    assert(demo_day_is(t0d4, 0, 4));
    proof {
        lemma_demo_durations(t0d4, 0, 4);
    }
    proof {
        lemma_demo_rows(1, 0);
    }
    let t1d0 = day(
        &mut id,
        "Mar 14",
        "Arrive — Alfama",
        "airport → hotel · first wander",
        &[
            ("Lisbon Airport", "TAP in, midday", None, 3877420, -913420, 60),
            ("Alfama", "check in, drop bags", Some("metro + walk · 35 min"), 3871190, -912980, 60),
            ("Praça do Comércio", "river front at dusk", Some("walk · 12 min"), 3870770, -913660, 75),
        ],
    );
    assert(demo_day_is(t1d0, 1, 0));
    proof {
        lemma_demo_durations(t1d0, 1, 0);
    }
    proof {
        lemma_demo_rows(1, 1);
    }
    let t1d1 = day(
        &mut id,
        "Mar 15",
        "Belém morning",
        "monastery, tower, pastéis",
        &[
            ("Jerónimos Monastery", "at opening", Some("tram 15 · 25 min"), 3869790, -920650, 75),
            ("Pastéis de Belém", "the originals, still warm", Some("walk · 3 min"), 3869760, -920320, 45),
            ("Belém Tower", "river walk", Some("walk · 15 min"), 3869160, -921600, 60),
            ("MAAT Lisbon", "if energy holds", Some("walk · 12 min"), 3869610, -919380, 60),
        ],
    );
    assert(demo_day_is(t1d1, 1, 1));
    proof {
        lemma_demo_durations(t1d1, 1, 1);
    }
    proof {
        lemma_demo_rows(1, 2);
    }
    let t1d2 = day(
        &mut id,
        "Mar 16",
        "Sintra day trip",
        "Regaleira + Pena",
        &[
            ("Sintra Station", "", Some("train from Rossio · 40 min"), 3879850, -938680, 30),
            ("Quinta da Regaleira", "initiation well, early", Some("walk · 15 min"), 3879670, -939660, 90),
            ("Pena Palace", "park first, palace after lunch", Some("bus 434 · 15 min"), 3878760, -939050, 120),
        ],
    );
    assert(demo_day_is(t1d2, 1, 2));
    proof {
        lemma_demo_durations(t1d2, 1, 2);
    }
    proof {
        lemma_demo_rows(1, 3);
    }
    let t1d3 = day(
        &mut id,
        "Mar 17–18",
        "Loose days",
        "LX Factory, food, fado?",
        &[
            ("LX Factory", "bookshop + lunch", None, 3870270, -917860, 90),
            ("Time Out Market Lisboa", "dinner, last night", Some("walk · 10 min"), 3870710, -914590, 90),
        ],
    );
    assert(demo_day_is(t1d3, 1, 3));
    proof {
        lemma_demo_durations(t1d3, 1, 3);
    }
    let days0 = vec![t0d0, t0d1, t0d2, t0d3, t0d4];
    let bookings0 = vec![
        booking("Flight — SFO → KIX (ANA)", true),
        booking("Hotel — Gion, 7 nights", true),
        booking("JR Pass — 7 day", false),
        booking("Kaiseki dinner — Oct 5", false),
    ];
    let trip0 = Trip {
        crumb: String::from_str("Kyoto"),
        tab: String::from_str("Kyoto — October"),
        sub: String::from_str("Oct 3 – 10 · in 68 days"),
        title: String::from_str("Kyoto — October"),
        when: String::from_str("Oct 3 — 10 · in 68 days"),
        country: String::from_str("Japan"),
        days: days0,
        bookings: bookings0,
    };
    let days1 = vec![t1d0, t1d1, t1d2, t1d3];
    let bookings1 = vec![
        booking("Flight — LHR → LIS (TAP)", true),
        booking("Hotel — Alfama, 4 nights", false),
        booking("Sintra train tickets", false),
        booking("Fado night — reservation", false),
    ];
    let trip1 = Trip {
        crumb: String::from_str("Lisbon"),
        tab: String::from_str("Lisbon — March"),
        sub: String::from_str("Mar 14 – 18 · in planning"),
        title: String::from_str("Lisbon — March"),
        when: String::from_str("Mar 14 — 18 · in planning"),
        country: String::from_str("Portugal"),
        days: days1,
        bookings: bookings1,
    };
    proof {
        reveal_with_fuel(days_ids, 6);
        reveal_with_fuel(trips_ids, 3);
        lemma_id_range_concat(1, 3, 4);
        lemma_id_range_concat(1, 7, 4);
        lemma_id_range_concat(1, 11, 3);
        lemma_id_range_concat(1, 14, 2);
        assert(days_ids(trip0.days@) == id_range(1, 16));
        lemma_id_range_concat(17, 3, 4);
        lemma_id_range_concat(17, 7, 3);
        lemma_id_range_concat(17, 10, 2);
        assert(days_ids(trip1.days@) == id_range(17, 12));
        lemma_id_range_concat(1, 16, 12);
    }
    let r = vec![trip0, trip1];
    assert(trips_ids(r@) == id_range(1, 28));
    assert(trip_from(r@[0], demo_trip(0), demo_bookings(0)));
    assert(trip_from(r@[1], demo_trip(1), demo_bookings(1)));
    r
}

/// Google Static Maps `style=` rules rendering the map in the Modernist palette.
pub open spec fn style_rules(dark: bool) -> Seq<&'static str> {
    if dark {
        seq![
            "feature:all|element:geometry|saturation:-100",
            "feature:all|element:labels.text.fill|color:0x8b8681",
            "feature:all|element:labels.text.stroke|color:0x1a1918",
            "feature:all|element:labels.icon|visibility:off",
            "feature:landscape|element:geometry|color:0x201e1d",
            "feature:water|element:geometry|color:0x141312",
            "feature:road|element:geometry.fill|color:0x37332f",
            "feature:road|element:geometry.stroke|color:0x262421",
            "feature:poi|element:geometry|color:0x262320",
            "feature:poi.park|element:geometry|color:0x232a23",
            "feature:transit|element:geometry|color:0x2a2724",
        ]
    } else {
        seq![
            "feature:all|element:geometry|saturation:-100",
            "feature:all|element:labels.text.fill|color:0x8a8580",
            "feature:all|element:labels.text.stroke|color:0xf7f6f5",
            "feature:all|element:labels.icon|visibility:off",
            "feature:landscape|element:geometry|color:0xf1efee",
            "feature:water|element:geometry|color:0xdedbda",
            "feature:road|element:geometry.fill|color:0xffffff",
            "feature:road|element:geometry.stroke|color:0xe4e1e1",
            "feature:poi|element:geometry|color:0xeceae8",
            "feature:poi.park|element:geometry|color:0xe6eae1",
            "feature:transit|element:geometry|color:0xe8e5e3",
        ]
    }
}

/// Google Static Maps `style=` rules rendering the map in the Modernist palette.
pub fn map_styles(dark: bool) -> (r: Vec<&'static str>)
    ensures
        r@ == style_rules(dark),
{
    if dark {
        vec![
            "feature:all|element:geometry|saturation:-100",
            "feature:all|element:labels.text.fill|color:0x8b8681",
            "feature:all|element:labels.text.stroke|color:0x1a1918",
            "feature:all|element:labels.icon|visibility:off",
            "feature:landscape|element:geometry|color:0x201e1d",
            "feature:water|element:geometry|color:0x141312",
            "feature:road|element:geometry.fill|color:0x37332f",
            "feature:road|element:geometry.stroke|color:0x262421",
            "feature:poi|element:geometry|color:0x262320",
            "feature:poi.park|element:geometry|color:0x232a23",
            "feature:transit|element:geometry|color:0x2a2724",
        ]
    } else {
        vec![
            "feature:all|element:geometry|saturation:-100",
            "feature:all|element:labels.text.fill|color:0x8a8580",
            "feature:all|element:labels.text.stroke|color:0xf7f6f5",
            "feature:all|element:labels.icon|visibility:off",
            "feature:landscape|element:geometry|color:0xf1efee",
            "feature:water|element:geometry|color:0xdedbda",
            "feature:road|element:geometry.fill|color:0xffffff",
            "feature:road|element:geometry.stroke|color:0xe4e1e1",
            "feature:poi|element:geometry|color:0xeceae8",
            "feature:poi.park|element:geometry|color:0xe6eae1",
            "feature:transit|element:geometry|color:0xe8e5e3",
        ]
    }
}

/// A text with every `|` written as `%7C`.
pub open spec fn escape_bars(s: Seq<char>) -> Seq<char>
    decreases s.len(),
{
    if s.len() == 0 {
        Seq::empty()
    } else if s.last() == '|' {
        escape_bars(s.drop_last()) + seq!['%', '7', 'C']
    } else {
        escape_bars(s.drop_last()) + seq![s.last()]
    }
}

fn push_escaped_bars(url: &mut String, t: &str)
    ensures
        final(url)@ == old(url)@ + escape_bars(t@),
{
    let v = crate::text::to_chars(t);
    let ghost u0 = url@;
    let mut k: usize = 0;
    while k < v.len()
        invariant
            k <= v.len(),
            v@ == t@,
            url@ == u0 + escape_bars(v@.take(k as int)),
        decreases v.len() - k,
    {
        if v[k] == '|' {
            push_char(url, '%');
            push_char(url, '7');
            push_char(url, 'C');
        } else {
            push_char(url, v[k]);
        }
        assert(v@.take(k + 1).drop_last() == v@.take(k as int));
        k += 1;
    }
    assert(v@.take(v.len() as int) == v@);
}

/// The `&style=` parameters for the rules.
pub open spec fn styles_part(rules: Seq<&'static str>) -> Seq<char>
    decreases rules.len(),
{
    if rules.len() == 0 {
        Seq::empty()
    } else {
        styles_part(rules.drop_last()) + "&style="@ + escape_bars(rules.last()@)
    }
}

/// The accent colour of the route and markers.
pub open spec fn accent_of(dark: bool) -> Seq<char> {
    if dark {
        "0xe08a70"@
    } else {
        "0xec3013"@
    }
}

/// `lat,lng` of a stop.
pub open spec fn point_text(s: Stop) -> Seq<char> {
    coord_text(s.lat as int) + seq![','] + coord_text(s.lng as int)
}

/// A numbered marker per stop, numbering from 1.
pub open spec fn markers_part(stops: Seq<Stop>, accent: Seq<char>) -> Seq<char>
    decreases stops.len(),
{
    if stops.len() == 0 {
        Seq::empty()
    } else {
        markers_part(stops.drop_last(), accent) + "&markers=color:"@ + accent + "%7Clabel:"@ + dec(
            stops.len(),
        ) + "%7C"@ + point_text(stops.last())
    }
}

/// The marker of one stop: the accent colour, its number `label`, and its point.
pub open spec fn marker_text(s: Stop, label: nat, accent: Seq<char>) -> Seq<char> {
    "&markers=color:"@ + accent + "%7Clabel:"@ + dec(label) + "%7C"@ + point_text(s)
}

/// The markers of the first `j` stops begin the markers of all of them.
proof fn lemma_markers_prefix(stops: Seq<Stop>, accent: Seq<char>, j: int)
    requires
        0 <= j <= stops.len(),
    ensures
        markers_part(stops.take(j), accent).len() <= markers_part(stops, accent).len(),
        markers_part(stops, accent).take(markers_part(stops.take(j), accent).len() as int) == markers_part(
            stops.take(j),
            accent,
        ),
    decreases stops.len(),
{
    if j == stops.len() {
        assert(stops.take(j) == stops);
    } else {
        let d = stops.drop_last();
        lemma_markers_prefix(d, accent, j);
        assert(d.take(j) == stops.take(j));
    }
}

/// Markers are numbered from 1 in the order of the stops: stop `k` (from 0)
/// carries label `k + 1`, right after the markers of the stops before it.
pub proof fn lemma_marker_labels(stops: Seq<Stop>, accent: Seq<char>, k: int)
    requires
        0 <= k < stops.len(),
    ensures
        occurs_at(
            markers_part(stops, accent),
            marker_text(stops[k], (k + 1) as nat, accent),
            markers_part(stops.take(k), accent).len() as int,
        ),
{
    let t = stops.take(k + 1);
    assert(t.drop_last() == stops.take(k));
    assert(t.last() == stops[k]);
    let a = markers_part(stops.take(k), accent);
    let m = marker_text(stops[k], (k + 1) as nat, accent);
    assert(markers_part(t, accent) == a + m);
    lemma_markers_prefix(stops, accent, k + 1);
    let all = markers_part(stops, accent);
    assert(all.subrange(a.len() as int, (a.len() + m.len()) as int) == m) by {
        assert forall|i: int| 0 <= i < m.len() implies all.subrange(a.len() as int, (a.len() + m.len()) as int)[i] == m[i] by {
            assert(all.take((a + m).len() as int)[a.len() + i] == (a + m)[a.len() + i]);
        }
    }
}

/// The part of a day's Static Maps URL before its markers: the base and the styles.
pub open spec fn static_map_head(dark: bool) -> Seq<char> {
    "https://maps.googleapis.com/maps/api/staticmap?size=560x340&scale=2&maptype=roadmap&language=en"@
        + styles_part(style_rules(dark))
}

/// In a day's Static Maps URL, stop `k` (from 0) has the marker labelled `k + 1`,
/// the markers following the map styles in the order of the stops.
pub proof fn lemma_static_map_labels(stops: Seq<Stop>, dark: bool, key: Seq<char>, k: int)
    requires
        0 <= k < stops.len(),
    ensures
        occurs_at(
            static_map_text(stops, dark, key),
            marker_text(stops[k], (k + 1) as nat, accent_of(dark)),
            (static_map_head(dark).len() + markers_part(stops.take(k), accent_of(dark)).len()) as int,
        ),
{
    lemma_marker_labels(stops, accent_of(dark), k);
    let head = static_map_head(dark);
    let mp = markers_part(stops, accent_of(dark));
    let url = static_map_text(stops, dark, key);
    let m = marker_text(stops[k], (k + 1) as nat, accent_of(dark));
    let at = markers_part(stops.take(k), accent_of(dark)).len() as int;
    assert forall|i: int| 0 <= i < m.len() implies url.subrange(head.len() + at, head.len() + at + m.len())[i]
        == m[i] by {
        assert(url[head.len() + at + i] == mp[at + i]);
        assert(mp.subrange(at, at + m.len())[i] == m[i]);
    }
    assert(url.subrange(head.len() + at, head.len() + at + m.len()) == m);
}

/// The route's points, each after a `%7C`.
pub open spec fn path_points(stops: Seq<Stop>) -> Seq<char>
    decreases stops.len(),
{
    if stops.len() == 0 {
        Seq::empty()
    } else {
        path_points(stops.drop_last()) + "%7C"@ + point_text(stops.last())
    }
}

/// The Static Maps URL for a day's stops.
pub open spec fn static_map_text(stops: Seq<Stop>, dark: bool, key: Seq<char>) -> Seq<char> {
    "https://maps.googleapis.com/maps/api/staticmap?size=560x340&scale=2&maptype=roadmap&language=en"@
        + styles_part(style_rules(dark)) + markers_part(stops, accent_of(dark)) + (if stops.len()
        > 1 {
        "&path=color:"@ + accent_of(dark) + "c8%7Cweight:4"@ + path_points(stops)
    } else {
        Seq::empty()
    }) + "&key="@ + pct_text(key)
}

fn push_point(url: &mut String, s: &Stop)
    ensures
        final(url)@ == old(url)@ + point_text(*s),
{
    push_coord(url, s.lat);
    push_char(url, ',');
    push_coord(url, s.lng);
}

/// Build a Modernist-styled Google Static Maps URL for a day: auto-framed to the
/// stops, numbered accent markers, accent route line. `None` if no stops.
#[verifier::spinoff_prover]
pub fn static_map_url(stops: &[Stop], dark: bool, key: &str) -> (r: Option<String>)
    ensures
        r is None <==> stops@.len() == 0,
        r matches Some(u) ==> u@ == static_map_text(stops@, dark, key@),
{
    if stops.len() == 0 {
        return None;
    }
    let accent = if dark { "0xe08a70" } else { "0xec3013" };
    let mut url = String::from_str(
        "https://maps.googleapis.com/maps/api/staticmap?size=560x340&scale=2&maptype=roadmap&language=en",
    );
    let ghost u0 = url@;
    let rules = map_styles(dark);
    let mut k: usize = 0;
    while k < rules.len()
        invariant
            k <= rules.len(),
            rules@ == style_rules(dark),
            url@ == u0 + styles_part(rules@.take(k as int)),
        decreases rules.len() - k,
    {
        url.append("&style=");
        push_escaped_bars(&mut url, rules[k]);
        assert(rules@.take(k + 1).drop_last() == rules@.take(k as int));
        k += 1;
    }
    assert(rules@.take(rules.len() as int) == rules@);
    let ghost u1 = url@;
    let mut i: usize = 0;
    while i < stops.len()
        invariant
            i <= stops@.len(),
            accent@ == accent_of(dark),
            url@ == u1 + markers_part(stops@.take(i as int), accent@),
        decreases stops@.len() - i,
    {
        url.append("&markers=color:");
        url.append(accent);
        url.append("%7Clabel:");
        push_decimal(&mut url, (i + 1) as u64);
        url.append("%7C");
        push_point(&mut url, &stops[i]);
        assert(stops@.take(i + 1).drop_last() == stops@.take(i as int));
        i += 1;
    }
    assert(stops@.take(stops@.len() as int) == stops@);
    let ghost u2 = url@;
    if stops.len() > 1 {
        url.append("&path=color:");
        url.append(accent);
        url.append("c8%7Cweight:4");
        let ghost u3 = url@;
        let mut j: usize = 0;
        while j < stops.len()
            invariant
                j <= stops@.len(),
                url@ == u3 + path_points(stops@.take(j as int)),
            decreases stops@.len() - j,
        {
            url.append("%7C");
            push_point(&mut url, &stops[j]);
            assert(stops@.take(j + 1).drop_last() == stops@.take(j as int));
            j += 1;
        }
    }
    url.append("&key=");
    push_pct(&mut url, key);
    Some(url)
}

/// The `|`-separated (`%7C`) waypoints of a directions link.
pub open spec fn waypoints_text(ms: Seq<Stop>, trip: Trip) -> Seq<char>
    decreases ms.len(),
{
    if ms.len() == 0 {
        Seq::empty()
    } else if ms.len() == 1 {
        pct_text(loc_text(ms[0], trip))
    } else {
        waypoints_text(ms.drop_last(), trip) + "%7C"@ + pct_text(loc_text(ms.last(), trip))
    }
}

/// The directions URL through stops `ts` (non-empty), in order.
pub open spec fn directions_text(trip: Trip, ts: Seq<Stop>) -> Seq<char> {
    "https://www.google.com/maps/dir/?api=1&travelmode=transit&origin="@ + pct_text(
        loc_text(ts[0], trip),
    ) + "&destination="@ + pct_text(loc_text(ts.last(), trip)) + (if ts.len() > 2 {
        "&waypoints="@ + waypoints_text(ts.subrange(1, ts.len() - 1), trip)
    } else {
        Seq::empty()
    })
}

/// Build a Google Maps directions URL (opens in the browser) routing through the
/// day's stops in timeline order, in transit mode. `None` if the day has no stops.
pub fn directions_url(trip: &Trip, day: &Day) -> (r: Option<String>)
    ensures
        r is None <==> day.stops@.len() == 0,
        r matches Some(u) ==> exists|p: Seq<usize>|
            #[trigger] is_timeline_order(day.stops@, p) && u@ == directions_text(
                *trip,
                timeline_of(day.stops@, p),
            ),
{
    let stops = day.timed();
    let ghost ts = deref_stops(stops@);
    if stops.len() == 0 {
        proof {
            let p = choose|p: Seq<usize>| #[trigger] is_timeline_order(day.stops@, p) && deref_stops(stops@)
                == timeline_of(day.stops@, p);
            assert(timeline_of(day.stops@, p).len() == p.len());
        }
        return None;
    }
    let n = stops.len();
    let mut url = String::from_str("https://www.google.com/maps/dir/?api=1&travelmode=transit&origin=");
    let first = loc(stops[0], trip);
    push_pct(&mut url, first.as_str());
    url.append("&destination=");
    let last = loc(stops[n - 1], trip);
    push_pct(&mut url, last.as_str());
    assert(ts[0] == *stops@[0]);
    assert(ts.last() == *stops@[n - 1]);
    let ghost u0 = url@;
    if n > 2 {
        url.append("&waypoints=");
        let ghost u1 = url@;
        let mut i: usize = 1;
        while i < n - 1
            invariant
                1 <= i <= n - 1,
                n == stops.len(),
                ts == deref_stops(stops@),
                url@ == u1 + waypoints_text(ts.subrange(1, i as int), *trip),
            decreases n - 1 - i,
        {
            if i > 1 {
                url.append("%7C");
            }
            let l = loc(stops[i], trip);
            push_pct(&mut url, l.as_str());
            assert(ts.subrange(1, i + 1).drop_last() == ts.subrange(1, i as int));
            assert(ts.subrange(1, i + 1).last() == *stops@[i as int]);
            proof {
                if i == 1 {
                    assert(ts.subrange(1, 2)[0] == *stops@[1]);
                }
            }
            i += 1;
        }
    }
    proof {
        let p = choose|p: Seq<usize>| #[trigger] is_timeline_order(day.stops@, p) && deref_stops(stops@)
            == timeline_of(day.stops@, p);
        assert(ts == timeline_of(day.stops@, p));
        assert(timeline_of(day.stops@, p).len() == p.len());
        assert(p.len() == day.stops@.len());
    }
    Some(url)
}

} // verus!
