//! The Travel view's editable state: the trips, the selected trip and day, the
//! schedule's presentation and zoom, and the schedule's event CRUD.

use vstd::prelude::*;
use crate::order::{keep_flagged, kept};
use crate::travel::{Booking, Day, Stop, Trip, day_ids, days_ids, directions_url, initial_trips, trips_ids};

verus! {

/// How the Travel view presents a trip.
#[derive(Clone, Copy, Debug, PartialEq, Eq, Structural)]
pub enum TravelMode {
    /// A day-schedule timeline (default): day columns, vertical time axis.
    Schedule,
    /// The itinerary list, map and bookings.
    Itinerary,
}

/// The Travel view's state.
#[derive(Debug)]
pub struct TravelState {
    /// Owned, editable trips.
    pub trips: Vec<Trip>,
    /// Selected trip index.
    pub trip: usize,
    /// Selected itinerary day (drives the map and route).
    pub trip_day: usize,
    /// Schedule timeline vs itinerary and map.
    pub travel_mode: TravelMode,
    /// Schedule zoom: minutes per grid slot (5 to 180).
    pub slot_min: u32,
    /// Next event id to hand out when creating a schedule event.
    pub next_event_id: u64,
}

/// The largest id of a list, or 0 for none.
pub open spec fn max_id(s: Seq<u64>) -> int
    decreases s.len(),
{
    if s.len() == 0 {
        0
    } else if max_id(s.drop_last()) >= s.last() {
        max_id(s.drop_last())
    } else {
        s.last() as int
    }
}

proof fn lemma_max_id_concat(a: Seq<u64>, b: Seq<u64>)
    ensures
        max_id(a + b) == if max_id(a) >= max_id(b) {
            max_id(a)
        } else {
            max_id(b)
        },
    decreases b.len(),
{
    if b.len() == 0 {
        assert(a + b == a);
    } else {
        assert((a + b).drop_last() == a + b.drop_last());
        lemma_max_id_concat(a, b.drop_last());
    }
}

proof fn lemma_max_id_bound(s: Seq<u64>)
    ensures
        0 <= max_id(s) <= u64::MAX,
    decreases s.len(),
{
    if s.len() > 0 {
        lemma_max_id_bound(s.drop_last());
    }
}

/// The largest stop id of the trips, or 0 when there are no stops.
pub fn max_stop_id(trips: &Vec<Trip>) -> (m: u64)
    ensures
        m == max_id(trips_ids(trips@)),
{
    let mut m: u64 = 0;
    let mut t: usize = 0;
    while t < trips.len()
        invariant
            t <= trips.len(),
            m == max_id(trips_ids(trips@.take(t as int))),
        decreases trips.len() - t,
    {
        let days = &trips[t].days;
        let ghost m0 = m;
        let mut d: usize = 0;
        while d < days.len()
            invariant
                d <= days.len(),
                m0 == max_id(trips_ids(trips@.take(t as int))),
                m == max_id(trips_ids(trips@.take(t as int)) + days_ids(days@.take(d as int))),
            decreases days.len() - d,
        {
            let stops = &days[d].stops;
            let ghost base = trips_ids(trips@.take(t as int)) + days_ids(days@.take(d as int));
            let mut s: usize = 0;
            while s < stops.len()
                invariant
                    s <= stops.len(),
                    m == max_id(base + day_ids(days@[d as int]).take(s as int)),
                    day_ids(days@[d as int]).len() == stops.len(),
                    forall|j: int| 0 <= j < stops.len() ==> day_ids(days@[d as int])[j] == #[trigger] stops@[j].id,
                decreases stops.len() - s,
            {
                let ghost ids = day_ids(days@[d as int]);
                assert((base + ids.take(s + 1)).drop_last() == base + ids.take(s as int));
                assert((base + ids.take(s + 1)).last() == stops@[s as int].id);
                if stops[s].id > m {
                    m = stops[s].id;
                }
                s += 1;
            }
            proof {
                let ids = day_ids(days@[d as int]);
                assert(ids.take(stops.len() as int) == ids);
                assert(days@.take(d + 1).drop_last() == days@.take(d as int));
                assert(days@.take(d + 1).last() == days@[d as int]);
                assert(base + ids == trips_ids(trips@.take(t as int)) + days_ids(days@.take(d + 1)));
            }
            d += 1;
        }
        proof {
            assert(days@.take(days.len() as int) == days@);
            assert(trips@.take(t + 1).drop_last() == trips@.take(t as int));
            assert(trips@.take(t + 1).last() == trips@[t as int]);
        }
        t += 1;
    }
    assert(trips@.take(trips.len() as int) == trips@);
    m
}

/// Does a trip list hold day `d` of trip `t`?
pub open spec fn has_day(trips: Seq<Trip>, t: int, d: int) -> bool {
    0 <= t < trips.len() && 0 <= d < trips[t].days.len()
}

/// Can an event be added to day `d` of the selected trip without overflow: the
/// next id, the ends of the day's stops and the new start all fit their types
/// (nothing to fit when there is no such day)?
pub open spec fn add_event_fits(st: TravelState, d: int) -> bool {
    has_day(st.trips@, st.trip as int, d) ==> {
        &&& st.next_event_id < u64::MAX
        &&& ends_fit(st.trips@[st.trip as int].days@[d].stops@)
        &&& new_event_start(st.trips@[st.trip as int].days@[d].stops@, st.slot_min) <= u32::MAX
    }
}

/// `new` is `old` with only the stops of day `d` of trip `t` changed.
pub open spec fn only_stops_changed(old: Seq<Trip>, new: Seq<Trip>, t: int, d: int) -> bool {
    &&& new.len() == old.len()
    &&& forall|i: int| 0 <= i < old.len() && i != t ==> #[trigger] new[i] == old[i]
    &&& new[t] == (Trip { days: new[t].days, ..old[t] })
    &&& new[t].days.len() == old[t].days.len()
    &&& forall|j: int|
        0 <= j < old[t].days.len() && j != d ==> #[trigger] new[t].days@[j] == old[t].days@[j]
    &&& new[t].days@[d] == (Day { stops: new[t].days@[d].stops, ..old[t].days@[d] })
}

/// The latest end (start plus duration) among stops, if any.
pub open spec fn latest_end(stops: Seq<Stop>) -> Option<int>
    decreases stops.len(),
{
    if stops.len() == 0 {
        None
    } else {
        let e = stops.last().start_min + stops.last().dur_min;
        match latest_end(stops.drop_last()) {
            Some(m) => Some(if m >= e {
                m
            } else {
                e
            }),
            None => Some(e),
        }
    }
}

/// Do all stops end within a day's `u32` minutes?
pub open spec fn ends_fit(stops: Seq<Stop>) -> bool {
    forall|i: int| 0 <= i < stops.len() ==> #[trigger] stops[i].start_min + stops[i].dur_min <= u32::MAX
}

/// The slot a new event snaps to: at least 5 minutes.
pub open spec fn snap_slot(slot_min: u32) -> int {
    if slot_min < 5 {
        5
    } else {
        slot_min as int
    }
}

/// The earliest a new event may start: when the day's last event ends, or 9:00
/// for an empty day.
pub open spec fn new_event_after(stops: Seq<Stop>) -> int {
    match latest_end(stops) {
        Some(e) => e,
        None => 540,
    }
}

/// The start of a new event: the first slot boundary at or after the end of the
/// day's last event (9:00 for an empty day).
pub open spec fn new_event_start(stops: Seq<Stop>, slot_min: u32) -> int {
    let after = new_event_after(stops);
    let slot = snap_slot(slot_min);
    if after % slot == 0 {
        after
    } else {
        (after / slot + 1) * slot
    }
}

/// The new event's start is a slot boundary, no earlier than the day's last end
/// and less than one slot after it.
pub proof fn lemma_new_event_start_bounds(stops: Seq<Stop>, slot_min: u32)
    requires
        new_event_after(stops) >= 0,
    ensures
        new_event_start(stops, slot_min) % snap_slot(slot_min) == 0,
        new_event_after(stops) <= new_event_start(stops, slot_min),
        new_event_start(stops, slot_min) < new_event_after(stops) + snap_slot(slot_min),
{
    let after = new_event_after(stops);
    let slot = snap_slot(slot_min);
    assert(slot > 0);
    if after % slot != 0 {
        assert((after / slot + 1) * slot % slot == 0 && after < (after / slot + 1) * slot && (after / slot + 1) * slot
            < after + slot) by (nonlinear_arith)
            requires
                slot > 0,
                after >= 0,
                after % slot != 0,
        {
            assert(after == slot * (after / slot) + after % slot);
            assert((after / slot + 1) * slot == slot * (after / slot) + slot);
        }
    }
}

/// A new schedule event: "New stop" at `start` for an hour, with no place yet.
pub open spec fn is_new_event(s: Stop, id: u64, start: int) -> bool {
    &&& s.id == id
    &&& s.name@ == "New stop"@
    &&& s.activity@.len() == 0
    &&& s.commute is None
    &&& s.lat == 0
    &&& s.lng == 0
    &&& s.start_min == start
    &&& s.dur_min == 60
}

/// Which stops stay when the event `id` is deleted.
pub open spec fn keep_other_ids(stops: Seq<Stop>, id: u64) -> Seq<bool> {
    Seq::new(stops.len(), |i: int| stops[i].id != id)
}

/// The latest end of `stops` (exec form).
fn latest_end_of(stops: &Vec<Stop>) -> (r: Option<u32>)
    requires
        ends_fit(stops@),
    ensures
        (match r {
            Some(e) => Some(e as int),
            None => None,
        }) == latest_end(stops@),
{
    let mut best: Option<u32> = None;
    let mut k: usize = 0;
    while k < stops.len()
        invariant
            k <= stops.len(),
            ends_fit(stops@),
            (match best {
                Some(e) => Some(e as int),
                None => None,
            }) == latest_end(stops@.take(k as int)),
        decreases stops.len() - k,
    {
        let e = stops[k].start_min + stops[k].dur_min;
        assert(stops@.take(k + 1).drop_last() == stops@.take(k as int));
        best = match best {
            Some(m) => Some(if m >= e { m } else { e }),
            None => Some(e),
        };
        k += 1;
    }
    assert(stops@.take(stops.len() as int) == stops@);
    best
}

impl TravelState {
    /// The demo trips, the first trip's first day selected, the schedule at
    /// 30-minute slots, and new event ids after the largest existing one.
    pub fn new() -> (s: TravelState)
        ensures
            crate::travel::is_demo_trips(s.trips@),
            s.next_event_id == 29,
            trips_ids(s.trips@) == crate::travel::id_range(1, 28),
            s.trip == 0,
            s.trip_day == 0,
            s.travel_mode == TravelMode::Schedule,
            s.slot_min == 30,
            s.next_event_id == max_id(trips_ids(s.trips@)) + 1,
    {
        let trips = initial_trips();
        let m = max_stop_id(&trips);
        proof {
            let ids = trips_ids(trips@);
            assert forall|i: int| 0 <= i < ids.len() implies ids[i] <= 28 by {}
            lemma_max_id_upper(ids, 28);
            lemma_max_id_at_least(ids, 27);
        }
        TravelState {
            trips,
            trip: 0,
            trip_day: 0,
            travel_mode: TravelMode::Schedule,
            slot_min: 30,
            next_event_id: m + 1,
        }
    }

    /// Switch to another existing trip (resets the selected day); reports whether
    /// the selection changed.
    pub fn set_trip(&mut self, trip: usize) -> (changed: bool)
        ensures
            changed == (trip < old(self).trips.len() && trip != old(self).trip),
            changed ==> *final(self) == (TravelState { trip, trip_day: 0, ..*old(self) }),
            !changed ==> *final(self) == *old(self),
    {
        if trip >= self.trips.len() || trip == self.trip {
            return false;
        }
        self.trip = trip;
        self.trip_day = 0;
        true
    }

    /// Select an itinerary day.
    pub fn set_trip_day(&mut self, day: usize)
        ensures
            *final(self) == (TravelState { trip_day: day, ..*old(self) }),
    {
        self.trip_day = day;
    }

    /// Toggle a booking's done state; reports whether there was such a booking.
    pub fn toggle_booking(&mut self, trip: usize, idx: usize) -> (r: bool)
        ensures
            r == (trip < old(self).trips.len() && idx < old(self).trips@[trip as int].bookings.len()),
            !r ==> *final(self) == *old(self),
            r ==> {
                let t = trip as int;
                let b = old(self).trips@[t].bookings@[idx as int];
                &&& *final(self) == (TravelState { trips: final(self).trips, ..*old(self) })
                &&& final(self).trips.len() == old(self).trips.len()
                &&& forall|i: int| 0 <= i < old(self).trips.len() && i != t ==> #[trigger] final(self).trips@[i]
                    == old(self).trips@[i]
                &&& final(self).trips@[t] == (Trip { bookings: final(self).trips@[t].bookings, ..old(self).trips@[t] })
                &&& final(self).trips@[t].bookings@ == old(self).trips@[t].bookings@.update(
                    idx as int,
                    Booking { label: b.label, done: !b.done },
                )
            },
    {
        if trip >= self.trips.len() || idx >= self.trips[trip].bookings.len() {
            return false;
        }
        let mut tr = self.trips.remove(trip);
        let mut b = tr.bookings.remove(idx);
        b.done = !b.done;
        tr.bookings.insert(idx, b);
        self.trips.insert(trip, tr);
        proof {
            let t = trip as int;
            assert forall|i: int| 0 <= i < old(self).trips.len() && i != t implies #[trigger] self.trips@[i]
                == old(self).trips@[i] by {
                if i < t {
                } else {
                }
            }
        }
        true
    }

    /// The selected trip and day, when both exist.
    pub fn current_day(&self) -> (r: Option<(&Trip, &Day)>)
        ensures
            r is Some <==> has_day(self.trips@, self.trip as int, self.trip_day as int),
            r matches Some(p) ==> *p.0 == self.trips@[self.trip as int] && *p.1 == self.trips@[self.trip as int].days@[self.trip_day as int],
    {
        if self.trip < self.trips.len() && self.trip_day < self.trips[self.trip].days.len() {
            let t = &self.trips[self.trip];
            Some((t, &t.days[self.trip_day]))
        } else {
            None
        }
    }

    /// The browser link for the selected day's route, if the day has stops.
    pub fn route_url(&self) -> (r: Option<String>)
        ensures
            !has_day(self.trips@, self.trip as int, self.trip_day as int) ==> r is None,
            has_day(self.trips@, self.trip as int, self.trip_day as int) ==> {
                let t = self.trips@[self.trip as int];
                let d = t.days@[self.trip_day as int];
                &&& (r is None <==> d.stops@.len() == 0)
                &&& r matches Some(u) ==> exists|p: Seq<usize>|
                    #[trigger] crate::travel::is_timeline_order(d.stops@, p) && u@
                        == crate::travel::directions_text(t, crate::travel::timeline_of(d.stops@, p))
            },
    {
        match self.current_day() {
            Some((t, d)) => directions_url(t, d),
            None => None,
        }
    }

    /// Switch the presentation; reports whether the itinerary (with its map) is
    /// now shown.
    pub fn set_travel_mode(&mut self, mode: TravelMode) -> (needs_map: bool)
        ensures
            *final(self) == (TravelState { travel_mode: mode, ..*old(self) }),
            needs_map == (mode == TravelMode::Itinerary),
    {
        self.travel_mode = mode;
        mode == TravelMode::Itinerary
    }

    /// Set the schedule zoom (minutes per grid slot), kept within 5 to 180.
    pub fn set_slot_min(&mut self, slot_min: u32)
        ensures
            *final(self) == (TravelState {
                slot_min: if slot_min < 5 {
                    5
                } else if slot_min > 180 {
                    180
                } else {
                    slot_min
                },
                ..*old(self)
            }),
    {
        self.slot_min = if slot_min < 5 {
            5
        } else if slot_min > 180 {
            180
        } else {
            slot_min
        };
    }

    /// Does adding an event to `day_idx` stay within the integer types?
    pub fn can_add_event(&self, day_idx: usize) -> (r: bool)
        ensures
            r == add_event_fits(*self, day_idx as int),
    {
        let t = self.trip;
        if t >= self.trips.len() || day_idx >= self.trips[t].days.len() {
            return true;
        }
        if self.next_event_id == u64::MAX {
            return false;
        }
        let stops = &self.trips[t].days[day_idx].stops;
        let mut k: usize = 0;
        while k < stops.len()
            invariant
                k <= stops.len(),
                t == self.trip,
                t < self.trips.len(),
                day_idx < self.trips@[t as int].days.len(),
                stops@ == self.trips@[t as int].days@[day_idx as int].stops@,
                self.next_event_id < u64::MAX,
                forall|i: int| 0 <= i < k ==> #[trigger] stops@[i].start_min + stops@[i].dur_min <= u32::MAX,
            decreases stops.len() - k,
        {
            if stops[k].start_min as u64 + stops[k].dur_min as u64 > u32::MAX as u64 {
                proof {
                    assert(stops@ == self.trips@[t as int].days@[day_idx as int].stops@);
                    assert(!ends_fit(stops@)) by {
                        assert(stops@[k as int].start_min + stops@[k as int].dur_min > u32::MAX);
                    }
                }
                return false;
            }
            k += 1;
        }
        let after: u64 = match latest_end_of(stops) {
            Some(e) => e as u64,
            None => 540,
        };
        let slot: u64 = if self.slot_min < 5 { 5 } else { self.slot_min as u64 };
        let start: u64 = if after % slot == 0 {
            after
        } else {
            proof {
                assert((after / slot + 1) * slot <= after + slot) by (nonlinear_arith)
                    requires
                        slot > 0,
                ;
            }
            (after / slot + 1) * slot
        };
        start <= u32::MAX as u64
    }

    /// Add a new event to a day of the selected trip, starting after the day's
    /// last event (at the first slot boundary at or after its end), or at 9:00 on
    /// an empty day. Reports whether there was such a day.
    pub fn add_event(&mut self, day_idx: usize) -> (r: bool)
        requires
            add_event_fits(*old(self), day_idx as int),
        ensures
            r == has_day(old(self).trips@, old(self).trip as int, day_idx as int),
            !r ==> *final(self) == *old(self),
            r ==> {
                let t = old(self).trip as int;
                let d = day_idx as int;
                let stops = old(self).trips@[t].days@[d].stops@;
                &&& *final(self) == (TravelState {
                    trips: final(self).trips,
                    next_event_id: (old(self).next_event_id + 1) as u64,
                    ..*old(self)
                })
                &&& only_stops_changed(old(self).trips@, final(self).trips@, t, d)
                &&& final(self).trips@[t].days@[d].stops@.len() == stops.len() + 1
                &&& final(self).trips@[t].days@[d].stops@.drop_last() == stops
                &&& is_new_event(
                    final(self).trips@[t].days@[d].stops@.last(),
                    old(self).next_event_id,
                    new_event_start(stops, old(self).slot_min),
                )
                &&& new_event_after(stops) <= final(self).trips@[t].days@[d].stops@.last().start_min
                &&& final(self).trips@[t].days@[d].stops@.last().start_min < new_event_after(stops) + snap_slot(
                    old(self).slot_min,
                )
                &&& (final(self).trips@[t].days@[d].stops@.last().start_min as int) % snap_slot(old(self).slot_min) == 0
            },
    {
        let t = self.trip;
        if t >= self.trips.len() || day_idx >= self.trips[t].days.len() {
            return false;
        }
        let id = self.next_event_id;
        let slot: u32 = if self.slot_min < 5 { 5 } else { self.slot_min };
        let after = match latest_end_of(&self.trips[t].days[day_idx].stops) {
            Some(e) => e,
            None => 540,
        };
        let q = after / slot;
        proof {
            assert(q * slot <= after) by (nonlinear_arith)
                requires
                    slot > 0,
                    q == after / slot,
            ;
            assert(after % slot == after - q * slot) by (nonlinear_arith)
                requires
                    slot > 0,
                    q == after / slot,
            ;
        }
        proof {
            lemma_new_event_start_bounds(self.trips@[t as int].days@[day_idx as int].stops@, self.slot_min);
        }
        let start = if after % slot == 0 {
            after
        } else {
            proof {
                assert((q + 1) * slot == q * slot + slot) by (nonlinear_arith);
            }
            (q + 1) * slot
        };
        let stop = Stop {
            id,
            name: String::from_str("New stop"),
            activity: String::new(),
            commute: None,
            lat: 0,
            lng: 0,
            start_min: start,
            dur_min: 60,
        };
        let mut tr = self.trips.remove(t);
        let mut dy = tr.days.remove(day_idx);
        let ghost old_stops = dy.stops@;
        dy.stops.push(stop);
        tr.days.insert(day_idx, dy);
        self.trips.insert(t, tr);
        self.next_event_id = id + 1;
        proof {
            let ti = t as int;
            assert forall|i: int| 0 <= i < old(self).trips.len() && i != ti implies #[trigger] self.trips@[i]
                == old(self).trips@[i] by {
                if i < ti {
                } else {
                }
            }
            assert forall|j: int|
                0 <= j < old(self).trips@[ti].days.len() && j != day_idx implies #[trigger] self.trips@[ti].days@[j]
                == old(self).trips@[ti].days@[j] by {
                if j < day_idx {
                } else {
                }
            }
            assert(self.trips@[ti].days@[day_idx as int].stops@.drop_last() == old_stops);
        }
        true
    }

    /// Delete an event by id from a day of the selected trip; reports whether
    /// there was such a day.
    pub fn delete_event(&mut self, day_idx: usize, event_id: u64) -> (r: bool)
        ensures
            r == has_day(old(self).trips@, old(self).trip as int, day_idx as int),
            !r ==> *final(self) == *old(self),
            r ==> {
                let t = old(self).trip as int;
                let d = day_idx as int;
                let stops = old(self).trips@[t].days@[d].stops@;
                &&& *final(self) == (TravelState { trips: final(self).trips, ..*old(self) })
                &&& only_stops_changed(old(self).trips@, final(self).trips@, t, d)
                &&& final(self).trips@[t].days@[d].stops@ == kept(stops, keep_other_ids(stops, event_id))
            },
    {
        let t = self.trip;
        if t >= self.trips.len() || day_idx >= self.trips[t].days.len() {
            return false;
        }
        let mut tr = self.trips.remove(t);
        let mut dy = tr.days.remove(day_idx);
        let mut keep: Vec<bool> = Vec::new();
        let mut k: usize = 0;
        while k < dy.stops.len()
            invariant
                k <= dy.stops.len(),
                keep@ == keep_other_ids(dy.stops@, event_id).take(k as int),
            decreases dy.stops.len() - k,
        {
            keep.push(dy.stops[k].id != event_id);
            assert(keep_other_ids(dy.stops@, event_id).take(k + 1) == keep_other_ids(dy.stops@, event_id).take(
                k as int,
            ).push(dy.stops@[k as int].id != event_id));
            k += 1;
        }
        assert(keep_other_ids(dy.stops@, event_id).take(dy.stops.len() as int) == keep_other_ids(
            dy.stops@,
            event_id,
        ));
        let mut stops: Vec<Stop> = Vec::new();
        core::mem::swap(&mut stops, &mut dy.stops);
        dy.stops = keep_flagged(stops, &keep);
        tr.days.insert(day_idx, dy);
        self.trips.insert(t, tr);
        proof {
            let ti = t as int;
            assert forall|i: int| 0 <= i < old(self).trips.len() && i != ti implies #[trigger] self.trips@[i]
                == old(self).trips@[i] by {
                if i < ti {
                } else {
                }
            }
            assert forall|j: int|
                0 <= j < old(self).trips@[ti].days.len() && j != day_idx implies #[trigger] self.trips@[ti].days@[j]
                == old(self).trips@[ti].days@[j] by {
                if j < day_idx {
                } else {
                }
            }
        }
        true
    }
}

proof fn lemma_max_id_at_least(s: Seq<u64>, i: int)
    requires
        0 <= i < s.len(),
    ensures
        max_id(s) >= s[i],
    decreases s.len(),
{
    if i < s.len() - 1 {
        assert(s.drop_last()[i] == s[i]);
        lemma_max_id_at_least(s.drop_last(), i);
    }
}

proof fn lemma_max_id_upper(s: Seq<u64>, b: int)
    requires
        forall|i: int| 0 <= i < s.len() ==> s[i] <= b,
        0 <= b,
    ensures
        max_id(s) <= b,
    decreases s.len(),
{
    if s.len() > 0 {
        lemma_max_id_upper(s.drop_last(), b);
    }
}

/// Deleting the event that was just added (under an id no other stop of the day
/// has) gives the day's stops back.
pub proof fn lemma_delete_undoes_add(stops: Seq<Stop>, added: Stop)
    requires
        forall|i: int| 0 <= i < stops.len() ==> #[trigger] stops[i].id != added.id,
    ensures
        kept(stops.push(added), keep_other_ids(stops.push(added), added.id)) == stops,
{
    let all = stops.push(added);
    let flags = keep_other_ids(all, added.id);
    assert(flags.drop_last() == keep_other_ids(stops, added.id));
    assert(all.drop_last() == stops);
    crate::order::lemma_kept_all(stops, keep_other_ids(stops, added.id));
}

} // verus!
