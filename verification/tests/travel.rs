use silo::travel::{directions_url, fmt_time, initial_trips, loc, map_styles, static_map_url, Booking, Day, Stop, Trip};
use silo::travel_state::{TravelMode, TravelState};
use std::collections::HashSet;

#[test]
fn initial_trips_have_days_stops_and_unique_ids() {
    let trips = initial_trips();
    assert_eq!(trips.len(), 2);
    let mut ids = HashSet::new();
    for t in &trips {
        assert!(!t.days.is_empty());
        assert!(!t.bookings.is_empty());
        for d in &t.days {
            assert!(!d.stops.is_empty());
            for s in &d.stops {
                assert!(ids.insert(s.id), "duplicate event id {}", s.id);
                assert!(s.dur_min > 0);
            }
        }
    }
}

#[test]
fn day_timed_is_sorted_by_start() {
    let trips = initial_trips();
    let d = &trips[0].days[1];
    let times: Vec<u32> = d.timed().iter().map(|s| s.start_min).collect();
    let mut sorted = times.clone();
    sorted.sort_unstable();
    assert_eq!(times, sorted);
}

#[test]
fn static_map_url_has_style_coords_and_key() {
    let d = &initial_trips()[0].days[1];
    let url = static_map_url(&d.stops, false, "TESTKEY").unwrap();
    assert!(url.contains("&style="));
    assert!(url.contains("markers=color:0xec3013"));
    assert!(url.contains("34.99490,135.78500")); // Kiyomizu-dera
    assert!(url.contains("key=TESTKEY"));
}

#[test]
fn fmt_time_formats_hh_mm() {
    assert_eq!(fmt_time(9 * 60), "9:00");
    assert_eq!(fmt_time(13 * 60 + 5), "13:05");
}

#[test]
fn fmt_time_wraps_past_midnight() {
    assert_eq!(fmt_time(24 * 60 + 7), "0:07");
    assert_eq!(fmt_time(0), "0:00");
}

fn stop(id: u64, name: &str, start: u32, lat: i64, lng: i64) -> Stop {
    Stop {
        id,
        name: name.into(),
        activity: String::new(),
        commute: None,
        lat,
        lng,
        start_min: start,
        dur_min: 30,
    }
}

fn trip(days: Vec<Day>) -> Trip {
    Trip {
        crumb: "C".into(),
        tab: "T".into(),
        sub: "S".into(),
        title: "T".into(),
        when: "W".into(),
        country: "Portugal".into(),
        days,
        bookings: vec![Booking { label: "B".into(), done: false }],
    }
}

fn day(stops: Vec<Stop>) -> Day {
    Day {
        date: "D".into(),
        title: "T".into(),
        detail: "X".into(),
        stops,
    }
}

#[test]
fn timed_keeps_order_of_equal_starts() {
    let d = day(vec![stop(1, "a", 600, 0, 0), stop(2, "b", 540, 0, 0), stop(3, "c", 600, 0, 0)]);
    let ids: Vec<u64> = d.timed().iter().map(|s| s.id).collect();
    assert_eq!(ids, vec![2, 1, 3]);
}

#[test]
fn static_map_url_is_none_without_stops_and_single_stop_has_no_path() {
    assert!(static_map_url(&[], true, "k").is_none());
    let one = static_map_url(&[stop(1, "a", 0, -939660, 3499490)], true, "a b/c").unwrap();
    assert!(one.contains("markers=color:0xe08a70%7Clabel:1%7C-9.39660,34.99490"));
    assert!(!one.contains("&path="));
    assert!(one.ends_with("&key=a%20b%2Fc"));
    let two = static_map_url(&[stop(1, "a", 0, 1, 2), stop(2, "b", 0, 3, 4)], false, "k").unwrap();
    assert!(two.contains("&path=color:0xec3013c8%7Cweight:4%7C0.00001,0.00002%7C0.00003,0.00004"));
}

#[test]
fn map_styles_escape_bars() {
    assert_eq!(map_styles(true).len(), 11);
    let url = static_map_url(&[stop(1, "a", 0, 0, 0)], false, "k").unwrap();
    assert!(url.contains("&style=feature:all%7Celement:geometry%7Csaturation:-100"));
}

#[test]
fn directions_url_routes_through_timeline() {
    let t = trip(vec![]);
    let d = day(vec![
        stop(1, "Belém Tower", 700, 0, 0),
        stop(2, "Alfama", 540, 0, 0),
        stop(3, "LX", 600, 0, 0),
        stop(4, "Sé", 800, 0, 0),
    ]);
    let url = directions_url(&t, &d).unwrap();
    assert_eq!(
        url,
        "https://www.google.com/maps/dir/?api=1&travelmode=transit&origin=Alfama%2C%20Portugal&destination=S%C3%A9%2C%20Portugal&waypoints=LX%2C%20Portugal%7CBel%C3%A9m%20Tower%2C%20Portugal"
    );
    assert!(directions_url(&t, &day(vec![])).is_none());
    assert_eq!(loc(&d.stops[0], &t), "Belém Tower, Portugal");
}

#[test]
fn travel_state_crud() {
    let mut s = TravelState::new();
    assert_eq!(s.next_event_id, 29);
    assert!(s.toggle_booking(0, 2));
    assert!(s.trips[0].bookings[2].done);
    assert!(!s.toggle_booking(5, 0));
    s.set_slot_min(1);
    assert_eq!(s.slot_min, 5);
    s.set_slot_min(500);
    assert_eq!(s.slot_min, 180);
    s.set_slot_min(60);
    assert!(s.add_event(0));
    let last = s.trips[0].days[0].stops.last().unwrap().clone();
    // The first day's last stop ends at 13:45; the event starts on the next hour.
    assert_eq!(last.id, 29);
    assert_eq!(last.start_min, 14 * 60);
    assert_eq!(last.dur_min, 60);
    assert_eq!(last.name, "New stop");
    assert_eq!(s.next_event_id, 30);
    assert!(s.delete_event(0, 29));
    assert_eq!(s.trips[0].days[0].stops.len(), 3);
    assert!(!s.add_event(9));
    assert!(s.set_travel_mode(TravelMode::Itinerary));
    assert!(!s.set_travel_mode(TravelMode::Schedule));
    assert!(s.route_url().is_some());
}

#[test]
fn add_event_on_empty_day_starts_at_nine() {
    let mut s = TravelState::new();
    s.trips[0].days[0].stops.clear();
    s.set_slot_min(45);
    assert!(s.add_event(0));
    assert_eq!(s.trips[0].days[0].stops[0].start_min, 540);
}

#[test]
fn add_event_starts_after_the_last_event() {
    let mut s = TravelState::new();
    let stops = &mut s.trips[0].days[0].stops;
    stops.truncate(1);
    stops[0].start_min = 530;
    stops[0].dur_min = 60;
    s.set_slot_min(30);
    assert!(s.add_event(0));
    // The last event ends at 9:50; the new one starts at 10:00, not 9:30.
    assert_eq!(s.trips[0].days[0].stops[1].start_min, 600);
    s.set_slot_min(5);
    assert!(s.add_event(0));
    // Ends at 11:00 already on a slot boundary: the new event starts right there.
    assert_eq!(s.trips[0].days[0].stops[2].start_min, 660);
}

#[test]
fn demo_trip_data_splits_ids_by_trip() {
    let trips = initial_trips();
    assert_eq!(trips[0].crumb, "Kyoto");
    assert_eq!(trips[1].crumb, "Lisbon");
    assert_eq!(trips[0].days[0].stops[0].name, "Kyoto Station");
    assert_eq!(trips[0].days[0].stops[1].commute.as_deref(), Some("taxi · 15 min"));
    assert_eq!(trips[1].days[0].stops[0].id, 17);
    assert_eq!(trips[1].days[0].stops[0].lng, -913420);
    assert_eq!(trips[1].bookings[0].label, "Flight — LHR → LIS (TAP)");
    assert!(trips[1].bookings[0].done);
    assert_eq!(trips[1].days[3].stops[1].id, 28);
}

#[test]
fn can_add_event_checks_the_integer_limits() {
    let mut s = TravelState::new();
    assert!(s.can_add_event(0));
    assert!(s.can_add_event(42));
    s.next_event_id = u64::MAX;
    assert!(!s.can_add_event(0));
    assert!(s.can_add_event(42));
    s.next_event_id = 30;
    s.trips[0].days[0].stops[0].start_min = u32::MAX;
    assert!(!s.can_add_event(0));
}
