use silo::planner::{day_title, initial_tasks, iso_date, month_grid, month_title, week_of, Date};
use silo::planner_state::PlannerState;

fn d(y: i32, m: u32, day: u32) -> Date {
    Date::from_ymd(y, m, day).unwrap()
}

#[test]
fn week_of_starts_monday_and_contains_date() {
    let w = week_of(d(2026, 8, 6)); // a Thursday
    assert_eq!(w[0].weekday(), 0); // Monday
    assert!(w.contains(&d(2026, 8, 6)));
    assert_eq!(w[6], w[0].checked_add_days(6).unwrap());
}

#[test]
fn month_grid_covers_every_day_once() {
    let grid = month_grid(d(2026, 8, 15));
    let days: Vec<Date> = grid.iter().flatten().flatten().copied().collect();
    assert_eq!(days.len(), 31); // August
    assert!(days.contains(&d(2026, 8, 1)));
    assert!(days.contains(&d(2026, 8, 31)));
}

#[test]
fn initial_tasks_are_dated_and_unique() {
    let tasks = initial_tasks(d(2026, 8, 2));
    assert!(!tasks.is_empty());
    let today = tasks.iter().filter(|t| t.date == d(2026, 8, 2)).count();
    assert_eq!(today, 3);
}

#[test]
fn month_grid_pads_before_the_first_weekday() {
    // 1 August 2026 is a Saturday: five padding cells, then six rows in all.
    let grid = month_grid(d(2026, 8, 15));
    assert_eq!(grid.len(), 6);
    assert_eq!(grid[0][4], None);
    assert_eq!(grid[0][5], Some(d(2026, 8, 1)));
    assert_eq!(grid[5][0], Some(d(2026, 8, 31)));
    assert_eq!(grid[5][1], None);
}

#[test]
fn invalid_dates_are_refused() {
    assert!(Date::from_ymd(2026, 2, 29).is_none());
    assert!(Date::from_ymd(2028, 2, 29).is_some());
    assert!(Date::from_ymd(1900, 2, 29).is_none());
    assert!(Date::from_ymd(2000, 2, 29).is_some());
    assert!(Date::from_ymd(2026, 13, 1).is_none());
    assert!(Date::from_ymd(2026, 4, 31).is_none());
}

#[test]
fn titles_and_iso_dates() {
    assert_eq!(month_title(d(2026, 8, 2)), "August 2026");
    assert_eq!(day_title(d(2026, 8, 2)), "Sun, Aug 2");
    assert_eq!(iso_date(d(2026, 8, 2)), "2026-08-02");
    assert_eq!(d(2026, 8, 31).checked_add_days(1), Some(d(2026, 9, 1)));
    assert_eq!(d(2026, 3, 1).checked_sub_days(1), Some(d(2026, 2, 28)));
}

#[test]
fn tasks_on_lists_undone_first_then_by_id() {
    let today = d(2026, 8, 2);
    let mut p = PlannerState::new(today);
    let ids: Vec<u64> = p.tasks_on(today).iter().map(|t| t.id).collect();
    assert_eq!(ids, vec![1, 2, 3]);
    assert!(p.toggle_task(1));
    let ids: Vec<u64> = p.tasks_on(today).iter().map(|t| t.id).collect();
    assert_eq!(ids, vec![2, 1, 3]);
    assert!(!p.toggle_task(99));
    p.delete_task(2);
    let ids: Vec<u64> = p.tasks_on(today).iter().map(|t| t.id).collect();
    assert_eq!(ids, vec![1, 3]);
}

#[test]
fn prompt_adds_trimmed_task_on_its_day() {
    let today = d(2026, 8, 2);
    let mut p = PlannerState::new(today);
    let day = d(2026, 8, 9);
    p.begin_add_task(day);
    assert!(p.prompt_open);
    assert_eq!(p.prompt_title, "New task");
    p.prompt_push("  call Bo");
    p.prompt_push("bx ");
    p.prompt_backspace();
    p.prompt_backspace();
    p.prompt_confirm();
    assert!(!p.prompt_open);
    assert_eq!(p.prompt_text, "");
    let t = p.tasks.last().unwrap();
    assert_eq!(t.id, 8);
    assert_eq!(t.date, day);
    assert_eq!(t.text, "call Bob");
    assert!(!t.done);
    assert_eq!(p.next_task_id, 9);
}

#[test]
fn blank_prompt_adds_nothing() {
    let mut p = PlannerState::new(d(2026, 8, 2));
    p.begin_add_task(d(2026, 8, 3));
    p.prompt_push("   ");
    p.prompt_confirm();
    assert_eq!(p.tasks.len(), 7);
    assert_eq!(p.next_task_id, 8);
}

#[test]
fn seed_tasks_have_their_texts_and_flags() {
    let tasks = initial_tasks(Date::from_ymd(2026, 8, 2).unwrap());
    let texts: Vec<&str> = tasks.iter().map(|t| t.text.as_str()).collect();
    assert_eq!(
        texts,
        vec!["send draft to Ana", "book dentist", "morning run — 5k", "review Kyoto itinerary", "weekly review", "ship draft", "pay rent"]
    );
    let done: Vec<bool> = tasks.iter().map(|t| t.done).collect();
    assert_eq!(done, vec![false, false, true, false, false, false, true]);
}

#[test]
fn iso_dates_sign_years_outside_four_digits() {
    let d = |y, m, day| Date::from_ymd(y, m, day).unwrap();
    assert_eq!(iso_date(d(2026, 8, 2)), "2026-08-02");
    assert_eq!(iso_date(d(12, 1, 9)), "0012-01-09");
    assert_eq!(iso_date(d(-1, 3, 4)), "-0001-03-04");
    assert_eq!(iso_date(d(10000, 12, 31)), "+10000-12-31");
}
