use chrono::{Datelike, NaiveDate};
use spatial_os::calendar::Date;
use spatial_os::domain::Domain;
use spatial_os::intelligence::baseline::{
    clock, conclude, form, middle, observation_text, offer, period_phrase, phrase, plan, windows,
    Config, DayClass, DayRow, ExistingObservation, Form, Group, Plan, Reading, WarmupStatus,
};
use spatial_os::intelligence::patterns::{
    aggregate, aggregate_in, dim, domain_of, unit, ActivityEvent, DailyValue, Quantity,
};
use spatial_os::intelligence::store::{ledger_event, midnight_utc};

fn day(s: &str) -> Date {
    let d = NaiveDate::parse_from_str(s, "%Y-%m-%d").unwrap();
    Date::from_ymd(d.year(), d.month(), d.day()).unwrap()
}

fn later(d: Date, days: i32) -> Date {
    Date { number: d.number + days }
}

/// One daily value; the library sees the row, the value stays here.
struct Sample {
    row: DayRow,
    value: f64,
}

fn series(dimension: &str, from: &str, days: i32, weekday_value: impl Fn(i64) -> f64) -> Vec<Sample> {
    let start = day(from);
    (0..days)
        .map(|i| later(start, i))
        .filter(|d| DayClass::of(*d) == DayClass::Weekday)
        .enumerate()
        .map(|(i, d)| Sample {
            row: DayRow { user_id: "u".to_string(), day: d, dimension: dimension.to_string() },
            value: weekday_value(i as i64),
        })
        .collect()
}

fn median(values: &mut [f64]) -> Option<f64> {
    values.sort_by(|a, b| a.partial_cmp(b).unwrap());
    middle(values.len()).map(|(lo, hi)| if lo == hi { values[lo] } else { (values[lo] + values[hi]) / 2.0 })
}

fn mad(values: &[f64], center: f64) -> f64 {
    let mut dev: Vec<f64> = values.iter().map(|v| (v - center).abs()).collect();
    median(&mut dev).unwrap_or(0.0)
}

fn floor(dimension: &str) -> f64 {
    match dimension {
        dim::WORK_START | dim::WORK_END => 0.75,
        dim::READING_MINUTES => 10.0,
        _ => 0.0,
    }
}

/// The outcome of an evaluation over real values.
struct Outcome {
    warmup: Option<WarmupStatus>,
    drifts: Vec<usize>,
    cooled_down: Vec<String>,
    dimensions: Option<Vec<String>>,
    text: String,
}

fn evaluate(samples: Vec<Sample>, as_of: Date, existing: &Vec<ExistingObservation>, cfg: &Config) -> Outcome {
    let values: Vec<f64> = samples.iter().map(|s| s.value).collect();
    let rows: Vec<DayRow> = samples.into_iter().map(|s| s.row).collect();
    let groups = match plan("u", &rows, as_of, cfg) {
        Plan::Warmup(w) => {
            return Outcome { warmup: Some(w), drifts: vec![], cooled_down: vec![], dimensions: None, text: String::new() }
        }
        Plan::Groups(groups) => groups,
    };
    let of = |indices: &Vec<usize>| indices.iter().map(|i| values[*i]).collect::<Vec<f64>>();
    let mut readings = vec![];
    let mut medians = vec![];
    for g in &groups {
        let mut base = of(&g.base);
        let med = median(&mut base).unwrap();
        let threshold = (2.5 * mad(&base, med)).max(floor(&g.dimension));
        let mut recent = of(&g.recent);
        let mut short = of(&g.short);
        let days_beyond = recent.iter().filter(|v| (*v - med).abs() > threshold).count();
        let delta = median(&mut recent).map_or(0.0, |m| m - med);
        let short_delta = median(&mut short).map_or(0.0, |m| m - med);
        readings.push(Reading {
            recent_beyond: delta.abs() > threshold,
            short_beyond: short_delta.abs() > threshold,
            same_side: delta.signum() == short_delta.signum(),
            days_beyond,
        });
        medians.push((med + delta, med));
    }
    let c = conclude(&groups, &readings, existing, as_of, cfg);
    let mut out = Outcome { warmup: None, drifts: c.drifts, cooled_down: c.cooled_down, dimensions: None, text: String::new() };
    if let Some(spoken) = c.observation {
        let sentences: Vec<String> = spoken
            .groups
            .iter()
            .map(|i| {
                let g = &groups[*i];
                let say = |v: f64| match form(&g.dimension) {
                    Form::Clock => clock((v * 60.0).round() as i64),
                    Form::Hours => format!("{:.1}", v / 60.0),
                    Form::Whole => format!("{v:.0}"),
                    Form::Tenths => format!("{v:.1}"),
                };
                phrase(&g.dimension, g.day_class, &say(medians[*i].0), &say(medians[*i].1))
            })
            .collect();
        out.text = observation_text(cfg.recent_days, &sentences);
        out.dimensions = Some(spoken.dimensions);
    }
    out
}

#[test]
fn median_and_mad_are_robust() {
    assert_eq!(median(&mut [3.0, 1.0, 2.0]), Some(2.0));
    assert_eq!(median(&mut [4.0, 1.0, 3.0, 2.0]), Some(2.5));
    assert_eq!(median(&mut []), None);
    let mut v = vec![17.5, 17.4, 17.6, 17.5, 23.0]; // one late night
    let m = median(&mut v).unwrap();
    assert_eq!(m, 17.5);
    assert!(mad(&v, m) < 0.2);
    assert_eq!(middle(0), None);
    assert_eq!(middle(1), Some((0, 0)));
    assert_eq!(middle(4), Some((1, 2)));
    assert_eq!(middle(5), Some((2, 2)));
}

#[test]
fn day_class_and_clock_format() {
    let clock_hours = |hours: f64| clock((hours * 60.0).round() as i64);
    assert_eq!(DayClass::of(day("2026-09-19")), DayClass::Weekend); // Saturday
    assert_eq!(DayClass::of(day("2026-09-14")), DayClass::Weekday);
    assert_eq!(clock_hours(17.5), "17:30");
    assert_eq!(clock_hours(19.283), "19:17");
    assert_eq!(clock_hours(23.999), "00:00");
}

#[test]
fn clocks_before_midnight_and_far_away() {
    // Hours truncate toward zero while minutes wrap around.
    assert_eq!(clock(-1), "00:59");
    assert_eq!(clock(-61), "23:59");
    assert_eq!(clock(1440 + 5), "00:05");
    let expected = |t: i64| format!("{:02}:{:02}", (t / 60).rem_euclid(24), t.rem_euclid(60));
    for t in [i64::MIN, i64::MAX, -1440, 0, 59, 60] {
        assert_eq!(clock(t), expected(t));
    }
}

#[test]
fn warmup_blocks_until_fourteen_baseline_days() {
    let daily = series(dim::WORK_END, "2026-09-01", 20, |_| 17.5);
    let out = evaluate(daily, day("2026-09-20"), &vec![], &Config::default());
    assert!(out.warmup.is_some());
    assert!(out.dimensions.is_none());
}

#[test]
fn warmup_counts_days_and_not_rows() {
    let mut daily = series(dim::WORK_END, "2026-09-01", 6, |_| 17.5);
    daily.extend(series(dim::WORK_START, "2026-09-01", 6, |_| 9.0));
    let w = evaluate(daily, day("2026-09-20"), &vec![], &Config::default()).warmup.unwrap();
    assert_eq!((w.days_seen, w.days_needed), (4, 14));
}

fn shifted() -> Vec<Sample> {
    // 28 baseline weekdays at 17:30, then 14 recent weekdays at 19:15; reading 30 → 8.
    let mut daily = series(dim::WORK_END, "2026-08-03", 28, |_| 17.5);
    daily.extend(series(dim::WORK_END, "2026-08-31", 14, |_| 19.25));
    daily.extend(series(dim::READING_MINUTES, "2026-08-03", 28, |i| 30.0 + (i % 3) as f64));
    daily.extend(series(dim::READING_MINUTES, "2026-08-31", 14, |_| 8.0));
    daily
}

#[test]
fn two_shifted_dimensions_make_one_observation_and_cooldown_suppresses_it() {
    let as_of = day("2026-09-13");
    let out = evaluate(shifted(), as_of, &vec![], &Config::default());
    assert!(out.warmup.is_none());
    assert_eq!(out.drifts.len(), 2);
    let dimensions = out.dimensions.expect("meaningful");
    assert_eq!(dimensions, vec![dim::READING_MINUTES.to_string(), dim::WORK_END.to_string()]);
    assert!(out.text.contains("two weeks") && out.text.contains("19:15") && out.text.contains("your usual is 17:30"), "{}", out.text);

    let recent = vec![ExistingObservation { dimensions: dimensions.clone(), created_on: later(as_of, -2) }];
    let again = evaluate(shifted(), as_of, &recent, &Config::default());
    assert!(again.dimensions.is_none());
    assert_eq!(again.cooled_down.len(), 2);

    let old = vec![ExistingObservation { dimensions, created_on: later(as_of, -8) }];
    assert!(evaluate(shifted(), as_of, &old, &Config::default()).dimensions.is_some());
}

#[test]
fn a_single_busy_week_does_not_count_as_drift() {
    // Recent 14 days: first week late, second week back to normal → 7-day window disagrees.
    let mut daily = series(dim::WORK_END, "2026-08-03", 28, |_| 17.5);
    daily.extend(series(dim::WORK_END, "2026-08-31", 7, |_| 19.5));
    daily.extend(series(dim::WORK_END, "2026-09-07", 7, |_| 17.5));
    let out = evaluate(daily, day("2026-09-13"), &vec![], &Config::default());
    assert!(out.drifts.is_empty(), "{:?}", out.drifts);
}

#[test]
fn the_text_of_an_observation_is_neutral() {
    let out = evaluate(shifted(), day("2026-09-13"), &vec![], &Config::default());
    assert_eq!(
        out.text,
        "Over the last two weeks, you read about 8 minutes a day on weekdays; your usual is 31. \
         Your work day ended around 19:15 on weekdays; your usual is 17:30."
    );
    assert_eq!(offer(), "Would you like me to help you review what's changed?");
}

#[test]
fn a_disabled_dimension_is_not_seen() {
    let mut cfg = Config::default();
    cfg.disabled = vec![dim::READING_MINUTES.to_string()];
    let out = evaluate(shifted(), day("2026-09-13"), &vec![], &cfg);
    assert_eq!(out.drifts.len(), 1);
    // One dimension that was beyond its threshold on ten days speaks alone.
    assert_eq!(out.dimensions, Some(vec![dim::WORK_END.to_string()]));
    cfg.single_dimension_min_days = 11;
    let out = evaluate(shifted(), day("2026-09-13"), &vec![], &cfg);
    assert_eq!(out.dimensions, None);
}

/// The dimensions of the groups, each with its baseline values.
fn baselines(samples: Vec<Sample>, as_of: Date, cfg: &Config) -> Vec<(String, Vec<f64>)> {
    let values: Vec<f64> = samples.iter().map(|s| s.value).collect();
    let rows: Vec<DayRow> = samples.into_iter().map(|s| s.row).collect();
    match plan("u", &rows, as_of, cfg) {
        Plan::Groups(gs) => gs.iter().map(|g| (g.dimension.clone(), g.base.iter().map(|i| values[*i]).collect())).collect(),
        Plan::Warmup(_) => vec![],
    }
}

#[test]
fn recent_rows_leave_the_baseline_alone() {
    let (as_of, cfg) = (day("2026-09-13"), Config::default());
    let early: Vec<Sample> = shifted().into_iter().filter(|s| s.row.day.number < day("2026-08-31").number).collect();
    let mut busy = series(dim::SLEEP_HOURS, "2026-08-31", 60, |_| 1.0);
    busy.extend(shifted());
    let want = baselines(shifted(), as_of, &cfg);
    assert_eq!(want.len(), 2);
    assert_eq!(want[1], (dim::WORK_END.to_string(), vec![17.5; 20]));
    assert_eq!(baselines(early, as_of, &cfg), want);
    assert_eq!(baselines(busy, as_of, &cfg), want);
    let late = series(dim::WORK_END, "2026-08-31", 14, |_| 17.5);
    let w = evaluate(late, as_of, &vec![], &cfg).warmup.unwrap();
    assert_eq!(w.days_seen, 0, "recent days are no part of the warm-up");
}

#[test]
fn rows_that_do_not_matter_change_nothing() {
    let as_of = day("2026-09-13");
    let mut cfg = Config::default();
    cfg.disabled = vec![dim::SLEEP_HOURS.to_string()];
    let want = evaluate(shifted(), as_of, &vec![], &cfg);
    let mut noisy = series(dim::WORK_END, "2026-06-01", 60, |_| 3.0);
    noisy.extend(series(dim::SLEEP_HOURS, "2026-08-03", 42, |i| i as f64));
    noisy.extend(shifted());
    noisy.extend(series(dim::WORK_END, "2026-09-14", 30, |_| 3.0));
    noisy.extend(series(dim::WORK_END, "2026-08-03", 42, |_| 3.0).into_iter().map(|mut s| {
        s.row.user_id = "v".to_string();
        s
    }));
    // The first series reaches no day of the baseline window.
    assert!(day("2026-06-01").number + 60 < day("2026-08-03").number);
    let out = evaluate(noisy, as_of, &vec![], &cfg);
    assert!(out.warmup.is_none());
    assert_eq!((out.drifts, out.cooled_down, out.dimensions, out.text), (want.drifts, want.cooled_down, want.dimensions, want.text));
}

#[test]
fn windows_meet_but_do_not_overlap() {
    let as_of = day("2026-09-13");
    let w = windows(as_of, &Config::default());
    let number = |s: &str| day(s).number as i64;
    assert_eq!(w.recent_start, number("2026-08-31"));
    assert_eq!(w.base_end, number("2026-08-30"));
    assert_eq!(w.base_start, number("2026-08-03"));
    assert_eq!(w.short_start, number("2026-09-07"));
}

#[test]
fn weekdays_are_spoken_of_first_and_at_most_three_dimensions() {
    let group = |dimension: &str, day_class| Group {
        dimension: dimension.to_string(),
        day_class,
        base: vec![],
        recent: vec![],
        short: vec![],
        comparable: true,
    };
    let groups = vec![
        group("a", DayClass::Weekend),
        group("b", DayClass::Weekday),
        group("b", DayClass::Weekend),
        group("c", DayClass::Weekend),
        group("d", DayClass::Weekday),
    ];
    let beyond = Reading { recent_beyond: true, short_beyond: true, same_side: true, days_beyond: 0 };
    let c = conclude(&groups, &vec![beyond; 5], &vec![], day("2026-09-13"), &Config::default());
    assert_eq!(c.drifts, vec![0, 1, 2, 3, 4]);
    let spoken = c.observation.unwrap();
    assert_eq!(spoken.groups, vec![1, 4, 0]);
    assert_eq!(spoken.dimensions.len(), 3);
    // A group that has too few samples, or whose windows disagree, has not drifted.
    let mut fewer = groups;
    fewer[0].comparable = false;
    let mut readings = vec![beyond; 5];
    readings[1].same_side = false;
    readings[2].short_beyond = false;
    readings[3].recent_beyond = false;
    let c = conclude(&fewer, &readings, &vec![], day("2026-09-13"), &Config::default());
    assert_eq!(c.drifts, vec![4]);
    assert!(c.observation.is_none());
}

#[test]
fn phrases_name_the_number_the_days_and_the_baseline() {
    let p = |d: &str| phrase(d, DayClass::Weekend, "1", "2");
    assert_eq!(p(dim::WORK_START), "your work day started around 1 at weekends; your usual is 2");
    assert_eq!(p(dim::WORK_MINUTES), "you worked about 1 hours a day at weekends; your usual is 2");
    assert_eq!(p(dim::READING_SESSIONS), "you read 1 times a day at weekends; your usual is 2");
    assert_eq!(p(dim::COMMS_FAMILY_VOLUME), "you exchanged about 1 family messages a day at weekends; your usual is 2");
    assert_eq!(p(dim::COMMS_WORK_VOLUME), "you handled about 1 work messages a day at weekends; your usual is 2");
    assert_eq!(p(dim::TASKS_POSTPONED), "you postponed about 1 personal tasks a day at weekends; your usual is 2");
    assert_eq!(p(dim::EXERCISE_SESSIONS), "you exercised 1 times a day at weekends; your usual is 2");
    assert_eq!(p(dim::SLEEP_HOURS), "you slept about 1 hours at weekends; your usual is 2");
    assert_eq!(p("water.glasses"), "water.glasses was 1 at weekends; your usual is 2");
    assert_eq!(form(dim::WORK_MINUTES), Form::Hours);
    assert_eq!(form("water.glasses"), Form::Tenths);
    assert_eq!(period_phrase(7), "week");
    assert_eq!(period_phrase(21), "3 weeks");
    assert_eq!(period_phrase(-7), "-1 weeks");
    assert_eq!(period_phrase(10), "10 days");
    assert_eq!(observation_text(10, &vec!["ßa".to_string(), "ßb".to_string(), String::new()]), "Over the last 10 days, ßa. SSb. .");
}

#[test]
fn day_classes_have_names() {
    for c in [DayClass::Weekday, DayClass::Weekend] {
        assert_eq!(DayClass::parse(c.as_str()), Some(c));
    }
    assert_eq!(DayClass::parse("Weekday"), None);
}

fn event(domain: Domain, agent: &str, kind: &str) -> ActivityEvent {
    ActivityEvent {
        user_id: "u".to_string(),
        secs: at(0, 0),
        domain,
        agent_id: agent.to_string(),
        kind: kind.to_string(),
        meta_minutes: false,
        meta_hours: false,
        duration_ms: None,
    }
}

fn at(h: u32, m: u32) -> i64 {
    NaiveDate::from_ymd_opt(2026, 9, 14).unwrap().and_hms_opt(h, m, 0).unwrap().and_utc().timestamp()
}

fn hours(second: u32) -> f64 {
    (second / 3600) as f64 + (second / 60 % 60) as f64 / 60.0 + (second % 60) as f64 / 3600.0
}

/// The number that a quantity stands for, given each event's number.
fn value(q: &Quantity, numbers: &[f64]) -> f64 {
    match q {
        Quantity::Clock(s) => hours(*s),
        Quantity::Between(first, last) => (hours(*last) - hours(*first)) * 60.0,
        Quantity::Minutes(of) => of.iter().map(|i| numbers[*i]).sum(),
        Quantity::Count(n) => *n as f64,
        Quantity::MostHours(of) => of.iter().map(|i| numbers[*i]).fold(f64::MIN, f64::max),
    }
}

#[test]
fn aggregate_in_offset_moves_day_boundary_and_clock() {
    let mut ev = event(Domain::Work, "email", "tool_call");
    ev.secs = at(22, 30); // 22:30 UTC on 14 Sep = 01:30 on 15 Sep in Nairobi
    let daily = aggregate_in(&vec![ev], 3 * 3600);
    let end = daily.iter().find(|r| r.dimension == dim::WORK_END).unwrap();
    assert_eq!(end.day, NaiveDate::from_ymd_opt(2026, 9, 15).unwrap().num_days_from_ce() as i64);
    assert!((value(&end.quantity, &[]) - 1.5).abs() < 1e-9);
    assert_eq!(end.sample_n, 1);
}

fn working_day() -> (Vec<ActivityEvent>, Vec<f64>) {
    let mut events = vec![
        event(Domain::Work, "mother", "intent"),
        event(Domain::Work, "email", "tool_call"),
        event(Domain::Work, "productivity", "session_focus"),
        event(Domain::Home, "family", "tool_call"),
        event(Domain::Shared, "reading_knowledge", "reading"),
        event(Domain::Home, "health_wellness", "sleep"),
    ];
    events[2].meta_minutes = true;
    events[4].meta_minutes = true;
    events[5].meta_hours = true;
    let times = [at(9, 0), at(12, 30), at(17, 45), at(20, 0), at(21, 15), at(7, 0)];
    for (ev, t) in events.iter_mut().zip(times) {
        ev.secs = t;
    }
    (events, vec![0.0, 0.0, 420.0, 0.0, 25.5, 7.2])
}

#[test]
fn aggregate_builds_work_window_and_counts_per_day() {
    let (events, numbers) = working_day();
    let daily = aggregate(&events);
    let get = |d: &str| daily.iter().find(|r| r.dimension == d).map(|r| value(&r.quantity, &numbers)).unwrap();
    assert!((get(dim::WORK_START) - 9.0).abs() < 1e-9);
    assert!((get(dim::WORK_END) - 17.75).abs() < 1e-9);
    assert_eq!(get(dim::WORK_MINUTES), 420.0);
    assert_eq!(get(dim::COMMS_WORK_VOLUME), 1.0);
    assert_eq!(get(dim::COMMS_FAMILY_VOLUME), 1.0);
    assert_eq!(get(dim::READING_MINUTES), 25.5);
    assert_eq!(get(dim::READING_SESSIONS), 1.0);
    assert_eq!(get(dim::SLEEP_HOURS), 7.2);
    assert_eq!(get(dim::TASKS_POSTPONED), 0.0);
    let that_day = NaiveDate::from_ymd_opt(2026, 9, 14).unwrap().num_days_from_ce() as i64;
    assert!(daily.iter().all(|r| r.day == that_day));
}

#[test]
fn aggregate_without_work_events_emits_no_work_dimensions() {
    let ev = event(Domain::Home, "family", "tool_call");
    let daily = aggregate(&vec![ev]);
    assert!(daily.iter().all(|r| !r.dimension.starts_with("work.")));
    assert!(daily.iter().any(|r| r.dimension == dim::COMMS_FAMILY_VOLUME && value(&r.quantity, &[]) == 1.0));
}

#[test]
fn dimension_metadata_is_complete() {
    for d in dim::all() {
        let _ = unit(d);
        let _ = domain_of(d);
    }
    assert_eq!(domain_of(dim::WORK_END), Domain::Work);
    assert_eq!(domain_of(dim::SLEEP_HOURS), Domain::Home);
    assert_eq!(domain_of(dim::READING_MINUTES), Domain::Shared);
}

#[test]
fn dimensions_have_units_and_worlds() {
    assert_eq!(dim::all().len(), 10);
    assert_eq!(unit(dim::WORK_START), "clock_hours");
    assert_eq!(unit(dim::READING_MINUTES), "minutes");
    assert_eq!(unit(dim::SLEEP_HOURS), "hours");
    assert_eq!(unit("anything"), "count");
    assert_eq!(domain_of("work.anything"), Domain::Work);
    assert_eq!(domain_of(dim::COMMS_WORK_VOLUME), Domain::Work);
    assert_eq!(domain_of(dim::TASKS_POSTPONED), Domain::Home);
}

fn shown(daily: &[DailyValue]) -> Vec<(String, i64, &'static str, usize)> {
    daily.iter().map(|d| (d.user_id.clone(), d.day, d.dimension, d.sample_n)).collect()
}

#[test]
fn the_order_of_events_does_not_matter() {
    let (events, numbers) = working_day();
    let (mut turned, mut turned_numbers) = working_day();
    turned.reverse();
    turned_numbers.reverse();
    let a = aggregate(&events);
    let b = aggregate(&turned);
    assert_eq!(shown(&a), shown(&b));
    for (x, y) in a.iter().zip(&b) {
        assert_eq!(value(&x.quantity, &numbers), value(&y.quantity, &turned_numbers));
    }
}

#[test]
fn a_user_has_one_value_of_a_dimension_a_day() {
    let (mut events, _) = working_day();
    for (user, days) in [("b", 0), ("a", 1), ("a", 0), ("a", 0)] {
        let mut e = event(Domain::Work, "x", "sleep");
        e.user_id = user.to_string();
        e.secs += days * 86_400;
        events.push(e);
    }
    let mut slots: Vec<(String, i64, &str)> = aggregate(&events).into_iter().map(|d| (d.user_id, d.day, d.dimension)).collect();
    let all = slots.len();
    slots.sort();
    slots.dedup();
    assert_eq!(slots.len(), all);
    let days: Vec<(String, i64)> = slots.iter().map(|s| (s.0.clone(), s.1)).collect();
    let day = |u: &str, k: i64| days.contains(&(u.to_string(), days[0].1 + k));
    assert!(day("a", 0) && day("a", 1) && day("b", 0));
    assert!(!day("b", 1) && !day("a", 2), "a day without an event has no value");
    let names = dim::all();
    assert!((0..names.len()).all(|i| (0..i).all(|j| names[i] != names[j])));
}

#[test]
fn days_come_by_user_and_then_by_day() {
    let mut events = vec![];
    for (user, days) in [("b", 0), ("a", 1), ("a", 0), ("ab", 0)] {
        let mut e = event(Domain::Home, "x", "exercise");
        e.user_id = user.to_string();
        e.secs += days * 86_400;
        events.push(e);
    }
    let daily = aggregate(&events);
    let first = daily[0].day;
    let keys: Vec<(String, i64)> = daily.iter().step_by(6).map(|d| (d.user_id.clone(), d.day - first)).collect();
    let expected: Vec<(String, i64)> =
        [("a", 0), ("a", 1), ("ab", 0), ("b", 0)].iter().map(|(u, d)| (u.to_string(), *d)).collect();
    assert_eq!(daily.len(), 24);
    assert_eq!(keys, expected);
    assert!(aggregate(&vec![]).is_empty());
}

#[test]
fn work_without_focus_lasts_from_the_first_event_to_the_last() {
    let mut events = vec![event(Domain::Work, "a", "intent"), event(Domain::Work, "a", "session_focus")];
    events[0].secs = at(18, 0);
    events[1].secs = at(9, 30);
    let minutes = |events: &Vec<ActivityEvent>| {
        let daily = aggregate(events);
        let found = daily.into_iter().find(|r| r.dimension == dim::WORK_MINUTES);
        found.map(|r| value(&r.quantity, &[0.0, 90.0])).unwrap()
    };
    assert_eq!(minutes(&events), 510.0);
    // A session with a duration is focused work.
    events[1].duration_ms = Some(5_400_000);
    assert_eq!(minutes(&events), 90.0);
    assert!(aggregate(&events).iter().all(|r| r.dimension != dim::SLEEP_HOURS));
    // Midnight and the seconds before it belong to different days.
    events[0].secs = at(0, 0) - 1;
    events[1].secs = at(0, 0);
    let days: Vec<i64> = aggregate(&events).iter().map(|r| r.day).collect();
    assert_eq!(days.last().unwrap() - days[0], 1);
}

#[test]
fn an_observation_is_ledgered_at_midnight_of_its_day() {
    let d = day("2026-09-14");
    assert_eq!(midnight_utc(d).secs, at(0, 0));
    assert_eq!(midnight_utc(d).nanos, 0);
    let row = ledger_event("u", "drift", &vec!["a".to_string(), "b".to_string()], d);
    assert_eq!((row.user_id.as_str(), row.agent_id, row.kind), ("u", "baseline", "observation"));
    assert_eq!((row.meta_kind.as_str(), row.meta_count, row.meta_status), ("drift", 2, "new"));
    assert_eq!(row.domain, Domain::Shared);
    assert_eq!(row.ts, midnight_utc(d));
}
