use wasmcloud_utils::cron::{
    deregister, due_tasks, get_task, is_due, list_tasks, ms_to_dt, next_after, parse,
    parse_expression, register, set_enabled, tick, CronError, CronState,
};

// 2024-01-15 10:30:00 UTC
const T0: u64 = 1_705_314_600_000;

#[test]
fn test_cron_schedule_logic() {
    fn matches(mins: &[u8], hrs: &[u8], doms: &[u8], mons: &[u8], dows: &[u8], min: u8, hr: u8, dom: u8, mon: u8, dow: u8) -> bool {
        let chk = |v: &[u8], x| v.is_empty() || v.contains(&x);
        chk(mins, min) && chk(hrs, hr) && chk(doms, dom) && chk(mons, mon) && chk(dows, dow)
    }

    let s = parse("* * * * *").unwrap();
    assert!(matches(&s.minutes, &s.hours, &s.days_of_month, &s.months, &s.days_of_week, 30, 10, 15, 6, 3));

    let s = parse("30 10 * * *").unwrap();
    assert!(matches(&s.minutes, &s.hours, &s.days_of_month, &s.months, &s.days_of_week, 30, 10, 1, 1, 0));
    assert!(!matches(&s.minutes, &s.hours, &s.days_of_month, &s.months, &s.days_of_week, 31, 10, 1, 1, 0));
    assert!(!matches(&s.minutes, &s.hours, &s.days_of_month, &s.months, &s.days_of_week, 30, 11, 1, 1, 0));

    let s = parse("*/15 * * * *").unwrap();
    assert_eq!(s.minutes, vec![0, 15, 30, 45]);
    assert!(s.hours.is_empty());

    let s = parse("0 9-17 * * 1-5").unwrap();
    assert_eq!(s.minutes, vec![0]);
    assert_eq!(s.hours, vec![9, 10, 11, 12, 13, 14, 15, 16, 17]);
    assert_eq!(s.days_of_week, vec![1, 2, 3, 4, 5]);

    assert!(parse("* * *").is_err());
    assert!(parse("60 * * * *").is_err());
    assert!(parse("* 24 * * *").is_err());

    let s = parse("0,30 * * * *").unwrap();
    assert_eq!(s.minutes, vec![0, 30]);
}

#[test]
fn test_parse_wildcard() {
    let s = parse_expression("* * * * *").unwrap();
    assert!(s.minutes.is_empty());
    assert!(s.hours.is_empty());
}

#[test]
fn test_parse_specific() {
    let s = parse_expression("30 10 * * *").unwrap();
    assert_eq!(s.minutes, vec![30]);
    assert_eq!(s.hours, vec![10]);
    assert!(s.days_of_month.is_empty());
}

#[test]
fn test_parse_step() {
    let s = parse_expression("*/15 * * * *").unwrap();
    assert_eq!(s.minutes, vec![0, 15, 30, 45]);
}

#[test]
fn test_parse_range() {
    let s = parse_expression("0 9-17 * * 1-5").unwrap();
    assert_eq!(s.hours, vec![9, 10, 11, 12, 13, 14, 15, 16, 17]);
    assert_eq!(s.days_of_week, vec![1, 2, 3, 4, 5]);
}

#[test]
fn test_parse_invalid() {
    assert_eq!(parse_expression("* * *").unwrap_err(), CronError::InvalidExpression);
    assert_eq!(parse_expression("60 * * * *").unwrap_err(), CronError::InvalidExpression);
    assert_eq!(parse_expression("* 24 * * *").unwrap_err(), CronError::InvalidExpression);
}

#[test]
fn cron_parse_edge_forms() {
    // Lists are sorted and deduplicated; steps may start from a value.
    let s = parse_expression("30,0,30,5-6 * * * *").unwrap();
    assert_eq!(s.minutes, vec![0, 5, 6, 30]);
    let s = parse_expression("10/20 * * * *").unwrap();
    assert_eq!(s.minutes, vec![10, 30, 50]);
    // A leading plus sign is accepted, as `u8::from_str` accepts it.
    let s = parse_expression("+5 * * * *").unwrap();
    assert_eq!(s.minutes, vec![5]);
    // Extra whitespace between fields is ignored.
    assert!(parse_expression("  0   0 * *\t*  ").is_ok());
    // Malformed parts.
    assert!(parse_expression("*/0 * * * *").is_err());
    assert!(parse_expression("5-1 * * * *").is_err());
    assert!(parse_expression("1,,2 * * * *").is_err());
    assert!(parse_expression("* * 0 * *").is_err());
    assert!(parse_expression("* * * * * *").is_err());
    assert!(parse_expression("300 * * * *").is_err());
}

#[test]
fn cron_calendar_values() {
    let dt = ms_to_dt(T0);
    assert_eq!((dt.year, dt.month, dt.day, dt.hour, dt.minute, dt.dow), (2024, 1, 15, 10, 30, 1));
    let dt = ms_to_dt(0);
    assert_eq!((dt.year, dt.month, dt.day, dt.hour, dt.minute, dt.dow), (1970, 1, 1, 0, 0, 4));
    // 2024-02-29 12:00 UTC, a leap day.
    let dt = ms_to_dt(1_709_208_000_000);
    assert_eq!((dt.year, dt.month, dt.day, dt.hour), (2024, 2, 29, 12));
    assert_eq!(wasmcloud_utils::cron::dt_to_ms(&ms_to_dt(T0 + 59_999)), T0);
}

#[test]
fn test_next_after_specific_time() {
    let s = parse_expression("30 10 * * *").unwrap();
    let next = next_after(&s, T0).unwrap();
    let dt = ms_to_dt(next);
    assert_eq!(dt.hour, 10);
    assert_eq!(dt.minute, 30);
    assert!(next > T0);
    assert_eq!(next, T0 + 86_400_000);
}

#[test]
fn cron_next_after_year_boundary() {
    let s = parse_expression("0 0 1 1 *").unwrap();
    // 2025-01-01 00:00 UTC
    assert_eq!(next_after(&s, T0), Some(1_735_689_600_000));
    // Feb 30 never exists.
    let s = parse_expression("0 0 30 2 *").unwrap();
    assert_eq!(next_after(&s, T0), None);
}

#[test]
fn cron_next_after_leap_day() {
    // After 2024-03-01 00:00 UTC the next 29 February is in 2028.
    let s = parse_expression("0 0 29 2 *").unwrap();
    assert_eq!(next_after(&s, 1_709_251_200_000), Some(1_835_395_200_000));
    // 29 February on a Monday: 2044.
    let s = parse_expression("0 0 29 2 1").unwrap();
    assert_eq!(next_after(&s, 1_709_251_200_000), Some(2_340_316_800_000));
}

#[test]
fn test_register_and_get() {
    let mut c = CronState::new();
    register(&mut c, "heartbeat", "*/5 * * * *", T0).unwrap();
    let t = get_task(&c, "heartbeat").unwrap();
    assert_eq!(t.expression, "*/5 * * * *");
    assert!(t.enabled);
    assert!(t.next_run_ms.is_some());
}

#[test]
fn test_duplicate_task() {
    let mut c = CronState::new();
    register(&mut c, "dup", "* * * * *", T0).unwrap();
    assert_eq!(register(&mut c, "dup", "* * * * *", T0).unwrap_err(), CronError::DuplicateTask);
}

#[test]
fn test_is_due_every_minute() {
    let mut c = CronState::new();
    register(&mut c, "every-min", "* * * * *", T0).unwrap();
    let next = get_task(&c, "every-min").unwrap().next_run_ms.unwrap();
    assert_eq!(next, T0);
    assert!(!is_due(&c, "every-min", next - 1).unwrap());
    assert!(is_due(&c, "every-min", next).unwrap());
}

#[test]
fn test_tick_advances_next_run() {
    let mut c = CronState::new();
    register(&mut c, "ticker", "*/10 * * * *", T0).unwrap();
    let before = get_task(&c, "ticker").unwrap().next_run_ms.unwrap();
    tick(&mut c, "ticker", before).unwrap();
    let after = get_task(&c, "ticker").unwrap();
    assert_eq!(after.run_count, 1);
    assert_eq!(after.last_run_ms, Some(before));
    assert!(after.next_run_ms.unwrap() > before);
}

#[test]
fn test_set_enabled_disables() {
    let mut c = CronState::new();
    register(&mut c, "disabled", "* * * * *", T0).unwrap();
    set_enabled(&mut c, "disabled", false).unwrap();
    let next = get_task(&c, "disabled").unwrap().next_run_ms.unwrap();
    assert!(!is_due(&c, "disabled", next + 60_000).unwrap());
}

#[test]
fn test_deregister() {
    let mut c = CronState::new();
    register(&mut c, "gone", "* * * * *", T0).unwrap();
    deregister(&mut c, "gone").unwrap();
    assert_eq!(get_task(&c, "gone").unwrap_err(), CronError::NotFound);
}

#[test]
fn test_due_tasks_returns_only_due() {
    let mut c = CronState::new();
    register(&mut c, "due-a", "* * * * *", T0).unwrap();
    register(&mut c, "due-b", "0 0 1 1 *", T0).unwrap();
    let next_a = get_task(&c, "due-a").unwrap().next_run_ms.unwrap();
    let due = due_tasks(&c, next_a).unwrap();
    assert!(due.iter().any(|t| t.name == "due-a"));
    assert!(!due.iter().any(|t| t.name == "due-b"));
}

#[test]
fn test_list_tasks() {
    let mut c = CronState::new();
    register(&mut c, "list-a", "* * * * *", T0).unwrap();
    register(&mut c, "list-b", "0 * * * *", T0).unwrap();
    let all = list_tasks(&c).unwrap();
    assert_eq!(all.len(), 2);
}

#[test]
fn cron_errors() {
    let mut c = CronState::new();
    assert_eq!(register(&mut c, "  ", "* * * * *", T0).unwrap_err(), CronError::InvalidName);
    assert_eq!(register(&mut c, "x", "bad", T0).unwrap_err(), CronError::InvalidExpression);
    assert_eq!(tick(&mut c, "nope", T0).unwrap_err(), CronError::NotFound);
    assert_eq!(set_enabled(&mut c, "nope", true).unwrap_err(), CronError::NotFound);
    assert_eq!(is_due(&c, "nope", T0).unwrap_err(), CronError::NotFound);
    assert_eq!(deregister(&mut c, "").unwrap_err(), CronError::InvalidName);
}

#[test]
fn cron_next_after_at_the_latest_instant() {
    let max = wasmcloud_utils::cron::MAX_CRON_MS;
    let s = parse_expression("* * * * *").unwrap();
    assert_eq!(next_after(&s, max), Some((max / 60_000 + 1) * 60_000));
}
