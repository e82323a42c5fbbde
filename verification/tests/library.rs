use aw_notify::alert::{CategoryAlert, MAX_THRESHOLD_MINUTES};
use aw_notify::category::{
    aggregate_categories_by_all_levels, aggregate_categories_by_top_level, top_level_name,
};
use aw_notify::client::{NotificationClient, NotifyError, DEFAULT_HOST, DEFAULT_PORT};
use aw_notify::config::{
    alerts_from_configs, config_path_for, config_path_under, get_default_config_path, AlertConfig, NotificationConfig,
};
use aw_notify::hourly::{hourly_action, hourly_wait_nanos, next_whole_hour, HourlyAction, HourlyEvent, LocalTime, HOURLY_TITLE};
use aw_notify::logs::{is_rotated_log, log_dir_layout, LogBase, Platform, logs_to_remove, needs_rotation, rotated_log_name, LogFile, MAX_LOG_SIZE};
use aw_notify::monitor::{afk_status, cache_is_fresh, greeting_text, AfkEvent, CalendarDay, NewDayTracker, ServerMonitor};
use aw_notify::output::{initial_checkins_output, output_line};
use aw_notify::query::{aggregate_times, collect_category_times, CategoryAggregation, CategoryEvent, EventCategory};
use aw_notify::summary::{
    checkin_message, decode_unicode_escapes, detailed_checkin_message, format_category_for_notification,
    get_all_level_categories_for_notifications, get_category_icon, get_top_categories,
    get_top_level_categories_for_notifications, icon_for_lowercase, summary_message,
};
use aw_notify::table::CategoryTimes;
use aw_notify::text::{join_strings, to_hms, u64_to_decimal};

const MIN: u64 = 60_000;

fn table(entries: &[(&str, u64)]) -> CategoryTimes {
    let mut t = CategoryTimes::new();
    for (k, v) in entries {
        t.insert(k.to_string(), *v);
    }
    t
}

fn get(t: &CategoryTimes, k: &str) -> Option<u64> {
    t.get(&k.to_string())
}

fn readme_table() -> CategoryTimes {
    table(&[
        ("Work > Programming > Rust", 30 * MIN),
        ("Work > Programming > Python", 20 * MIN),
        ("Work > Meetings", 15 * MIN),
        ("Personal > Reading", 10 * MIN),
    ])
}

#[test]
fn decimal_digits() {
    assert_eq!(u64_to_decimal(0), "0");
    assert_eq!(u64_to_decimal(7), "7");
    assert_eq!(u64_to_decimal(5667), "5667");
    assert_eq!(u64_to_decimal(u64::MAX), "18446744073709551615");
}

#[test]
fn hms_formats() {
    assert_eq!(to_hms(0), "0s");
    assert_eq!(to_hms(42), "42s");
    assert_eq!(to_hms(60), "1m");
    assert_eq!(to_hms(119), "1m");
    assert_eq!(to_hms(3600), "1h");
    assert_eq!(to_hms(3661), "1h 1m");
    assert_eq!(to_hms(86400), "1d");
    assert_eq!(to_hms(90061), "1d 1h 1m");
    assert_eq!(to_hms(86400 + 120), "1d 2m");
}

#[test]
fn join_puts_separator_between() {
    let parts = vec!["a".to_string(), "b".to_string(), "c".to_string()];
    assert_eq!(join_strings(&parts, ", "), "a, b, c");
    assert_eq!(join_strings(&Vec::new(), ", "), "");
}

#[test]
fn table_insert_add_get() {
    let mut t = CategoryTimes::new();
    assert!(t.is_empty());
    t.add("Work".to_string(), 5);
    t.add("Work".to_string(), 7);
    t.insert("All".to_string(), 3);
    t.insert("All".to_string(), 4);
    assert_eq!(t.len(), 2);
    assert_eq!(get(&t, "Work"), Some(12));
    assert_eq!(get(&t, "All"), Some(4));
    assert_eq!(get(&t, "Other"), None);
}

#[test]
fn top_level_of_names() {
    assert_eq!(top_level_name("Work > Programming > Rust"), "Work");
    assert_eq!(top_level_name("Work"), "Work");
    assert_eq!(top_level_name("a>b"), "a>b");
    assert_eq!(top_level_name(" > x"), "");
}

#[test]
fn readme_top_level_example() {
    let agg = aggregate_categories_by_top_level(&readme_table());
    assert_eq!(agg.len(), 2);
    assert_eq!(get(&agg, "Work"), Some(65 * MIN));
    assert_eq!(get(&agg, "Personal"), Some(10 * MIN));
}

#[test]
fn readme_all_levels_example() {
    let agg = aggregate_categories_by_all_levels(&readme_table());
    assert_eq!(agg.len(), 7);
    assert_eq!(get(&agg, "Work"), Some(65 * MIN));
    assert_eq!(get(&agg, "Work > Programming"), Some(50 * MIN));
    assert_eq!(get(&agg, "Work > Programming > Rust"), Some(30 * MIN));
    assert_eq!(get(&agg, "Work > Programming > Python"), Some(20 * MIN));
    assert_eq!(get(&agg, "Work > Meetings"), Some(15 * MIN));
    assert_eq!(get(&agg, "Personal"), Some(10 * MIN));
    assert_eq!(get(&agg, "Personal > Reading"), Some(10 * MIN));
}

#[test]
fn aggregations_keep_all_entry() {
    let mut t = readme_table();
    t.insert("All".to_string(), 80 * MIN);
    let top = aggregate_categories_by_top_level(&t);
    let levels = aggregate_categories_by_all_levels(&t);
    assert_eq!(get(&top, "All"), Some(80 * MIN));
    assert_eq!(get(&levels, "All"), Some(80 * MIN));
}

#[test]
fn top_level_aggregation_is_idempotent() {
    let mut t = readme_table();
    t.insert("All".to_string(), 75 * MIN);
    let once = aggregate_categories_by_top_level(&t);
    let twice = aggregate_categories_by_top_level(&once);
    assert_eq!(twice.len(), once.len());
    for i in 0..once.len() {
        assert_eq!(twice.get(once.name_at(i)), Some(once.time_at(i)));
    }
}

#[test]
fn all_levels_with_overlapping_separator() {
    // " > > " holds two overlapping separators; splitting takes the first only.
    let t = table(&[("a > > b", 10)]);
    let agg = aggregate_categories_by_all_levels(&t);
    assert_eq!(get(&agg, "a > > b"), Some(10));
    assert_eq!(get(&agg, "a"), Some(10));
    assert_eq!(agg.len(), 2);
}

#[test]
fn aggregate_times_by_mode() {
    let t = readme_table();
    let full = aggregate_times(readme_table(), CategoryAggregation::Full);
    assert_eq!(full.len(), t.len());
    let top = aggregate_times(readme_table(), CategoryAggregation::TopLevelOnly);
    assert_eq!(get(&top, "Work"), Some(65 * MIN));
    let all = aggregate_times(readme_table(), CategoryAggregation::AllLevels);
    assert_eq!(get(&all, "Work > Programming"), Some(50 * MIN));
}

#[test]
fn top_categories_sorted_and_filtered() {
    let mut t = table(&[("Work", 3600_000), ("Media", 600_000), ("Tiny", 10_000), ("Chat", 1_800_000)]);
    t.insert("All".to_string(), 6_000_000);
    let top = get_top_categories(&t, 200, 10);
    let names: Vec<&str> = top.iter().map(|p| p.0.as_str()).collect();
    assert_eq!(names, vec!["Work", "Chat", "Media"]);
    assert_eq!(top[0].1, "1h");
    assert_eq!(top[1].1, "30m");
    assert_eq!(top[2].1, "10m");
    let two = get_top_categories(&t, 200, 2);
    assert_eq!(two.len(), 2);
    assert_eq!(two[0].0, "Work");
    assert_eq!(two[1].0, "Chat");
    assert!(get_top_categories(&t, 200, 0).is_empty());
}

#[test]
fn top_categories_need_a_total() {
    let t = table(&[("Work", 3600_000)]);
    assert!(get_top_categories(&t, 200, 4).is_empty());
    let mut z = table(&[("Work", 3600_000)]);
    z.insert("All".to_string(), 0);
    assert!(get_top_categories(&z, 200, 4).is_empty());
}

#[test]
fn icons_by_lowercase_name() {
    assert_eq!(get_category_icon("Work"), "💼");
    assert_eq!(get_category_icon("GAMING"), "🎮");
    assert_eq!(get_category_icon("YouTube"), "📺");
    assert_eq!(get_category_icon("Writing"), "✍️");
    assert_eq!(get_category_icon("Something else"), "📊");
    assert_eq!(icon_for_lowercase("email"), "📧");
    assert_eq!(icon_for_lowercase("Email"), "📊");
    assert_eq!(format_category_for_notification("Work"), "💼 Work");
    assert_eq!(format_category_for_notification("Media > Video"), "📺 Media > Video");
    assert_eq!(format_category_for_notification("Work > Programming > Rust"), "📊 Work > Programming > Rust");
    assert_eq!(format_category_for_notification("a > > b"), "📊 a > > b");
    assert_eq!(decode_unicode_escapes("caf\\u00e9"), "caf\\u00e9");
}

#[test]
fn notification_lists_and_messages() {
    let mut t = readme_table();
    t.insert("All".to_string(), 75 * MIN);
    let top = get_top_level_categories_for_notifications(&t, 200, 4);
    assert_eq!(top.len(), 2);
    assert_eq!(top[0], ("💼 Work".to_string(), "1h 5m".to_string()));
    assert_eq!(top[1], ("📊 Personal".to_string(), "10m".to_string()));
    assert_eq!(checkin_message(&t).unwrap(), "- 💼 Work: 1h 5m\n- 📊 Personal: 10m");

    let levels = aggregate_categories_by_all_levels(&t);
    let detailed = get_all_level_categories_for_notifications(&levels, 200, 3);
    assert_eq!(detailed.len(), 3);
    assert_eq!(detailed[0].0, "💼 Work");
    assert_eq!(detailed[1].0, "💻 Work > Programming");
    assert_eq!(detailed[2].0, "📊 Work > Programming > Rust");
    assert!(detailed_checkin_message(&levels).unwrap().starts_with("- 💼 Work: 1h 5m\n- 💻 Work > Programming: 50m\n"));
    assert_eq!(summary_message(&Vec::new()), None);
    assert_eq!(checkin_message(&CategoryTimes::new()), None);
}

#[test]
fn all_level_notifications_doc_example() {
    let t = table(&[("All", 9_000_000), ("Work", 8_100_000), ("Work > Programming", 5_400_000)]);
    let top = get_all_level_categories_for_notifications(&t, 200, 5);
    assert_eq!(
        top,
        vec![
            ("💼 Work".to_string(), "2h 15m".to_string()),
            ("💻 Work > Programming".to_string(), "1h 30m".to_string()),
        ]
    );
}

#[test]
fn collecting_query_results() {
    let events = vec![
        CategoryEvent {
            category: Some(EventCategory::Path(vec![Some("Work".to_string()), None, Some("Rust".to_string())])),
            duration_ms: Some(1000),
        },
        CategoryEvent { category: Some(EventCategory::Name("Work > Rust".to_string())), duration_ms: Some(500) },
        CategoryEvent { category: Some(EventCategory::Path(vec![None])), duration_ms: Some(200) },
        CategoryEvent { category: Some(EventCategory::Other), duration_ms: Some(300) },
        CategoryEvent { category: None, duration_ms: Some(9999) },
        CategoryEvent { category: Some(EventCategory::Name("Skipped".to_string())), duration_ms: None },
    ];
    let t = collect_category_times(&events, None);
    assert_eq!(get(&t, "Work > Rust"), Some(1500));
    assert_eq!(get(&t, "Unknown"), Some(500));
    assert_eq!(get(&t, "Skipped"), None);
    assert_eq!(get(&t, "All"), Some(2000));
    let reported = collect_category_times(&events, Some(4242));
    assert_eq!(get(&reported, "All"), Some(4242));
    let empty = collect_category_times(&Vec::new(), None);
    assert_eq!(empty.len(), 1);
    assert_eq!(get(&empty, "All"), Some(0));
}

fn alert(thresholds_min: &[u64], positive: bool) -> CategoryAlert {
    CategoryAlert::new("Work", thresholds_min.iter().map(|m| m * MIN).collect(), Some("💼 Work"), positive)
}

#[test]
fn alert_new_and_untriggered() {
    let a = CategoryAlert::new("Work", vec![MIN], None, false);
    assert_eq!(a.label, "Work");
    assert_eq!(a.last_check, 0);
    let mut b = alert(&[15, 30, 60], true);
    assert_eq!(b.thresholds_untriggered(), vec![15 * MIN, 30 * MIN, 60 * MIN]);
    b.max_triggered = 30 * MIN;
    assert_eq!(b.thresholds_untriggered(), vec![60 * MIN]);
}

#[test]
fn alert_check_triggers_highest_reached_once() {
    let mut a = alert(&[15, 30, 60], true);
    a.apply_update(1000, Some(45 * MIN + 999));
    assert_eq!(a.time_spent, 45 * MIN);
    let n = a.check(false).unwrap();
    assert_eq!(n.title, "Goal reached!");
    assert_eq!(n.message, "💼 Work: 30m  (45m)");
    assert_eq!(a.max_triggered, 30 * MIN);
    assert!(a.check(false).is_none());
    assert_eq!(a.max_triggered, 30 * MIN);
}

#[test]
fn alert_check_exact_and_silent() {
    let mut a = alert(&[60, 120], false);
    a.apply_update(0, Some(60 * MIN));
    let n = a.check(false).unwrap();
    assert_eq!(n.title, "Time spent");
    assert_eq!(n.message, "💼 Work: 1h");
    let mut b = alert(&[60, 120], false);
    b.apply_update(0, Some(200 * MIN));
    assert!(b.check(true).is_none());
    assert_eq!(b.max_triggered, 120 * MIN);
}

#[test]
fn alert_wait_and_update() {
    let mut a = alert(&[15, 30], true);
    a.apply_update(0, Some(10 * MIN));
    assert_eq!(a.time_to_next_threshold(0), 5 * MIN);
    assert!(!a.needs_update(5 * MIN as i64, 0));
    assert!(a.needs_update(5 * MIN as i64 + 1, 0));
    a.apply_update(0, Some(40 * MIN));
    a.check(true);
    // Every threshold triggered: wait for the next day plus the smallest threshold.
    assert_eq!(a.time_to_next_threshold(1000), 1000 + 4 * 60 * MIN + 15 * MIN);
    a.apply_update(7, None);
    assert_eq!(a.time_spent, 40 * MIN);
    assert_eq!(a.last_check, 7);
    assert_eq!(a.status(), "💼 Work: 40m");
    a.record_status();
    assert_eq!(a.last_status.as_deref(), Some("💼 Work: 40m"));
}

#[test]
fn alert_wait_is_zero_once_a_threshold_is_reached() {
    let mut a = alert(&[15, 30], false);
    a.apply_update(0, Some(20 * MIN));
    assert_eq!(a.time_to_next_threshold(0), 0);
    assert!(a.needs_update(1, 0));
    a.check(true);
    assert_eq!(a.time_to_next_threshold(0), 10 * MIN);
}

#[test]
fn alert_run_notifies_each_threshold_once_after_startup() {
    let mut a = alert(&[15, 30, 60, 120], false);
    a.apply_update(0, Some(20 * MIN));
    assert!(a.check(true).is_none());
    let mut notified = Vec::new();
    for spent in [25u64, 35, 35, 70, 50, 130, 130] {
        a.apply_update(0, Some(spent * MIN));
        if a.check(false).is_some() {
            notified.push(a.max_triggered);
        }
    }
    assert_eq!(notified, vec![30 * MIN, 60 * MIN, 120 * MIN]);
}

#[test]
fn alert_mixed_run_never_repeats_or_decreases() {
    let mut a = alert(&[15, 30, 60, 120], true);
    let mut notified = Vec::new();
    let mut last_max = 0;
    for (spent, silent) in [(20u64, false), (20, false), (40, true), (70, false), (10, false), (70, true), (125, false), (125, false)] {
        a.apply_update(0, Some(spent * MIN));
        if a.check(silent).is_some() {
            notified.push(a.max_triggered);
        }
        assert!(a.max_triggered >= last_max);
        last_max = a.max_triggered;
    }
    assert_eq!(notified, vec![15 * MIN, 60 * MIN, 120 * MIN]);
    assert_eq!(a.max_triggered, 120 * MIN);
}

#[test]
fn alerts_from_default_config() {
    let c = NotificationConfig::default();
    let alerts = alerts_from_configs(&c.alerts);
    assert_eq!(alerts.len(), 4);
    assert_eq!(alerts[1].category, "Twitter");
    assert_eq!(alerts[1].label, "🐦 Twitter");
    assert_eq!(alerts[1].thresholds, vec![15 * MIN, 30 * MIN, 60 * MIN]);
    assert!(alerts[3].positive);
    let unlabelled = AlertConfig::default();
    let a = CategoryAlert::from_config(&unlabelled);
    assert_eq!(a.label, "All");
    assert_eq!(a.thresholds, vec![60 * MIN, 120 * MIN, 240 * MIN, 360 * MIN, 480 * MIN]);
    assert!(MAX_THRESHOLD_MINUTES * MIN <= i64::MAX as u64);
}

#[test]
fn config_defaults() {
    let c = NotificationConfig::default();
    assert!(c.hourly_checkins && c.new_day_greetings && c.server_monitoring);
    assert_eq!(c.alerts[0].category, "All");
    assert_eq!(c.alerts[0].label.as_deref(), Some("All"));
    assert_eq!(c.alerts[2].category, "YouTube");
    assert_eq!(c.alerts[2].thresholds_minutes, vec![15, 30, 60]);
    assert_eq!(c.alerts[3].category, "Work");
    assert_eq!(c.alerts[3].thresholds_minutes, vec![15, 30, 60, 120, 240]);
    assert!(c.alerts[3].positive && !c.alerts[1].positive);
    let a = AlertConfig::default();
    assert_eq!(a.category, "All");
    assert_eq!(a.label, None);
    assert!(!a.positive);
}

#[test]
fn config_paths() {
    assert_eq!(config_path_under("/home/u/.config", "/"), "/home/u/.config/aw-notify/config.toml");
    assert_eq!(config_path_under("/home/u/.config/", "/"), "/home/u/.config/aw-notify/config.toml");
    assert_eq!(config_path_under(".", "/"), "./aw-notify/config.toml");
    assert_eq!(config_path_under("C:\\Users\\u", "\\"), "C:\\Users\\u\\aw-notify\\config.toml");
    assert_eq!(config_path_for(None, "/"), "./aw-notify/config.toml");
    assert_eq!(config_path_for(Some("/home/u/.config"), "/"), "/home/u/.config/aw-notify/config.toml");
    assert!(get_default_config_path().ends_with("config.toml"));
}

#[test]
fn client_urls_and_requests() {
    let c = NotificationClient::new();
    assert_eq!(c.base_url(), &format!("http://{}:{}", DEFAULT_HOST, DEFAULT_PORT));
    assert_eq!(c.notify_url(), "http://127.0.0.1:5667/notify");
    let r = c.request("t", "m");
    assert_eq!((r.title.as_str(), r.message.as_str(), r.sender), ("t", "m", None));
    let s = NotificationClient::with_addr("example.org", 80).with_sender("watcher-x");
    assert_eq!(s.notify_url(), "http://example.org:80/notify");
    assert_eq!(s.request("t", "m").sender.as_deref(), Some("watcher-x"));
    let d = NotificationClient::default();
    assert_eq!(d.base_url(), "http://127.0.0.1:5667");
}

#[test]
fn client_timeouts_and_sender_choice() {
    assert_eq!(NotificationClient::new().timeouts(), (2, 3, 3));
    assert_eq!(NotificationClient::with_addr("example.org", 80).timeouts(), (2, 3, 3));
    let named = NotificationClient::for_sender(Some("cli"));
    assert_eq!(named.notify_url(), "http://127.0.0.1:5667/notify");
    assert_eq!(named.request("t", "m").sender.as_deref(), Some("cli"));
    assert_eq!(named.timeouts(), (2, 3, 3));
    let anonymous = NotificationClient::for_sender(None);
    assert_eq!(anonymous.request("t", "m").sender, None);
}

#[test]
fn error_descriptions() {
    assert_eq!(NotifyError::Transport("refused".to_string()).describe(), "could not reach aw-notify: refused");
    assert_eq!(NotifyError::Rejected(429).describe(), "aw-notify rejected the notification (HTTP 429)");
}

#[test]
fn server_monitor_reports_changes_only() {
    let mut m = ServerMonitor::new();
    assert!(m.observe(true).is_none());
    let down = m.observe(false).unwrap();
    assert_eq!(down.title, "Server Unavailable");
    assert_eq!(down.message, "ActivityWatch server is down. Data may not be saved!");
    assert!(m.observe(false).is_none());
    let up = m.observe(true).unwrap();
    assert_eq!(up.title, "Server Available");
    assert_eq!(up.message, "ActivityWatch server is back online.");
}

#[test]
fn afk_status_rules() {
    let now = 10_000_000;
    let e = |start: i64, dur: i64, status: Option<&str>| AfkEvent {
        start_ms: start,
        duration_ms: dur,
        status: status.map(|s| s.to_string()),
    };
    assert_eq!(afk_status(None, now), None);
    assert_eq!(afk_status(Some(&e(now - 1000, 500, Some("not-afk"))), now), Some(true));
    assert_eq!(afk_status(Some(&e(now - 1000, 500, Some("afk"))), now), Some(false));
    assert_eq!(afk_status(Some(&e(now - 1000, 500, None)), now), None);
    assert_eq!(afk_status(Some(&e(now - 400_000, 50_000, Some("not-afk"))), now), None);
    assert_eq!(afk_status(Some(&e(now - 400_000, 100_000, Some("not-afk"))), now), Some(true));
}

#[test]
fn cache_freshness() {
    assert!(cache_is_fresh(0, 59_999));
    assert!(!cache_is_fresh(0, 60_000));
    assert!(cache_is_fresh(100, 0));
}

#[test]
fn new_day_greetings() {
    let d1 = CalendarDay { year: 2024, month: 1, day: 7, weekday: 6 };
    let d2 = CalendarDay { year: 2024, month: 1, day: 8, weekday: 0 };
    let mut t = NewDayTracker::new(d1);
    assert!(!t.is_new_day(&d1));
    assert!(t.is_new_day(&d2));
    assert!(t.on_status(d2, Some(false)).is_none());
    assert!(t.on_status(d2, None).is_none());
    let n = t.on_status(d2, Some(true)).unwrap();
    assert_eq!(n.title, "New day");
    assert_eq!(n.message, "It is Monday, 2024-01-08");
    assert!(!t.is_new_day(&d2));
    assert!(t.on_status(d2, Some(true)).is_none());
}

#[test]
fn one_greeting_per_day_over_a_run() {
    let day = |d: u32| CalendarDay { year: 2024, month: 5, day: d, weekday: (d + 1) % 7 };
    let mut t = NewDayTracker::new(day(1));
    let steps = [(1, Some(true)), (2, Some(false)), (2, Some(true)), (2, Some(true)), (3, None), (4, Some(true))];
    let mut greeted = Vec::new();
    for (d, active) in steps {
        if t.on_status(day(d), active).is_some() {
            greeted.push(d);
        }
    }
    assert_eq!(greeted, vec![2, 4]);
}

#[test]
fn greeting_years() {
    let d = |y: i32| CalendarDay { year: y, month: 3, day: 5, weekday: 2 };
    assert_eq!(greeting_text(&d(7)), "It is Wednesday, 0007-03-05");
    assert_eq!(greeting_text(&d(12345)), "It is Wednesday, +12345-03-05");
    assert_eq!(greeting_text(&d(-5)), "It is Wednesday, -0005-03-05");
}

#[test]
fn json_output_lines() {
    assert_eq!(
        output_line("2024-01-01T00:00:00+00:00", "Time today", "- a: 1m"),
        "{\"app\":\"ActivityWatch\",\"message\":\"- a: 1m\",\"timestamp\":\"2024-01-01T00:00:00+00:00\",\"title\":\"Time today\"}\n\n\n\n"
    );
    assert!(output_line("t", "q\"x", "m").contains("\"title\":\"q\\\"x\""));
    let mut today = readme_table();
    today.insert("All".to_string(), 75 * MIN);
    let out = initial_checkins_output("y", &CategoryTimes::new(), "t", &today);
    assert_eq!(out, output_line("t", "Time today", "- 💼 Work: 1h 5m\n- 📊 Personal: 10m"));
}

#[test]
fn json_output_escapes_strings() {
    let title = "q\"b\\c\nd\te\r\u{8}\u{c}\u{1}\u{1f}\u{7f}/é🐦";
    assert_eq!(
        output_line("t", title, "m"),
        "{\"app\":\"ActivityWatch\",\"message\":\"m\",\"timestamp\":\"t\",\"title\":\"q\\\"b\\\\c\\nd\\te\\r\\b\\f\\u0001\\u001f\u{7f}/é🐦\"}\n\n\n\n"
    );
}

#[test]
fn log_rotation_rules() {
    assert!(!needs_rotation(None));
    assert!(!needs_rotation(Some(MAX_LOG_SIZE)));
    assert!(needs_rotation(Some(MAX_LOG_SIZE + 1)));
    assert_eq!(rotated_log_name("aw-notify", "2024-01-01_10-00-00"), "aw-notify.2024-01-01_10-00-00.log");
    assert!(is_rotated_log("aw-notify.2024-01-01_10-00-00.log", "aw-notify"));
    assert!(!is_rotated_log("aw-notify.log", "aw-notify"));
    assert!(!is_rotated_log("other.1.log", "aw-notify"));
    assert!(!is_rotated_log("aw-notify.1.txt", "aw-notify"));
}

#[test]
fn log_rotation_keeps_newest_five() {
    let f = |name: &str, m: i128| LogFile { name: name.to_string(), modified: m };
    let logs = vec![
        f("aw-notify.a.log", 10),
        f("aw-notify.log", 99),
        f("aw-notify.b.log", 30),
        f("aw-notify.c.log", 20),
        f("other.log", 1),
        f("aw-notify.d.log", 50),
        f("aw-notify.e.log", 40),
        f("aw-notify.f.log", 20),
        f("aw-notify.g.log", 5),
    ];
    // Newest first: d(50) e(40) b(30) f(20, listed later) c(20) a(10) g(5).
    assert_eq!(logs_to_remove(&logs, "aw-notify"), vec![0, 8]);
    let few: Vec<LogFile> = logs.into_iter().take(4).collect();
    assert!(logs_to_remove(&few, "aw-notify").is_empty());
}

#[test]
fn hourly_wakes_at_the_next_whole_hour() {
    let soon = LocalTime { year: 2024, month: 3, day: 9, hour: 15, minute: 42, second: 7, nanos: 123 };
    let next = next_whole_hour(soon);
    assert_eq!(next, LocalTime { year: 2024, month: 3, day: 9, hour: 15, minute: 0, second: 0, nanos: 0 });
    let late = LocalTime { year: 2023, month: 12, day: 31, hour: 23, minute: 59, second: 59, nanos: 999_999_999 };
    assert_eq!(next_whole_hour(late).hour, 23);
    assert_eq!(next_whole_hour(late).day, 31);
}

#[test]
fn hourly_wait_is_the_gap_or_one_hour() {
    assert_eq!(hourly_wait_nanos(1_000, 61_000), 60_000);
    assert_eq!(hourly_wait_nanos(5, 5), 0);
    assert_eq!(hourly_wait_nanos(10, 9), 3_600_000_000_000);
    assert_eq!(hourly_wait_nanos(-7, 3), 10);
    assert_eq!(hourly_wait_nanos(i128::MIN, i128::MAX), u128::MAX);
    assert_eq!(hourly_wait_nanos(-20, -5), 15);
}

#[test]
fn hourly_checks_in_only_when_active() {
    assert_eq!(hourly_action(HourlyEvent::Shutdown), HourlyAction::Stop);
    assert_eq!(hourly_action(HourlyEvent::Woke(Some(true))), HourlyAction::SendCheckin);
    assert_eq!(hourly_action(HourlyEvent::Woke(Some(false))), HourlyAction::Skip);
    assert_eq!(hourly_action(HourlyEvent::Woke(None)), HourlyAction::Skip);
    assert_eq!(HOURLY_TITLE, "Hourly summary");
}

#[test]
fn log_directory_layouts() {
    let (base, parts) = log_dir_layout(Platform::Linux);
    assert_eq!((base, parts), (LogBase::Cache, vec!["activitywatch".to_string(), "aw-notify".to_string(), "log".to_string()]));
    let (base, parts) = log_dir_layout(Platform::Windows);
    assert_eq!((base, parts), (LogBase::DataLocal, vec!["activitywatch".to_string(), "Logs".to_string(), "aw-notify".to_string()]));
    let (base, parts) = log_dir_layout(Platform::Other);
    assert_eq!(
        (base, parts),
        (LogBase::Home, vec!["Library".to_string(), "Logs".to_string(), "activitywatch".to_string(), "aw-notify".to_string()])
    );
}
