//! The service's configuration: which alerts to raise and which checks to run.

use vstd::prelude::*;
use vstd::string::*;
use crate::alert::{CategoryAlert, MAX_THRESHOLD_MINUTES};

verus! {

/// An alert on the time spent in one category.
#[derive(Debug, Clone)]
pub struct AlertConfig {
    pub category: String,
    pub label: Option<String>,
    pub thresholds_minutes: Vec<u64>,
    pub positive: bool,
}

/// The alert configuration holds these values.
pub open spec fn alert_config_is(a: AlertConfig, category: Seq<char>, label: Option<Seq<char>>, minutes: Seq<u64>, positive: bool) -> bool {
    &&& a.category@ == category
    &&& match (a.label, label) {
        (Some(l), Some(x)) => l@ == x,
        (None, None) => true,
        _ => false,
    }
    &&& a.thresholds_minutes@ == minutes
    &&& a.positive == positive
}

impl Default for AlertConfig {
    /// An alert on all activity at 1h, 2h, 4h, 6h and 8h, without a label.
    fn default() -> (a: AlertConfig)
        ensures
            alert_config_is(a, "All"@, None, seq![60u64, 120, 240, 360, 480], false),
    {
        let mut t: Vec<u64> = Vec::new();
        t.push(60);
        t.push(120);
        t.push(240);
        t.push(360);
        t.push(480);
        assert(t@ =~= seq![60u64, 120, 240, 360, 480]);
        AlertConfig { category: String::from_str("All"), label: None, thresholds_minutes: t, positive: false }
    }
}

/// The configuration of the notification service.
#[derive(Debug)]
pub struct NotificationConfig {
    pub alerts: Vec<AlertConfig>,
    pub hourly_checkins: bool,
    pub new_day_greetings: bool,
    pub server_monitoring: bool,
}

fn alert_config(category: &str, label: &str, minutes: Vec<u64>, positive: bool) -> (a: AlertConfig)
    ensures
        alert_config_is(a, category@, Some(label@), minutes@, positive),
{
    AlertConfig {
        category: String::from_str(category),
        label: Some(String::from_str(label)),
        thresholds_minutes: minutes,
        positive,
    }
}

impl Default for NotificationConfig {
    /// Alerts on all activity (1h, 2h, 4h, 6h, 8h), Twitter and YouTube (15min, 30min, 1h)
    /// and work (15min, 30min, 1h, 2h, 4h, as goals); every check enabled.
    fn default() -> (c: NotificationConfig)
        ensures
            c.alerts@.len() == 4,
            alert_config_is(c.alerts@[0], "All"@, Some("All"@), seq![60u64, 120, 240, 360, 480], false),
            alert_config_is(c.alerts@[1], "Twitter"@, Some("🐦 Twitter"@), seq![15u64, 30, 60], false),
            alert_config_is(c.alerts@[2], "YouTube"@, Some("📺 YouTube"@), seq![15u64, 30, 60], false),
            alert_config_is(c.alerts@[3], "Work"@, Some("💼 Work"@), seq![15u64, 30, 60, 120, 240], true),
            c.hourly_checkins,
            c.new_day_greetings,
            c.server_monitoring,
    {
        let mut all: Vec<u64> = Vec::new();
        all.push(60);
        all.push(120);
        all.push(240);
        all.push(360);
        all.push(480);
        let mut twitter: Vec<u64> = Vec::new();
        twitter.push(15);
        twitter.push(30);
        twitter.push(60);
        let mut youtube: Vec<u64> = Vec::new();
        youtube.push(15);
        youtube.push(30);
        youtube.push(60);
        let mut work: Vec<u64> = Vec::new();
        work.push(15);
        work.push(30);
        work.push(60);
        work.push(120);
        work.push(240);
        assert(all@ =~= seq![60u64, 120, 240, 360, 480]);
        assert(twitter@ =~= seq![15u64, 30, 60]);
        assert(youtube@ =~= seq![15u64, 30, 60]);
        assert(work@ =~= seq![15u64, 30, 60, 120, 240]);
        let mut alerts: Vec<AlertConfig> = Vec::new();
        alerts.push(alert_config("All", "All", all, false));
        alerts.push(alert_config("Twitter", "🐦 Twitter", twitter, false));
        alerts.push(alert_config("YouTube", "📺 YouTube", youtube, false));
        alerts.push(alert_config("Work", "💼 Work", work, true));
        NotificationConfig { alerts, hourly_checkins: true, new_day_greetings: true, server_monitoring: true }
    }
}

/// Thresholds in minutes as durations in milliseconds.
pub open spec fn minutes_to_ms(m: Seq<u64>) -> Seq<u64> {
    m.map_values(|x: u64| (x * 60000) as u64)
}

/// Every threshold of the configuration can be represented as a duration.
pub open spec fn thresholds_in_range(c: AlertConfig) -> bool {
    forall|i: int| 0 <= i < c.thresholds_minutes@.len() ==> #[trigger] c.thresholds_minutes@[i] <= MAX_THRESHOLD_MINUTES
}

impl CategoryAlert {
    /// The alert that a configuration describes, its thresholds turned into milliseconds.
    pub fn from_config(config: &AlertConfig) -> (a: CategoryAlert)
        requires
            thresholds_in_range(*config),
        ensures
            a.category@ == config.category@,
            a.label@ == match config.label {
                Some(l) => l@,
                None => config.category@,
            },
            a.thresholds@ == minutes_to_ms(config.thresholds_minutes@),
            a.max_triggered == 0,
            a.time_spent == 0,
            a.last_check == 0,
            a.positive == config.positive,
            a.last_status.is_none(),
    {
        let mut thresholds: Vec<u64> = Vec::new();
        let n = config.thresholds_minutes.len();
        for i in 0..n
            invariant
                n == config.thresholds_minutes@.len(),
                thresholds_in_range(*config),
                thresholds@ == minutes_to_ms(config.thresholds_minutes@).take(i as int),
        {
            let m = config.thresholds_minutes[i];
            assert(m <= MAX_THRESHOLD_MINUTES);
            thresholds.push(m * 60000);
            assert(minutes_to_ms(config.thresholds_minutes@).take(i + 1)
                =~= minutes_to_ms(config.thresholds_minutes@).take(i as int).push((m * 60000) as u64));
        }
        assert(minutes_to_ms(config.thresholds_minutes@).take(n as int) =~= minutes_to_ms(config.thresholds_minutes@));
        let label = match &config.label {
            Some(l) => Some(l.as_str()),
            None => None,
        };
        CategoryAlert::new(config.category.as_str(), thresholds, label, config.positive)
    }
}

/// The alerts that a list of configurations describes, in order.
pub fn alerts_from_configs(configs: &Vec<AlertConfig>) -> (r: Vec<CategoryAlert>)
    requires
        forall|i: int| 0 <= i < configs@.len() ==> thresholds_in_range(#[trigger] configs@[i]),
    ensures
        r@.len() == configs@.len(),
        forall|i: int| 0 <= i < r@.len() ==> {
            &&& (#[trigger] r@[i]).category@ == configs@[i].category@
            &&& r@[i].label@ == match configs@[i].label {
                Some(l) => l@,
                None => configs@[i].category@,
            }
            &&& r@[i].thresholds@ == minutes_to_ms(configs@[i].thresholds_minutes@)
            &&& r@[i].max_triggered == 0
            &&& r@[i].time_spent == 0
            &&& r@[i].last_check == 0
            &&& r@[i].positive == configs@[i].positive
            &&& r@[i].last_status.is_none()
        },
{
    let mut r: Vec<CategoryAlert> = Vec::new();
    let n = configs.len();
    for i in 0..n
        invariant
            n == configs@.len(),
            forall|i: int| 0 <= i < configs@.len() ==> thresholds_in_range(#[trigger] configs@[i]),
            r@.len() == i,
            forall|j: int| 0 <= j < i ==> {
                &&& (#[trigger] r@[j]).category@ == configs@[j].category@
                &&& r@[j].label@ == match configs@[j].label {
                    Some(l) => l@,
                    None => configs@[j].category@,
                }
                &&& r@[j].thresholds@ == minutes_to_ms(configs@[j].thresholds_minutes@)
                &&& r@[j].max_triggered == 0
                &&& r@[j].time_spent == 0
                &&& r@[j].last_check == 0
                &&& r@[j].positive == configs@[j].positive
                &&& r@[j].last_status.is_none()
            },
    {
        let a = CategoryAlert::from_config(&configs[i]);
        r.push(a);
    }
    r
}

/// Calls `dirs::config_dir`: the user's configuration directory, which depends on the
/// platform and the environment; nothing is stated of it. A directory whose path is not
/// valid UTF-8 is reported as missing.
#[verifier::external_body]
fn user_config_dir() -> (r: Option<String>) {
    match dirs::config_dir() {
        Some(p) => p.into_os_string().into_string().ok(),
        None => None,
    }
}

/// Reads `std::path::MAIN_SEPARATOR_STR`, the platform's path separator: the separator
/// character as a string of one character. Which character it is depends on the platform
/// and is not stated.
#[verifier::external_body]
fn main_separator() -> (r: &'static str)
    ensures
        r@.len() == 1,
{
    std::path::MAIN_SEPARATOR_STR
}

/// `base` ends with a path separator: '/' or the platform's separator `sep`.
pub open spec fn ends_with_separator(base: Seq<char>, sep: Seq<char>) -> bool {
    base.len() > 0 && (base.last() == '/' || (sep.len() == 1 && base.last() == sep[0]))
}

/// `base` with the relative component `c` pushed onto it, as `PathBuf::push` does: a
/// separator goes between them unless `base` is empty or already ends with one.
pub open spec fn path_push(base: Seq<char>, sep: Seq<char>, c: Seq<char>) -> Seq<char> {
    if base.len() == 0 || ends_with_separator(base, sep) {
        base + c
    } else {
        base + sep + c
    }
}

/// The path of the configuration file under the configuration directory `base`.
pub open spec fn config_file_path(base: Seq<char>, sep: Seq<char>) -> Seq<char> {
    path_push(path_push(base, sep, "aw-notify"@), sep, "config.toml"@)
}

fn push_component(path: &mut String, sep: &str, c: &str)
    ensures
        final(path)@ == path_push(old(path)@, sep@, c@),
{
    let n = path.as_str().unicode_len();
    let needs_sep = if n == 0 {
        false
    } else {
        let last = path.as_str().get_char(n - 1);
        let sep_n = sep.unicode_len();
        !(last == '/' || (sep_n == 1 && last == sep.get_char(0)))
    };
    if needs_sep {
        path.append(sep);
    }
    path.append(c);
}

/// The path of the configuration file under the directory `base`, with `sep` as separator.
pub fn config_path_under(base: &str, sep: &str) -> (r: String)
    ensures
        r@ == config_file_path(base@, sep@),
{
    let mut path = String::from_str(base);
    push_component(&mut path, sep, "aw-notify");
    push_component(&mut path, sep, "config.toml");
    path
}

/// The directory the configuration file lives under: the configuration directory where
/// there is one, else ".".
pub open spec fn config_base(config_dir: Option<Seq<char>>) -> Seq<char> {
    match config_dir {
        Some(d) => d,
        None => "."@,
    }
}

/// The path of the configuration file for the user's configuration directory `config_dir`
/// (`None` where there is none): "aw-notify/config.toml" under it, or under "." where there
/// is none; `sep` is the platform's separator.
pub fn config_path_for(config_dir: Option<&str>, sep: &str) -> (r: String)
    ensures
        r@ == config_file_path(config_base(match config_dir {
            Some(d) => Some(d@),
            None => None,
        }), sep@),
{
    match config_dir {
        Some(d) => config_path_under(d, sep),
        None => config_path_under(".", sep),
    }
}

/// The default path of the configuration file: "aw-notify/config.toml" under the user's
/// configuration directory, or under "." where there is none. Which directory the platform
/// reports, and its separator, depend on the environment and are not stated.
pub fn get_default_config_path() -> (r: String)
    ensures
        exists|dir: Option<Seq<char>>, sep: Seq<char>| sep.len() == 1 && r@ == config_file_path(config_base(dir), sep),
{
    let sep = main_separator();
    let dir = user_config_dir();
    let r = match &dir {
        Some(d) => config_path_for(Some(d.as_str()), sep),
        None => config_path_for(None, sep),
    };
    let ghost gd: Option<Seq<char>> = match dir {
        Some(d) => Some(d@),
        None => None,
    };
    assert(r@ == config_file_path(config_base(gd), sep@));
    r
}

} // verus!
