//! Notifications written as JSON lines, for the output-only mode.

use vstd::prelude::*;
use vstd::string::*;
use crate::table::CategoryTimes;
use crate::category::top_level_fold;
use crate::summary::{checkin_message, is_top_list, summary_lines, with_icons, MIN_SHARE_BP, SUMMARY_COUNT};
use crate::text::join;

verus! {

/// The application name reported with every notification.
pub const APP_NAME: &'static str = "ActivityWatch";

/// A notification as it is written out.
pub struct OutputRecord {
    pub timestamp: String,
    pub title: String,
    pub message: String,
    pub app: String,
}

/// The lower-case hexadecimal digit for `n` (below 16).
pub open spec fn hex_digit(n: int) -> char {
    "0123456789abcdef"@[n]
}

/// How a JSON string writes the character `c`: a quote and a backslash behind a backslash,
/// the control characters with a short escape where JSON has one (backspace, tab, line
/// feed, form feed, carriage return) and as `\u00` with two lower-case hexadecimal digits
/// otherwise, every other character as it is.
pub open spec fn json_char(c: char) -> Seq<char> {
    if c == '"' {
        seq!['\\', '"']
    } else if c == '\\' {
        seq!['\\', '\\']
    } else if c == '\u{8}' {
        seq!['\\', 'b']
    } else if c == '\t' {
        seq!['\\', 't']
    } else if c == '\n' {
        seq!['\\', 'n']
    } else if c == '\u{c}' {
        seq!['\\', 'f']
    } else if c == '\r' {
        seq!['\\', 'r']
    } else if (c as u32) < 0x20 {
        seq!['\\', 'u', '0', '0', hex_digit((c as u32) as int / 16), hex_digit((c as u32) as int % 16)]
    } else {
        seq![c]
    }
}

/// The characters of `s`, each written as a JSON string writes it.
pub open spec fn json_escaped(s: Seq<char>) -> Seq<char>
    decreases s.len(),
{
    if s.len() == 0 {
        Seq::empty()
    } else {
        json_escaped(s.drop_last()) + json_char(s.last())
    }
}

/// `s` as a JSON string: escaped, between quotes.
pub open spec fn json_string(s: Seq<char>) -> Seq<char> {
    seq!['"'] + json_escaped(s) + seq!['"']
}

/// The compact JSON object with the string fields "timestamp", "title", "message" and
/// "app", its keys in sorted order.
pub open spec fn record_json(timestamp: Seq<char>, title: Seq<char>, message: Seq<char>, app: Seq<char>) -> Seq<char> {
    "{\"app\":"@ + json_string(app) + ",\"message\":"@ + json_string(message) + ",\"timestamp\":"@
        + json_string(timestamp) + ",\"title\":"@ + json_string(title) + "}"@
}

/// Writes the record as a JSON object with `serde_json` (`Value::to_string` on an object of
/// four strings). `serde_json`'s `Display` writes the compact form; without its
/// `preserve_order` feature, which this crate does not enable, an object's keys come in
/// sorted order; strings are escaped as its serializer's escape table does it
/// (`record_json`).
#[verifier::external_body]
fn record_to_json(r: &OutputRecord) -> (s: String)
    ensures
        s@ == record_json(r.timestamp@, r.title@, r.message@, r.app@),
{
    let mut m = serde_json::Map::new();
    m.insert("timestamp".to_string(), serde_json::Value::String(r.timestamp.clone()));
    m.insert("title".to_string(), serde_json::Value::String(r.title.clone()));
    m.insert("message".to_string(), serde_json::Value::String(r.message.clone()));
    m.insert("app".to_string(), serde_json::Value::String(r.app.clone()));
    serde_json::Value::Object(m).to_string()
}

/// The separator written after each notification.
pub open spec fn record_end() -> Seq<char> {
    "\n\n\n\n"@
}

/// The output of one notification: its JSON object and the separator after it.
pub open spec fn output_line_of(timestamp: Seq<char>, title: Seq<char>, message: Seq<char>) -> Seq<char> {
    record_json(timestamp, title, message, APP_NAME@) + record_end()
}

/// The output of a notification with `title` and `message` at `timestamp`.
pub fn output_line(timestamp: &str, title: &str, message: &str) -> (s: String)
    ensures
        s@ == output_line_of(timestamp@, title@, message@),
{
    let record = OutputRecord {
        timestamp: String::from_str(timestamp),
        title: String::from_str(title),
        message: String::from_str(message),
        app: String::from_str(APP_NAME),
    };
    let mut s = record_to_json(&record);
    s.append("\n\n\n\n");
    s
}

/// The output of a check-in at `timestamp` titled `title`: nothing where the check-in has
/// no message.
pub fn checkin_output(timestamp: &str, title: &str, cat_time: &CategoryTimes) -> (s: String)
    requires
        cat_time.wf(),
        cat_time.total() <= u64::MAX,
    ensures
        exists|m: Option<String>| {
            &&& #[trigger] checkin_message_spec(cat_time, m)
            &&& s@ == match m {
                Some(msg) => output_line_of(timestamp@, title@, msg@),
                None => Seq::<char>::empty(),
            }
        },
{
    let m = checkin_message(cat_time);
    let s = match &m {
        Some(msg) => output_line(timestamp, title, msg.as_str()),
        None => String::new(),
    };
    assert(checkin_message_spec(cat_time, m));
    s
}

/// `m` is a message that `checkin_message` may give for the table.
pub open spec fn checkin_message_spec(cat_time: &CategoryTimes, m: Option<String>) -> bool {
    exists|top: Seq<(Seq<char>, Seq<char>)>|
        is_top_list(top_level_fold(cat_time.entries()), MIN_SHARE_BP as nat, SUMMARY_COUNT as nat, top)
        && match m {
            Some(msg) => top.len() > 0 && msg@ == join(summary_lines(with_icons(top)), "\n"@),
            None => top.len() == 0,
        }
}

/// The batched output of the initial check-ins: yesterday's, then today's.
pub fn initial_checkins_output(
    yesterday_timestamp: &str,
    yesterday: &CategoryTimes,
    today_timestamp: &str,
    today: &CategoryTimes,
) -> (s: String)
    requires
        yesterday.wf(),
        yesterday.total() <= u64::MAX,
        today.wf(),
        today.total() <= u64::MAX,
    ensures
        exists|a: String, b: String| {
            &&& s@ == a@ + b@
            &&& exists|m: Option<String>| #[trigger] checkin_message_spec(yesterday, m) && a@ == match m {
                Some(msg) => output_line_of(yesterday_timestamp@, "Time yesterday"@, msg@),
                None => Seq::<char>::empty(),
            }
            &&& exists|m: Option<String>| #[trigger] checkin_message_spec(today, m) && b@ == match m {
                Some(msg) => output_line_of(today_timestamp@, "Time today"@, msg@),
                None => Seq::<char>::empty(),
            }
        },
{
    let mut s = checkin_output(yesterday_timestamp, "Time yesterday", yesterday);
    let ghost a = s;
    let b = checkin_output(today_timestamp, "Time today", today);
    s.append(b.as_str());
    assert(s@ == a@ + b@);
    s
}

} // verus!
