//! The decisions of the diagnostics log: level names, the log directory,
//! field sanitising, which files are session logs, and Dart-side events.
//! Writing the log itself happens outside this crate.

use vstd::prelude::*;
use vstd::string::*;
use crate::text::{joined, text_eq, trim_text, trimmed};

verus! {

/// Why a Dart-side event was not logged.
#[derive(Clone, Debug, PartialEq, Eq)]
pub enum LogDartEventError {
    /// The level is not one of trace, debug, info, warn (or warning), error;
    /// holds the level as given.
    InvalidLevel(String),
    /// Logging has not been started in this process.
    LoggingNotInitialized,
}

/// A Dart-side event ready to be written: its level and its sanitised fields.
#[derive(Clone, Debug, PartialEq, Eq)]
pub struct DartLogEvent {
    pub level: &'static str,
    pub event_name: String,
    pub module: String,
    pub message: String,
}

/// A character with ASCII capitals folded to lower case, as a code point.
pub open spec fn folded(c: char) -> u32 {
    if 'A' <= c && c <= 'Z' {
        (c as u32 + 32) as u32
    } else {
        c as u32
    }
}

/// `s` equals the lower-case ASCII text `lower` once its capitals are folded.
pub open spec fn matches_folded(s: Seq<char>, lower: Seq<char>) -> bool {
    s.len() == lower.len() && forall|i: int| 0 <= i < s.len() ==> folded(#[trigger] s[i]) == lower[i] as u32
}

/// The level that a trimmed level text names, case-insensitively.
pub open spec fn level_named(t: Seq<char>) -> Option<Seq<char>> {
    if matches_folded(t, "trace"@) {
        Some("trace"@)
    } else if matches_folded(t, "debug"@) {
        Some("debug"@)
    } else if matches_folded(t, "info"@) {
        Some("info"@)
    } else if matches_folded(t, "warn"@) || matches_folded(t, "warning"@) {
        Some("warn"@)
    } else if matches_folded(t, "error"@) {
        Some("error"@)
    } else {
        None
    }
}

/// Whether `s` equals `lower` once ASCII capitals in `s` are folded.
pub fn eq_folded(s: &str, lower: &str) -> (r: bool)
    ensures
        r == matches_folded(s@, lower@),
{
    let n = s.unicode_len();
    if n != lower.unicode_len() {
        return false;
    }
    let mut i: usize = 0;
    while i < n
        invariant
            n == s@.len(),
            n == lower@.len(),
            i <= n,
            forall|k: int| 0 <= k < i ==> folded(#[trigger] s@[k]) == lower@[k] as u32,
        decreases n - i,
    {
        let c = s.get_char(i);
        let f: u32 = if 'A' <= c && c <= 'Z' {
            c as u32 + 32
        } else {
            c as u32
        };
        if f != lower.get_char(i) as u32 {
            return false;
        }
        i = i + 1;
    }
    true
}

/// The canonical level for a level text after trimming: one of trace,
/// debug, info, warn, error, any case, with warning for warn.
pub fn normalize_level_trimmed(t: &str) -> (r: Result<&'static str, String>)
    ensures
        r is Ok <==> level_named(t@) is Some,
        r matches Ok(l) ==> Some(l@) == level_named(t@),
{
    if eq_folded(t, "trace") {
        Ok("trace")
    } else if eq_folded(t, "debug") {
        Ok("debug")
    } else if eq_folded(t, "info") {
        Ok("info")
    } else if eq_folded(t, "warn") || eq_folded(t, "warning") {
        Ok("warn")
    } else if eq_folded(t, "error") {
        Ok("error")
    } else {
        Err(joined("unsupported log level `", t, "`; expected trace|debug|info|warn|error"))
    }
}

/// The canonical level that `level` names, surrounding whitespace and case
/// aside.
pub fn normalize_level(level: &str) -> (r: Result<&'static str, String>)
    ensures
        r is Ok <==> level_named(trimmed(level@)) is Some,
        r matches Ok(l) ==> Some(l@) == level_named(trimmed(level@)),
{
    normalize_level_trimmed(trim_text(level))
}

/// Relies on `std::path::Path::is_absolute`; the answer depends on the
/// platform's path rules, so nothing is promised of it here.
#[verifier::external_body]
fn is_absolute_path(p: &str) -> (r: bool) {
    std::path::Path::new(p).is_absolute()
}

/// The log directory from its trimmed text `t` and whether that is an
/// absolute path: refused when empty or relative.
pub fn check_log_dir(t: &str, absolute: bool) -> (r: Result<String, String>)
    ensures
        t@.len() == 0 ==> (r matches Err(m) && m@ == "log_dir cannot be empty"@),
        t@.len() > 0 && !absolute ==> (r matches Err(m) && m@ == "log_dir must be an absolute path, got `"@ + t@ + "`"@),
        t@.len() > 0 && absolute ==> (r matches Ok(d) && d@ == t@),
{
    if t.is_empty() {
        return Err(String::from_str("log_dir cannot be empty"));
    }
    if !absolute {
        return Err(joined("log_dir must be an absolute path, got `", t, "`"));
    }
    Ok(String::from_str(t))
}

/// The log directory named by `log_dir` after trimming: refused when empty
/// or not an absolute path.
pub fn normalize_log_dir(log_dir: &str) -> (r: Result<String, String>)
    ensures
        trimmed(log_dir@).len() == 0 ==> (r matches Err(m) && m@ == "log_dir cannot be empty"@),
        trimmed(log_dir@).len() > 0 && r is Err ==> (r matches Err(m) && m@
            == "log_dir must be an absolute path, got `"@ + trimmed(log_dir@) + "`"@),
        r matches Ok(d) ==> d@ == trimmed(log_dir@) && d@.len() > 0,
{
    let t = trim_text(log_dir);
    if t.is_empty() {
        return check_log_dir(t, false);
    }
    let absolute = is_absolute_path(t);
    check_log_dir(t, absolute)
}

/// `s` with every line feed and carriage return replaced by a space.
pub open spec fn without_breaks(s: Seq<char>) -> Seq<char> {
    s.map_values(|c: char| if c == '\n' || c == '\r' { ' ' } else { c })
}

/// `value` with line breaks replaced by spaces.
pub fn replace_breaks(value: &str) -> (r: String)
    ensures
        r@ == without_breaks(value@),
{
    let n = value.unicode_len();
    let mut out = String::new();
    let mut start: usize = 0;
    let mut i: usize = 0;
    while i < n
        invariant
            n == value@.len(),
            start <= i <= n,
            out@ + value@.subrange(start as int, i as int) == without_breaks(value@).subrange(0, i as int),
            forall|k: int| start <= k < i ==> value@[k] != '\n' && value@[k] != '\r',
        decreases n - i,
    {
        let c = value.get_char(i);
        let ghost before = out@;
        if c == '\n' || c == '\r' {
            let piece = value.substring_char(start, i);
            out.append(piece);
            out.append(" ");
            proof {
                reveal_strlit(" ");
                assert(value@.subrange(start as int, i as int) =~= without_breaks(value@).subrange(start as int, i as int));
                assert(without_breaks(value@).subrange(0, i + 1) =~= without_breaks(value@).subrange(0, i as int).push(' '));
                assert(out@ + value@.subrange(i + 1, i + 1) =~= without_breaks(value@).subrange(0, i + 1));
            }
            start = i + 1;
        } else {
            proof {
                assert(value@.subrange(start as int, i + 1) =~= value@.subrange(start as int, i as int).push(c));
                assert(without_breaks(value@).subrange(0, i + 1) =~= without_breaks(value@).subrange(0, i as int).push(c));
                assert(out@ + value@.subrange(start as int, i + 1) =~= (out@ + value@.subrange(start as int, i as int)).push(c));
            }
        }
        i = i + 1;
    }
    let tail = value.substring_char(start, n);
    out.append(tail);
    proof {
        assert(without_breaks(value@).subrange(0, n as int) =~= without_breaks(value@));
    }
    out
}

/// A field fit for one log line: line breaks replaced by spaces, then
/// trimmed.
pub fn sanitize_inline_field(value: &str) -> (r: String)
    ensures
        r@ == trimmed(without_breaks(value@)),
{
    let replaced = replace_breaks(value);
    String::from_str(trim_text(replaced.as_str()))
}

/// `s` cut to `max` characters with "..." after it when it was longer.
pub open spec fn capped(s: Seq<char>, max: nat) -> Seq<char> {
    if s.len() > max {
        s.take(max as int) + "..."@
    } else {
        s
    }
}

/// A message fit for one log line: line breaks replaced by spaces and at
/// most `max_chars` characters kept, with "..." when some were cut.
pub fn sanitize_message(value: &str, max_chars: usize) -> (r: String)
    ensures
        r@ == capped(without_breaks(value@), max_chars as nat),
{
    let normalized = replace_breaks(value);
    let n = normalized.as_str().unicode_len();
    if n > max_chars {
        let mut out = String::from_str(normalized.as_str().substring_char(0, max_chars));
        out.append("...");
        out
    } else {
        normalized
    }
}

/// Checks and sanitises a Dart-side event: the level must name a level,
/// the other fields are made fit for one log line.
pub fn log_dart_event(level: &str, event_name: &str, module: &str, message: &str) -> (r: Result<
    DartLogEvent,
    LogDartEventError,
>)
    ensures
        level_named(trimmed(level@)) is None ==> (r matches Err(LogDartEventError::InvalidLevel(l))
            && l@ == level@),
        level_named(trimmed(level@)) matches Some(n) ==> (r matches Ok(e) && e.level@ == n
            && e.event_name@ == trimmed(without_breaks(event_name@)) && e.module@ == trimmed(
            without_breaks(module@),
        ) && e.message@ == trimmed(without_breaks(message@))),
{
    let normalized = match normalize_level(level) {
        Ok(l) => l,
        Err(_) => {
            return Err(LogDartEventError::InvalidLevel(String::from_str(level)));
        },
    };
    Ok(
        DartLogEvent {
            level: normalized,
            event_name: sanitize_inline_field(event_name),
            module: sanitize_inline_field(module),
            message: sanitize_inline_field(message),
        },
    )
}

/// Whether a file name, ASCII case aside, starts with "lazynote" and ends
/// with ".log": the files that log retention manages.
pub fn is_managed_log_file(file_name: &str) -> (r: bool)
    ensures
        r == (file_name@.len() >= 8 && file_name@.len() >= 4 && matches_folded(
            file_name@.take(8),
            "lazynote"@,
        ) && matches_folded(file_name@.skip(file_name@.len() - 4), ".log"@)),
{
    let n = file_name.unicode_len();
    if n < 8 {
        return false;
    }
    let head = file_name.substring_char(0, 8);
    let tail = file_name.substring_char(n - 4, n);
    proof {
        assert(head@ =~= file_name@.take(8));
        assert(tail@ =~= file_name@.skip(file_name@.len() - 4));
    }
    eq_folded(head, "lazynote") && eq_folded(tail, ".log")
}

/// Why logging that runs with `active_level` in `active_dir` cannot be
/// started again with `level` in `dir`; `None` when both agree. A change of
/// directory is reported before a change of level.
pub fn logging_conflict(active_level: &str, active_dir: &str, level: &str, dir: &str) -> (r: Option<String>)
    ensures
        active_dir@ != dir@ ==> (r matches Some(m) && m@ == "logging already initialized at `"@ + active_dir@
            + "`; refusing to switch to `"@ + dir@ + "`"@),
        active_dir@ == dir@ && active_level@ != level@ ==> (r matches Some(m) && m@
            == "logging already initialized with level `"@ + active_level@ + "`; refusing to switch to `"@
            + level@ + "`"@),
        active_dir@ == dir@ && active_level@ == level@ ==> r is None,
{
    if !text_eq(active_dir, dir) {
        let mut m = joined("logging already initialized at `", active_dir, "`; refusing to switch to `");
        m.append(dir);
        m.append("`");
        return Some(m);
    }
    if !text_eq(active_level, level) {
        let mut m = joined("logging already initialized with level `", active_level, "`; refusing to switch to `");
        m.append(level);
        m.append("`");
        return Some(m);
    }
    None
}

} // verus!
