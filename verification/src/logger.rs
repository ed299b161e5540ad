//! Tiny custom logger.
//!
//! Emits lines in the shape:
//! ```text
//! [14:03:22] [qims_backend::main.rs:143] [INFO] ⋆.˚ QIMS backend listening on ...
//! ```

use vstd::prelude::*;

use crate::clock::{is_time_of_day, local_time_of_day};
use crate::text::{begins, chars_of, decimal, decimal_of, ends_with, find_from, finishes,
    last_position, lower, position_from, rfind, same, starts_with, string_of, substring};

verus! {

/// Crate whose logs honor the full level; everything else is capped.
pub const OWN_CRATE: &'static str = "qims_backend";

/// How severe a message is, the most severe first.
#[derive(Debug, Clone, Copy, PartialEq, Eq, Structural)]
pub enum Level {
    Error,
    Warn,
    Info,
    Debug,
    Trace,
}

/// Up to which level messages are shown.
#[derive(Debug, Clone, Copy, PartialEq, Eq, Structural)]
pub enum LevelFilter {
    Off,
    Error,
    Warn,
    Info,
    Debug,
    Trace,
}

/// The place of a level behind the most severe one.
pub open spec fn level_rank(level: Level) -> int {
    match level {
        Level::Error => 1,
        Level::Warn => 2,
        Level::Info => 3,
        Level::Debug => 4,
        Level::Trace => 5,
    }
}

/// The place of the last level that a filter shows.
pub open spec fn filter_rank(filter: LevelFilter) -> int {
    match filter {
        LevelFilter::Off => 0,
        LevelFilter::Error => 1,
        LevelFilter::Warn => 2,
        LevelFilter::Info => 3,
        LevelFilter::Debug => 4,
        LevelFilter::Trace => 5,
    }
}

/// The place of a level behind the most severe one.
fn rank_of_level(level: Level) -> (r: u8)
    ensures
        r == level_rank(level),
{
    match level {
        Level::Error => 1,
        Level::Warn => 2,
        Level::Info => 3,
        Level::Debug => 4,
        Level::Trace => 5,
    }
}

/// The place of the last level that a filter shows.
fn rank_of_filter(filter: LevelFilter) -> (r: u8)
    ensures
        r == filter_rank(filter),
{
    match filter {
        LevelFilter::Off => 0,
        LevelFilter::Error => 1,
        LevelFilter::Warn => 2,
        LevelFilter::Info => 3,
        LevelFilter::Debug => 4,
        LevelFilter::Trace => 5,
    }
}

/// The filter that a name in lower case stands for.
pub open spec fn filter_named(name: Seq<char>) -> Option<LevelFilter> {
    if name == "off"@ {
        Some(LevelFilter::Off)
    } else if name == "error"@ {
        Some(LevelFilter::Error)
    } else if name == "warn"@ {
        Some(LevelFilter::Warn)
    } else if name == "info"@ {
        Some(LevelFilter::Info)
    } else if name == "debug"@ {
        Some(LevelFilter::Debug)
    } else if name == "trace"@ {
        Some(LevelFilter::Trace)
    } else {
        None
    }
}

/// `str::parse` for `log::LevelFilter`. Claims that it knows the six names in
/// any ASCII case, and nothing else.
#[verifier::external_body]
fn parse_filter(s: &str) -> (r: Option<LevelFilter>)
    ensures
        r == filter_named(lower(s@)),
{
    match s.parse::<log::LevelFilter>() {
        Ok(log::LevelFilter::Off) => Some(LevelFilter::Off),
        Ok(log::LevelFilter::Error) => Some(LevelFilter::Error),
        Ok(log::LevelFilter::Warn) => Some(LevelFilter::Warn),
        Ok(log::LevelFilter::Info) => Some(LevelFilter::Info),
        Ok(log::LevelFilter::Debug) => Some(LevelFilter::Debug),
        Ok(log::LevelFilter::Trace) => Some(LevelFilter::Trace),
        Err(_) => None,
    }
}

/// The logger.
#[derive(Debug)]
pub struct QimsLogger {
    /// The level for the own crate.
    pub level: LevelFilter,
}

/// A message to be logged.
#[derive(Debug)]
pub struct LogRecord {
    pub level: Level,
    /// The module that it comes from.
    pub target: String,
    /// The source file that it comes from, where that is known.
    pub file: Option<String>,
    /// The line that it comes from, where that is known.
    pub line: Option<u32>,
    pub message: String,
}

/// A line of the log.
#[derive(Debug)]
pub struct LogLine {
    pub text: String,
    /// Whether it goes to standard error.
    pub to_stderr: bool,
}

/// The level that `configured` names, `info` where it names none.
pub open spec fn level_for(configured: Option<&str>) -> LevelFilter {
    match configured {
        Some(s) => match filter_named(lower(s@)) {
            Some(f) => f,
            None => LevelFilter::Info,
        },
        None => LevelFilter::Info,
    }
}

/// The level that messages are let through to a logger of the level `own`.
pub open spec fn let_through(own: LevelFilter) -> LevelFilter {
    if filter_rank(own) < filter_rank(LevelFilter::Warn) {
        LevelFilter::Warn
    } else {
        own
    }
}

/// The logger with the level that `configured` names, `info` where it names
/// none, and the level that messages are let through to it: both its own level
/// and warnings of other crates.
pub fn init(configured: Option<&str>) -> (r: (QimsLogger, LevelFilter))
    ensures
        r.0.level == level_for(configured),
        r.1 == let_through(r.0.level),
{
    let level = match configured {
        Some(s) => match parse_filter(s) {
            Some(f) => f,
            None => LevelFilter::Info,
        },
        None => LevelFilter::Info,
    };
    let max = if rank_of_filter(level) < 2 {
        LevelFilter::Warn
    } else {
        level
    };
    (QimsLogger { level }, max)
}

/// `target` is the own crate or a module of it; a crate whose name only begins
/// like the own one is another crate.
pub open spec fn is_own(target: Seq<char>) -> bool {
    target == OWN_CRATE@ || starts_with(target, OWN_CRATE@ + "::"@)
}

/// The effective threshold for messages from `target`.
pub open spec fn threshold_for(own: LevelFilter, target: Seq<char>) -> LevelFilter {
    if is_own(target) {
        own
    } else {
        LevelFilter::Warn
    }
}

/// A message of the level `level` from `target` is shown.
pub open spec fn is_shown(own: LevelFilter, level: Level, target: Seq<char>) -> bool {
    level_rank(level) <= filter_rank(threshold_for(own, target))
}

/// What the logger would show is let through to it: the level that messages are
/// let through to is no stricter than any threshold.
pub proof fn shown_is_let_through(own: LevelFilter, max: LevelFilter, level: Level, target: Seq<char>)
    requires
        max == if filter_rank(own) < filter_rank(LevelFilter::Warn) {
            LevelFilter::Warn
        } else {
            own
        },
        is_shown(own, level, target),
    ensures
        level_rank(level) <= filter_rank(max),
{
}

/// Whatever level is configured, other crates show warnings and errors and
/// nothing else.
pub proof fn other_crates_are_capped(own: LevelFilter, level: Level, target: Seq<char>)
    requires
        !is_own(target),
    ensures
        is_shown(own, level, target) <==> level is Error || level is Warn,
{
}

/// The parts of `s` from `at` on that `sep` separates.
pub open spec fn split_from(s: Seq<char>, sep: Seq<char>, at: int) -> Seq<Seq<char>>
    decreases s.len() - at,
{
    match find_from(s, sep, at) {
        Some(i) => if sep.len() > 0 && at <= i && i + sep.len() <= s.len() {
            seq![s.subrange(at, i)] + split_from(s, sep, i + sep.len())
        } else {
            seq![]
        },
        None => seq![s.skip(at)],
    }
}

/// The part of `path` behind its last slash.
pub open spec fn file_name(path: Seq<char>) -> Seq<char> {
    match rfind(path, "/"@) {
        Some(i) => path.skip(i + 1),
        None => path,
    }
}

/// `file` without the ending `.rs`.
pub open spec fn stem(file: Seq<char>) -> Seq<char> {
    if ends_with(file, ".rs"@) {
        file.take(file.len() - 3)
    } else {
        file
    }
}

/// The module that `file` stands in, seen from its target: the last segment of
/// the target, where the crate and a module named like the file do not count.
pub open spec fn parent(target: Seq<char>, file: Seq<char>) -> Option<Seq<char>> {
    let all = split_from(target, "::"@, 0);
    let inner = if all.len() > 0 && all[0] == OWN_CRATE@ {
        all.skip(1)
    } else {
        all
    };
    let outer = if inner.len() > 0 && inner.last() == stem(file) {
        inner.drop_last()
    } else {
        inner
    };
    if outer.len() > 0 {
        Some(outer.last())
    } else {
        None
    }
}

/// Where a message comes from, as it is written in the log: compact for the own
/// crate, where a module at its root goes by the crate's name, and with the full
/// target for others.
pub open spec fn location(target: Seq<char>, file: Seq<char>, line: nat) -> Seq<char> {
    let place = file + ":"@ + decimal(line);
    if is_own(target) {
        match parent(target, file) {
            Some(p) => "::"@ + p + "::"@ + place,
            None => OWN_CRATE@ + "::"@ + place,
        }
    } else {
        target + "::"@ + place
    }
}

/// The file name of a message.
pub open spec fn record_file(record: LogRecord) -> Seq<char> {
    match record.file {
        Some(f) => file_name(f@),
        None => "?"@,
    }
}

/// The line number of a message.
pub open spec fn record_line(record: LogRecord) -> nat {
    match record.line {
        Some(n) => n as nat,
        None => 0,
    }
}

/// ANSI color for a given level.
pub open spec fn color_of(level: Level) -> Seq<char> {
    match level {
        Level::Error => "\x1b[31m"@,
        Level::Warn => "\x1b[33m"@,
        Level::Info => "\x1b[32m"@,
        Level::Debug => "\x1b[36m"@,
        Level::Trace => "\x1b[35m"@,
    }
}

/// The name of a level.
pub open spec fn name_of(level: Level) -> Seq<char> {
    match level {
        Level::Error => "ERROR"@,
        Level::Warn => "WARN"@,
        Level::Info => "INFO"@,
        Level::Debug => "DEBUG"@,
        Level::Trace => "TRACE"@,
    }
}

/// The line that a message becomes at the time `time`.
pub open spec fn line_text(record: LogRecord, time: Seq<char>) -> Seq<char> {
    "\x1b[2m["@ + time + "]\x1b[0m \x1b[2m["@ + location(
        record.target@,
        record_file(record),
        record_line(record),
    ) + "]\x1b[0m ["@ + color_of(record.level) + name_of(record.level) + "\x1b[0m] ⋆.˚ "@
        + record.message@
}

/// ANSI color for a given level: red, yellow, green, cyan, magenta.
pub fn level_color(level: Level) -> (r: &'static str)
    ensures
        r@ == color_of(level),
{
    match level {
        Level::Error => "\x1b[31m",
        Level::Warn => "\x1b[33m",
        Level::Info => "\x1b[32m",
        Level::Debug => "\x1b[36m",
        Level::Trace => "\x1b[35m",
    }
}

/// The name of a level.
fn level_name(level: Level) -> (r: &'static str)
    ensures
        r@ == name_of(level),
{
    match level {
        Level::Error => "ERROR",
        Level::Warn => "WARN",
        Level::Info => "INFO",
        Level::Debug => "DEBUG",
        Level::Trace => "TRACE",
    }
}

/// The part of `path` behind its last slash.
fn last_component(path: &str) -> (r: String)
    ensures
        r@ == file_name(path@),
{
    proof {
        reveal_strlit("/");
    }
    let cs: Vec<char> = chars_of(path);
    let len: usize = cs.len();
    let from: usize = match last_position(&cs, "/") {
        Some(i) => i + 1,
        None => 0,
    };
    let r = substring(&cs, from, len);
    proof {
        assert(r@ =~= file_name(path@));
    }
    r
}

/// The parts of `s` that `::` separates.
fn segments(s: &str) -> (r: Vec<String>)
    ensures
        r.deep_view() == split_from(s@, "::"@, 0),
        r@.len() > 0,
{
    let cs: Vec<char> = chars_of(s);
    let len: usize = cs.len();
    let mut out: Vec<String> = Vec::new();
    let mut at: usize = 0;
    proof {
        reveal_strlit("::");
        assert(out.deep_view() + split_from(s@, "::"@, 0) =~= split_from(s@, "::"@, 0));
    }
    loop
        invariant
            cs@ == s@,
            len == cs@.len(),
            at <= len,
            "::"@.len() == 2,
            split_from(s@, "::"@, 0) == out.deep_view() + split_from(s@, "::"@, at as int),
        decreases len - at,
    {
        let ghost was = out.deep_view();
        match position_from(&cs, "::", at) {
            Some(i) => {
                let part = substring(&cs, at, i);
                out.push(part);
                proof {
                    assert(out.deep_view() =~= was.push(part@));
                    assert(was + (seq![part@] + split_from(s@, "::"@, i + 2)) =~= was.push(part@)
                        + split_from(s@, "::"@, i + 2));
                }
                at = i + 2;
            },
            None => {
                let part = substring(&cs, at, len);
                out.push(part);
                proof {
                    assert(part@ =~= s@.skip(at as int));
                    assert(out.deep_view() =~= was + seq![part@]);
                }
                return out;
            },
        }
    }
}

/// Whether `target` is the own crate or a module of it.
fn own_target(target: &str) -> (r: bool)
    ensures
        r == is_own(target@),
{
    let mut inside = OWN_CRATE.to_string();
    inside.append("::");
    same(target, OWN_CRATE) || begins(&chars_of(target), inside.as_str())
}

/// The module that `file` stands in, seen from its target.
fn parent_of(target: &str, file: &str) -> (r: Option<String>)
    ensures
        r.deep_view() == parent(target@, file@),
{
    proof {
        reveal_strlit(".rs");
    }
    let cs: Vec<char> = chars_of(file);
    let file_stem = if finishes(&cs, ".rs") {
        let s = substring(&cs, 0, cs.len() - 3);
        assert(s@ =~= file@.take(file@.len() - 3));
        s
    } else {
        string_of(&cs)
    };
    let all: Vec<String> = segments(target);
    let ghost view = all.deep_view();
    let from: usize = if same(all[0].as_str(), OWN_CRATE) {
        1
    } else {
        0
    };
    let mut to: usize = all.len();
    let ghost inner = if view[0] == OWN_CRATE@ {
        view.skip(1)
    } else {
        view
    };
    proof {
        assert(inner =~= view.subrange(from as int, view.len() as int));
    }
    if from < to && same(all[to - 1].as_str(), file_stem.as_str()) {
        to = to - 1;
    }
    proof {
        if inner.len() > 0 {
            assert(inner.last() == view.last());
            assert(inner.drop_last() =~= view.subrange(from as int, view.len() - 1));
        }
    }
    if from < to {
        Some(all[to - 1].clone())
    } else {
        None
    }
}

/// A duration as it is written in the log.
pub open spec fn elapsed_text(micros: nat, millis: Seq<char>) -> Seq<char> {
    if micros < 1000 {
        decimal(micros) + "µs"@
    } else {
        millis + "ms"@
    }
}

/// Human duration for query logs: microseconds under 1 ms, else milliseconds.
/// `millis` is the duration in milliseconds with two decimals.
pub fn elapsed_str(micros: u128, millis: &str) -> (r: String)
    ensures
        r@ == elapsed_text(micros as nat, millis@),
{
    if micros < 1000 {
        let mut s = decimal_of(micros);
        s.append("µs");
        s
    } else {
        let mut s = millis.to_string();
        s.append("ms");
        s
    }
}

/// Where a message comes from, as it is written in the log.
fn location_of(record: &LogRecord) -> (r: String)
    ensures
        r@ == location(record.target@, record_file(*record), record_line(*record)),
{
    let file = match &record.file {
        Some(f) => last_component(f.as_str()),
        None => "?".to_string(),
    };
    let line: u32 = match record.line {
        Some(n) => n,
        None => 0,
    };
    let target = record.target.as_str();
    let ghost place = file@ + ":"@ + decimal(line as nat);
    let mut out = String::new();
    if own_target(target) {
        match parent_of(target, file.as_str()) {
            Some(p) => {
                out.append("::");
                out.append(p.as_str());
            },
            None => out.append(OWN_CRATE),
        }
        out.append("::");
    } else {
        out.append(target);
        out.append("::");
    }
    out.append(file.as_str());
    out.append(":");
    out.append(decimal_of(line as u128).as_str());
    proof {
        assert(out@ =~= location(target@, file@, line as nat));
    }
    out
}

impl QimsLogger {
    /// The effective threshold for a given log target.
    pub fn threshold(&self, target: &str) -> (r: LevelFilter)
        ensures
            r == threshold_for(self.level, target@),
    {
        if own_target(target) {
            self.level
        } else {
            LevelFilter::Warn
        }
    }

    /// Whether a message of the level `level` from `target` is shown.
    pub fn enabled(&self, level: Level, target: &str) -> (r: bool)
        ensures
            r == is_shown(self.level, level, target@),
    {
        rank_of_level(level) <= rank_of_filter(self.threshold(target))
    }

    /// The line that a message becomes at the time `time`, if it is shown.
    /// Warnings and errors go to standard error.
    pub fn log_at(&self, record: &LogRecord, time: &str) -> (r: Option<LogLine>)
        ensures
            match r {
                Some(line) => {
                    &&& is_shown(self.level, record.level, record.target@)
                    &&& line.text@ == line_text(*record, time@)
                    &&& line.to_stderr == (level_rank(record.level) <= level_rank(Level::Warn))
                },
                None => !is_shown(self.level, record.level, record.target@),
            },
    {
        if !self.enabled(record.level, record.target.as_str()) {
            return None;
        }
        let mut text = "\x1b[2m[".to_string();
        text.append(time);
        text.append("]\x1b[0m \x1b[2m[");
        text.append(location_of(record).as_str());
        text.append("]\x1b[0m [");
        text.append(level_color(record.level));
        text.append(level_name(record.level));
        text.append("\x1b[0m] ⋆.˚ ");
        text.append(record.message.as_str());
        Some(LogLine { text, to_stderr: rank_of_level(record.level) <= 2 })
    }

    /// The line that a message becomes now, if it is shown.
    pub fn log(&self, record: &LogRecord) -> (r: Option<LogLine>)
        ensures
            match r {
                Some(line) => {
                    &&& is_shown(self.level, record.level, record.target@)
                    &&& exists|time: Seq<char>|
                        is_time_of_day(time) && line.text@ == #[trigger] line_text(*record, time)
                    &&& line.to_stderr == (level_rank(record.level) <= level_rank(Level::Warn))
                },
                None => !is_shown(self.level, record.level, record.target@),
            },
    {
        let time = local_time_of_day();
        self.log_at(record, time.as_str())
    }
}

// ---------------------------------------------------------------------------
// Laws
// ---------------------------------------------------------------------------

/// The own crate goes by its name alone or with a module path behind it, and
/// nothing else is it.
pub proof fn own_targets_are_paths(target: Seq<char>)
    ensures
        is_own(target) <==> target == "qims_backend"@ || exists|rest: Seq<char>|
            target == #[trigger] ("qims_backend"@ + "::"@ + rest),
{
    crate::text::searching_finds_parts(target, "qims_backend"@ + "::"@);
    if exists|rest: Seq<char>| target == #[trigger] ("qims_backend"@ + "::"@ + rest) {
        let rest = choose|rest: Seq<char>| target == #[trigger] ("qims_backend"@ + "::"@ + rest);
        assert(target == ("qims_backend"@ + "::"@) + rest);
    }
}

/// A level shows the messages that are at least as severe: `off` none, `error`
/// errors, `warn` warnings too, and so on down to `trace`, which shows all.
pub proof fn levels_show_the_more_severe(level: Level, target: Seq<char>)
    requires
        is_own(target),
    ensures
        !is_shown(LevelFilter::Off, level, target),
        is_shown(LevelFilter::Error, level, target) <==> level is Error,
        is_shown(LevelFilter::Warn, level, target) <==> level is Error || level is Warn,
        is_shown(LevelFilter::Info, level, target) <==> level is Error || level is Warn
            || level is Info,
        is_shown(LevelFilter::Debug, level, target) <==> !(level is Trace),
        is_shown(LevelFilter::Trace, level, target),
        level_rank(level) <= level_rank(Level::Warn) <==> level is Error || level is Warn,
{
}

/// A name in any case sets the level, and anything else leaves it at `info`;
/// warnings are let through whatever the level.
pub proof fn level_is_configured_by_name(s: &str, own: LevelFilter)
    ensures
        level_for(None) == LevelFilter::Info,
        lower(s@) == "off"@ ==> level_for(Some(s)) == LevelFilter::Off,
        lower(s@) == "error"@ ==> level_for(Some(s)) == LevelFilter::Error,
        lower(s@) == "warn"@ ==> level_for(Some(s)) == LevelFilter::Warn,
        lower(s@) == "debug"@ ==> level_for(Some(s)) == LevelFilter::Debug,
        lower(s@) == "trace"@ ==> level_for(Some(s)) == LevelFilter::Trace,
        lower(s@) != "off"@ && lower(s@) != "error"@ && lower(s@) != "warn"@ && lower(s@)
            != "debug"@ && lower(s@) != "trace"@ ==> level_for(Some(s)) == LevelFilter::Info,
        own is Off || own is Error ==> let_through(own) == LevelFilter::Warn,
        !(own is Off) && !(own is Error) ==> let_through(own) == own,
{
    reveal_strlit("off");
    reveal_strlit("error");
    reveal_strlit("warn");
    reveal_strlit("info");
    reveal_strlit("debug");
    reveal_strlit("trace");
    assert("off"@.len() == 3 && "warn"@.len() == 4 && "info"@.len() == 4);
    assert("error"@[0] == 'e' && "debug"@[0] == 'd' && "trace"@[0] == 't');
    assert("warn"@[0] == 'w' && "info"@[0] == 'i');
}

/// A file goes by the last part of its path.
pub proof fn files_go_by_their_last_part(dir: Seq<char>, name: Seq<char>)
    requires
        forall|i: int| 0 <= i < name.len() ==> #[trigger] name[i] != '/',
    ensures
        file_name(dir + seq!['/'] + name) == name,
        file_name(name) == name,
{
    reveal_strlit("/");
    let path = dir + seq!['/'] + name;
    let at = dir.len() as int;
    crate::text::rfind_is_last(path, "/"@, path.len() as int);
    crate::text::rfind_is_last(name, "/"@, name.len() as int);
    assert(path.subrange(at, at + 1) =~= "/"@);
    assert(crate::text::occurs_at(path, "/"@, at));
    let last = rfind(path, "/"@)->0;
    assert(path.subrange(last, last + 1)[0] == path[last]);
    if last > at {
        assert(path[last] == name[last - at - 1]);
    }
    assert(path.skip(at + 1) =~= name);
    if let Some(i) = rfind(name, "/"@) {
        assert(name.subrange(i, i + 1)[0] == name[i]);
    }
}

/// A source file goes by its name without the ending.
pub proof fn stem_is_without_ending(s: Seq<char>)
    ensures
        stem(s + ".rs"@) == s,
        !ends_with(s, ".rs"@) ==> stem(s) == s,
{
    reveal_strlit(".rs");
    let file = s + ".rs"@;
    assert(file.subrange(file.len() - 3, file.len() as int) =~= ".rs"@);
    assert(file.take(file.len() - 3) =~= s);
}

proof fn lemma_split_behind(p: Seq<char>, q: Seq<char>, sep: Seq<char>, at: int)
    requires
        0 <= at <= q.len(),
    ensures
        split_from(p + q, sep, p.len() + at) == split_from(q, sep, at),
    decreases q.len() - at,
{
    crate::convert::xml::lemma_find_behind(p, q, sep, at);
    crate::text::find_is_first(q, sep, at);
    assert((p + q).skip(p.len() + at) =~= q.skip(at));
    if let Some(i) = find_from(q, sep, at) {
        assert((p + q).subrange(p.len() + at, p.len() + i) =~= q.subrange(at, i));
        if sep.len() > 0 {
            lemma_split_behind(p, q, sep, i + sep.len());
        }
    }
}

proof fn lemma_no_colons(name: Seq<char>, sep: Seq<char>, s: Seq<char>, i: int)
    requires
        forall|i: int| 0 <= i < name.len() ==> #[trigger] name[i] != ':',
        sep.len() > 0,
        sep[0] == ':',
        s.len() >= name.len(),
        s.take(name.len() as int) == name,
        0 <= i < name.len(),
    ensures
        !crate::text::occurs_at(s, sep, i),
{
    assert(s.take(name.len() as int)[i] == name[i]);
    if crate::text::occurs_at(s, sep, i) {
        assert(s.subrange(i, i + sep.len())[0] == s[i]);
    }
}

proof fn lemma_first_colons(name: Seq<char>, rest: Seq<char>, sep: Seq<char>)
    requires
        forall|i: int| 0 <= i < name.len() ==> #[trigger] name[i] != ':',
        sep.len() > 0,
        sep[0] == ':',
    ensures
        find_from(name + sep + rest, sep, 0) == Some(name.len() as int),
{
    let s = name + sep + rest;
    let n = name.len() as int;
    assert(crate::text::occurs_at(s, sep, n)) by {
        assert(s.subrange(n, n + sep.len()) =~= sep);
    }
    assert(s.take(n) == name) by {
        assert(s.take(n) =~= name);
    }
    lemma_found_first(s, sep, n, name);
}

proof fn lemma_found_first(s: Seq<char>, sep: Seq<char>, n: int, name: Seq<char>)
    requires
        forall|i: int| 0 <= i < name.len() ==> #[trigger] name[i] != ':',
        sep.len() > 0,
        sep[0] == ':',
        n == name.len() <= s.len(),
        s.take(n) == name,
        crate::text::occurs_at(s, sep, n),
    ensures
        find_from(s, sep, 0) == Some(n),
{
    crate::text::find_is_first(s, sep, 0);
    let found = find_from(s, sep, 0);
    if found is None {
        assert(!crate::text::occurs_at(s, sep, n));
    } else if found->0 < n {
        lemma_no_colons(name, sep, s, found->0);
    }
}

proof fn lemma_none_found(name: Seq<char>, sep: Seq<char>)
    requires
        forall|i: int| 0 <= i < name.len() ==> #[trigger] name[i] != ':',
        sep.len() > 0,
        sep[0] == ':',
    ensures
        find_from(name, sep, 0) is None,
{
    assert(name.take(name.len() as int) == name) by {
        assert(name.take(name.len() as int) =~= name);
    }
    crate::text::find_is_first(name, sep, 0);
    let found = find_from(name, sep, 0);
    if found is Some {
        lemma_no_colons(name, sep, name, found->0);
    }
}

/// A path is split at its separators: what stands before the first is one part,
/// and what follows it is split on; a name without colons is a single part.
pub proof fn paths_split_at_colons(name: Seq<char>, rest: Seq<char>)
    requires
        forall|i: int| 0 <= i < name.len() ==> #[trigger] name[i] != ':',
    ensures
        split_from(name + "::"@ + rest, "::"@, 0) == seq![name] + split_from(rest, "::"@, 0),
        split_from(name, "::"@, 0) == seq![name],
{
    let s = name + "::"@ + rest;
    let n = name.len() as int;
    reveal_strlit("::");
    assert("::"@.len() == 2 && "::"@[0] == ':');
    lemma_first_colons(name, rest, "::"@);
    lemma_none_found(name, "::"@);
    assert(s.subrange(0, n) =~= name);
    lemma_split_behind(name + "::"@, rest, "::"@, 0);
    assert(name.skip(0) =~= name);
}

/// A message of the own crate comes from the module that its file stands in: the
/// last module of its target, where one named like the file itself does not count.
pub proof fn messages_come_from_their_module(a: Seq<char>, b: Seq<char>, file: Seq<char>)
    requires
        forall|i: int| 0 <= i < a.len() ==> #[trigger] a[i] != ':',
        forall|i: int| 0 <= i < b.len() ==> #[trigger] b[i] != ':',
    ensures
        parent("qims_backend"@, file) is None,
        parent("qims_backend"@ + "::"@ + a, file) == if a == stem(file) {
            None
        } else {
            Some(a)
        },
        parent("qims_backend"@ + "::"@ + (a + "::"@ + b), file) == if b == stem(file) {
            Some(a)
        } else {
            Some(b)
        },
{
    reveal_strlit("qims_backend");
    let own = "qims_backend"@;
    paths_split_at_colons(own, a);
    paths_split_at_colons(a, b);
    paths_split_at_colons(b, b);
    paths_split_at_colons(own, a + "::"@ + b);
    let one = split_from(own + "::"@ + a, "::"@, 0);
    assert(one =~= seq![own, a]);
    assert(one.skip(1) =~= seq![a]);
    assert(seq![a].drop_last() =~= Seq::<Seq<char>>::empty());
    let two = split_from(own + "::"@ + (a + "::"@ + b), "::"@, 0);
    assert(two =~= seq![own, a, b]);
    assert(two.skip(1) =~= seq![a, b]);
    assert(seq![a, b].drop_last() =~= seq![a]);
    assert(seq![own].skip(1) =~= Seq::<Seq<char>>::empty());
}

/// A place is the file and the line behind the module, the own crate or, for
/// other crates, the whole target.
pub proof fn places_are_compact(target: Seq<char>, file: Seq<char>, line: nat)
    ensures
        ({
            let place = file + ":"@ + decimal(line);
            &&& !is_own(target) ==> location(target, file, line) == target + "::"@ + place
            &&& is_own(target) && parent(target, file) is None ==> location(target, file, line)
                == "qims_backend"@ + "::"@ + place
            &&& is_own(target) && parent(target, file) is Some ==> location(target, file, line)
                == "::"@ + parent(target, file)->0 + "::"@ + place
        }),
{
}

/// A line tells when, where, how severe and what: the time and the place dimmed,
/// the level in its color, and the whole message at the end.
pub proof fn line_tells_all(record: LogRecord, time: Seq<char>)
    ensures
        ({
            let file = match record.file {
                Some(f) => file_name(f@),
                None => "?"@,
            };
            let line = match record.line {
                Some(n) => n as nat,
                None => 0nat,
            };
            let level = match record.level {
                Level::Error => "\x1b[31m"@ + "ERROR"@,
                Level::Warn => "\x1b[33m"@ + "WARN"@,
                Level::Info => "\x1b[32m"@ + "INFO"@,
                Level::Debug => "\x1b[36m"@ + "DEBUG"@,
                Level::Trace => "\x1b[35m"@ + "TRACE"@,
            };
            line_text(record, time) == "\x1b[2m["@ + time + "]\x1b[0m \x1b[2m["@ + location(
                record.target@,
                file,
                line,
            ) + "]\x1b[0m ["@ + level + "\x1b[0m] ⋆.˚ "@ + record.message@
        }),
{
    let file = record_file(record);
    let line = record_line(record);
    let front = "\x1b[2m["@ + time + "]\x1b[0m \x1b[2m["@ + location(record.target@, file, line)
        + "]\x1b[0m ["@;
    assert(front + color_of(record.level) + name_of(record.level) =~= front + (color_of(
        record.level,
    ) + name_of(record.level)));
}

/// A duration is told in microseconds below a millisecond, and from there on in
/// milliseconds.
pub proof fn durations_have_their_unit(micros: nat, millis: Seq<char>)
    ensures
        micros < 1000 ==> elapsed_text(micros, millis) == decimal(micros) + "µs"@,
        micros >= 1000 ==> elapsed_text(micros, millis) == millis + "ms"@,
{
}

proof fn lemma_join_splits(parts: Seq<Seq<char>>)
    requires
        parts.len() > 0,
        forall|k: int, i: int|
            0 <= k < parts.len() && 0 <= i < parts[k].len() ==> #[trigger] parts[k][i] != ':',
    ensures
        split_from(crate::text::join(parts, "::"@), "::"@, 0) == parts,
    decreases parts.len(),
{
    let first = parts[0];
    if parts.len() == 1 {
        paths_split_at_colons(first, first);
        assert(parts =~= seq![first]);
    } else {
        let rest = parts.skip(1);
        assert forall|k: int, i: int| 0 <= k < rest.len() && 0 <= i < rest[k].len() implies
            #[trigger] rest[k][i] != ':' by {
            assert(parts[k + 1][i] != ':');
        }
        lemma_join_splits(rest);
        paths_split_at_colons(first, crate::text::join(rest, "::"@));
        assert(seq![first] + rest =~= parts);
    }
}

/// However deep its module is, a message of the own crate comes from the last one
/// of its path that is not named like the file.
pub proof fn messages_come_from_the_last_module(parts: Seq<Seq<char>>, file: Seq<char>)
    requires
        parts.len() > 0,
        forall|k: int, i: int|
            0 <= k < parts.len() && 0 <= i < parts[k].len() ==> #[trigger] parts[k][i] != ':',
        parts[0] == "qims_backend"@,
    ensures
        parent(crate::text::join(parts, "::"@), file) == if parts.len() > 1 && parts.last()
            != stem(file) {
            Some(parts.last())
        } else if parts.len() > 2 {
            Some(parts[parts.len() - 2])
        } else {
            None
        },
{
    lemma_join_splits(parts);
    let inner = parts.skip(1);
    if inner.len() > 0 {
        assert(inner.last() == parts.last());
        if inner.len() > 1 {
            assert(inner.drop_last().last() == parts[parts.len() - 2]);
        }
    }
}

} // verus!
