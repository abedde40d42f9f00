//! The in-memory activity log shown in the UI: a bounded window that keeps
//! the most recent entries, oldest first.
use vstd::prelude::*;

verus! {

/// A point in time in UTC: whole seconds since the Unix epoch and the
/// nanoseconds past that second.
#[derive(Debug, Clone, Copy, PartialEq, Eq, Structural)]
pub struct Timestamp {
    pub secs: i64,
    pub nanos: u32,
}

/// How many entries the log keeps; pushing onto a full log drops the oldest.
pub const MAX_LOGS: usize = 500;

pub struct LogEntry {
    pub id: String,
    pub timestamp: Timestamp,
    pub level: String,
    pub source: String,
    pub message: String,
}

pub struct LogEntryView {
    pub id: Seq<char>,
    pub timestamp: Timestamp,
    pub level: Seq<char>,
    pub source: Seq<char>,
    pub message: Seq<char>,
}

impl View for LogEntry {
    type V = LogEntryView;

    open spec fn view(&self) -> LogEntryView {
        LogEntryView {
            id: self.id@,
            timestamp: self.timestamp,
            level: self.level@,
            source: self.source@,
            message: self.message@,
        }
    }
}

impl LogEntry {
    /// A field-by-field copy.
    pub fn duplicate(&self) -> (r: LogEntry)
        ensures
            r@ == self@,
    {
        LogEntry {
            id: self.id.clone(),
            timestamp: self.timestamp,
            level: self.level.clone(),
            source: self.source.clone(),
            message: self.message.clone(),
        }
    }
}

pub open spec fn entries_view(s: Seq<LogEntry>) -> Seq<LogEntryView> {
    s.map_values(|e: LogEntry| e@)
}

/// Whether `c` is a lowercase hexadecimal digit.
pub open spec fn is_lower_hex(c: char) -> bool {
    ('0' <= c && c <= '9') || ('a' <= c && c <= 'f')
}

/// The text form of a random (version 4) UUID: `xxxxxxxx-xxxx-4xxx-yxxx-xxxxxxxxxxxx`
/// in lowercase hexadecimal, where `y` is one of `8`, `9`, `a`, `b`.
pub open spec fn uuid_v4_text(s: Seq<char>) -> bool {
    &&& s.len() == 36
    &&& forall|i: int|
        0 <= i < 36 ==> if i == 8 || i == 13 || i == 18 || i == 23 {
            #[trigger] s[i] == '-'
        } else {
            is_lower_hex(s[i])
        }
    &&& s[14] == '4'
    &&& (s[19] == '8' || s[19] == '9' || s[19] == 'a' || s[19] == 'b')
}

/// A fresh identifier for a log entry, by `uuid::Uuid::new_v4` and its
/// `Display` form. The digits are random: what is stated is only the shape
/// that `Uuid`'s hyphenated lowercase format gives a version-4 value.
#[verifier::external_body]
fn new_log_id() -> (id: String)
    ensures
        uuid_v4_text(id@),
{
    uuid::Uuid::new_v4().to_string()
}

/// The current time, by `chrono::Utc::now`, taken apart by `timestamp` and
/// `timestamp_subsec_nanos`. Which time it is, is not stated; what is stated
/// is what `Utc::now` builds its value from: a duration since the epoch, so
/// the seconds are not negative and the nanoseconds stay below one second.
#[verifier::external_body]
fn now_utc() -> (t: Timestamp)
    ensures
        t.secs >= 0,
        t.nanos < 1_000_000_000,
{
    let now = chrono::Utc::now();
    Timestamp { secs: now.timestamp(), nanos: now.timestamp_subsec_nanos() }
}

/// The log after one entry is pushed: appended at the end, with the oldest
/// entry dropped when the log is already full.
pub open spec fn pushed(logs: Seq<LogEntryView>, e: LogEntryView) -> Seq<LogEntryView> {
    if logs.len() >= MAX_LOGS {
        logs.drop_first().push(e)
    } else {
        logs.push(e)
    }
}

/// The log after the entries of `es` are pushed one by one, first to last.
pub open spec fn pushed_all(logs: Seq<LogEntryView>, es: Seq<LogEntryView>) -> Seq<LogEntryView>
    decreases es.len(),
{
    if es.len() == 0 {
        logs
    } else {
        pushed(pushed_all(logs, es.drop_last()), es.last())
    }
}

/// The last `n` items of `s`, or all of them where there are fewer.
pub open spec fn last_n<A>(s: Seq<A>, n: nat) -> Seq<A> {
    if s.len() <= n {
        s
    } else {
        s.skip(s.len() - n)
    }
}

/// How important an entry is, read from its level.
#[derive(Debug, Clone, Copy, PartialEq, Eq, Structural)]
pub enum Severity {
    Error,
    Warn,
    Info,
    Debug,
}

pub open spec fn severity_spec(level: Seq<char>) -> Severity {
    if level == "error"@ {
        Severity::Error
    } else if level == "warn"@ {
        Severity::Warn
    } else if level == "debug"@ {
        Severity::Debug
    } else {
        Severity::Info
    }
}

/// The severity of a level name: `error`, `warn` and `debug` name theirs,
/// anything else counts as `Info`.
pub fn severity_of(level: &str) -> (r: Severity)
    ensures
        r == severity_spec(level@),
{
    let l = crate::text::chars_of(level);
    if crate::text::eq_str(&l, "error") {
        Severity::Error
    } else if crate::text::eq_str(&l, "warn") {
        Severity::Warn
    } else if crate::text::eq_str(&l, "debug") {
        Severity::Debug
    } else {
        Severity::Info
    }
}

/// The activity log: at most `MAX_LOGS` entries, oldest first.
pub struct LogBook {
    entries: Vec<LogEntry>,
}

impl View for LogBook {
    type V = Seq<LogEntryView>;

    closed spec fn view(&self) -> Seq<LogEntryView> {
        entries_view(self.entries@)
    }
}

impl LogBook {
    /// The log holds no more than `MAX_LOGS` entries.
    pub open spec fn wf(&self) -> bool {
        self@.len() <= MAX_LOGS
    }

    /// An empty log.
    pub fn new() -> (b: LogBook)
        ensures
            b.wf(),
            b@ == Seq::<LogEntryView>::empty(),
    {
        let b = LogBook { entries: Vec::new() };
        proof {
            assert(b@ =~= Seq::<LogEntryView>::empty());
        }
        b
    }

    /// Appends an entry, dropping the oldest one first when the log is full.
    pub fn push_entry(&mut self, entry: LogEntry)
        requires
            old(self).wf(),
        ensures
            final(self).wf(),
            final(self)@ == pushed(old(self)@, entry@),
    {
        let ghost before = self@;
        if self.entries.len() >= MAX_LOGS {
            self.entries.remove(0);
        }
        self.entries.push(entry);
        proof {
            if before.len() >= MAX_LOGS {
                assert(self@ =~= before.drop_first().push(entry@));
            } else {
                assert(self@ =~= before.push(entry@));
            }
        }
    }

    /// Records a message with a fresh identifier and the current time (whole
    /// seconds since the epoch, not negative, and nanoseconds below one second).
    pub fn push_log(&mut self, level: &str, source: &str, message: String)
        requires
            old(self).wf(),
        ensures
            final(self).wf(),
            exists|e: LogEntryView|
                {
                    &&& final(self)@ == pushed(old(self)@, e)
                    &&& e.level == level@
                    &&& e.source == source@
                    &&& e.message == message@
                    &&& uuid_v4_text(e.id)
                    &&& e.timestamp.secs >= 0
                    &&& e.timestamp.nanos < 1_000_000_000
                },
    {
        let entry = LogEntry {
            id: new_log_id(),
            timestamp: now_utc(),
            level: level.to_owned(),
            source: source.to_owned(),
            message,
        };
        self.push_entry(entry);
    }

    /// A copy of every entry, oldest first.
    pub fn logs_snapshot(&self) -> (r: Vec<LogEntry>)
        ensures
            entries_view(r@) == self@,
    {
        let mut r: Vec<LogEntry> = Vec::new();
        for i in 0..self.entries.len()
            invariant
                r.len() == i,
                forall|k: int| 0 <= k < i ==> (#[trigger] r@[k])@ == self.entries@[k]@,
        {
            r.push(self.entries[i].duplicate());
        }
        proof {
            assert(entries_view(r@) =~= entries_view(self.entries@));
        }
        r
    }

    /// Removes every entry.
    pub fn clear_logs(&mut self)
        ensures
            final(self).wf(),
            final(self)@ == Seq::<LogEntryView>::empty(),
    {
        self.entries.clear();
        proof {
            assert(self@ =~= Seq::<LogEntryView>::empty());
        }
    }
}

/// One push onto a log of any length gives what keeping the last `MAX_LOGS`
/// of the longer sequence gives.
proof fn lemma_pushed_window(s: Seq<LogEntryView>, e: LogEntryView)
    ensures
        pushed(last_n(s, MAX_LOGS as nat), e) == last_n(s.push(e), MAX_LOGS as nat),
{
    let m = MAX_LOGS as int;
    if s.len() < m {
    } else if s.len() == m {
        assert(s.drop_first().push(e) =~= s.push(e).skip(1));
    } else {
        let w = s.skip(s.len() - m);
        assert(w.drop_first().push(e) =~= s.push(e).skip(s.len() + 1 - m));
    }
}

/// Pushing entries one by one onto a well-formed log keeps exactly the last
/// `MAX_LOGS` of the old entries followed by the new ones, in order.
pub proof fn law_log_window(logs: Seq<LogEntryView>, es: Seq<LogEntryView>)
    requires
        logs.len() <= MAX_LOGS,
    ensures
        pushed_all(logs, es) == last_n(logs + es, MAX_LOGS as nat),
    decreases es.len(),
{
    if es.len() == 0 {
        assert(logs + es =~= logs);
    } else {
        law_log_window(logs, es.drop_last());
        lemma_pushed_window(logs + es.drop_last(), es.last());
        assert((logs + es.drop_last()).push(es.last()) =~= logs + es);
    }
}

/// A push leaves the log no longer than `MAX_LOGS`, puts the new entry last,
/// and keeps the entries before it in their order.
pub proof fn law_push_keeps_order(logs: Seq<LogEntryView>, e: LogEntryView)
    requires
        logs.len() <= MAX_LOGS,
    ensures
        pushed(logs, e).len() <= MAX_LOGS,
        pushed(logs, e).last() == e,
        pushed(logs, e).drop_last() == last_n(logs, (MAX_LOGS - 1) as nat),
{
    if logs.len() >= MAX_LOGS {
        assert(pushed(logs, e).drop_last() =~= logs.skip(1));
    } else {
        assert(pushed(logs, e).drop_last() =~= logs);
    }
}

} // verus!
