//! The application log: the most recent entries, at most a fixed number.
use vstd::prelude::*;
use crate::model::{LogEntry, LogEntryView};
use crate::text::{all_digits, is_ascii_digit};

verus! {

/// How many entries the log keeps.
pub const LOG_CAPACITY: usize = 2000;

/// `log` after `entry` is appended: when that makes it longer than the
/// capacity, the oldest entry is dropped.
pub open spec fn appended(log: Seq<LogEntryView>, entry: LogEntryView) -> Seq<LogEntryView> {
    let grown = log.push(entry);
    if grown.len() > LOG_CAPACITY {
        grown.drop_first()
    } else {
        grown
    }
}

/// A year as `%Y` writes it: four digits, or, outside 0 to 9999, a sign
/// and at least four digits.
pub open spec fn is_year_text(t: Seq<char>) -> bool {
    ||| t.len() == 4 && all_digits(t)
    ||| t.len() >= 5 && (t[0] == '+' || t[0] == '-') && all_digits(t.drop_first())
}

/// Text of the form `YYYY-MM-DD HH:MM:SS` (the year as `%Y` writes it, each
/// other field two digits).
pub open spec fn is_timestamp_text(s: Seq<char>) -> bool {
    let y = s.len() - 15;
    &&& s.len() >= 19
    &&& is_year_text(s.take(y))
    &&& s[y] == '-'
    &&& is_ascii_digit(s[y + 1]) && is_ascii_digit(s[y + 2])
    &&& s[y + 3] == '-'
    &&& is_ascii_digit(s[y + 4]) && is_ascii_digit(s[y + 5])
    &&& s[y + 6] == ' '
    &&& is_ascii_digit(s[y + 7]) && is_ascii_digit(s[y + 8])
    &&& s[y + 9] == ':'
    &&& is_ascii_digit(s[y + 10]) && is_ascii_digit(s[y + 11])
    &&& s[y + 12] == ':'
    &&& is_ascii_digit(s[y + 13]) && is_ascii_digit(s[y + 14])
}

/// The local time formatted with `%Y-%m-%d %H:%M:%S`
/// (`chrono::Local::now().format(..)`). Which time it is depends on the
/// clock and is not stated; its shape holds of every outcome.
#[verifier::external_body]
fn local_timestamp() -> (res: String)
    ensures
        is_timestamp_text(res@),
{
    chrono::Local::now().format("%Y-%m-%d %H:%M:%S").to_string()
}

/// The views of `entries`, in order.
pub open spec fn entry_views(entries: Seq<LogEntry>) -> Seq<LogEntryView> {
    entries.map_values(|e: LogEntry| e@)
}

/// The entries of the application log, oldest first.
pub struct LogBuffer {
    entries: Vec<LogEntry>,
}

impl View for LogBuffer {
    type V = Seq<LogEntryView>;

    closed spec fn view(&self) -> Seq<LogEntryView> {
        entry_views(self.entries@)
    }
}

impl LogBuffer {
    /// The log never holds more than `LOG_CAPACITY` entries.
    #[verifier::type_invariant]
    spec fn within_capacity(&self) -> bool {
        self.entries.len() <= LOG_CAPACITY
    }

    /// An empty log.
    pub fn new() -> (res: LogBuffer)
        ensures
            res@ == Seq::<LogEntryView>::empty(),
    {
        let res = LogBuffer { entries: Vec::new() };
        assert(res@ =~= Seq::<LogEntryView>::empty());
        res
    }

    /// How many entries the log holds: never more than its capacity.
    pub fn len(&self) -> (res: usize)
        ensures
            res == self@.len(),
            res <= LOG_CAPACITY,
    {
        proof {
            use_type_invariant(self);
        }
        self.entries.len()
    }

    /// Appends `entry`, dropping the oldest entry when the log is full.
    pub fn push(&mut self, entry: LogEntry)
        ensures
            final(self)@ == appended(old(self)@, entry@),
    {
        proof {
            use_type_invariant(&*self);
        }
        let ghost e = entry@;
        let mut entries: Vec<LogEntry> = Vec::new();
        std::mem::swap(&mut entries, &mut self.entries);
        entries.push(entry);
        assert(entry_views(entries@) =~= old(self)@.push(e));
        if entries.len() > LOG_CAPACITY {
            entries.remove(0);
            assert(entry_views(entries@) =~= old(self)@.push(e).drop_first());
        }
        self.entries = entries;
    }

    /// Appends an entry of the given level and message, stamped with the
    /// local time.
    pub fn add_log(&mut self, level: &str, message: &str)
        ensures
            final(self)@ == appended(old(self)@, final(self)@.last()),
            final(self)@.last().level == level@,
            final(self)@.last().message == message@,
            is_timestamp_text(final(self)@.last().timestamp),
    {
        let timestamp = local_timestamp();
        self.push(LogEntry { timestamp, level: level.to_owned(), message: message.to_owned() });
    }

    /// A copy of the entries, oldest first.
    pub fn entries(&self) -> (res: Vec<LogEntry>)
        ensures
            entry_views(res@) == self@,
    {
        let mut res: Vec<LogEntry> = Vec::new();
        let mut i: usize = 0;
        while i < self.entries.len()
            invariant
                i <= self.entries.len(),
                res@.len() == i,
                entry_views(res@) == self@.take(i as int),
            decreases self.entries.len() - i,
        {
            let c = self.entries[i].copy();
            let ghost prev = res@;
            res.push(c);
            assert(res@ == prev.push(c));
            assert(c@ == self@[i as int]);
            i += 1;
            assert forall|k: int| 0 <= k < i implies entry_views(res@)[k] == self@.take(
                i as int,
            )[k] by {
                if k < i - 1 {
                    assert(entry_views(prev)[k] == self@.take(i - 1)[k]);
                }
            }
            assert(entry_views(res@) =~= self@.take(i as int));
        }
        assert(self@.take(i as int) =~= self@);
        res
    }

    /// Empties the log, then records that it was cleared.
    pub fn clear_logs(&mut self)
        ensures
            final(self)@.len() == 1,
            final(self)@[0].level == "INFO"@,
            final(self)@[0].message == "Logs cleared"@,
            is_timestamp_text(final(self)@[0].timestamp),
    {
        self.entries = Vec::new();
        assert(self@ =~= Seq::<LogEntryView>::empty());
        self.add_log("INFO", "Logs cleared");
    }
}

/// The log keeps the latest entries: appending to a log within capacity
/// leaves it within capacity, with the new entry last, one entry longer
/// until it is full, and otherwise the same entries with the oldest one
/// dropped.
pub proof fn law_log_keeps_latest(log: Seq<LogEntryView>, entry: LogEntryView)
    requires
        log.len() <= LOG_CAPACITY,
    ensures
        appended(log, entry).len() <= LOG_CAPACITY,
        appended(log, entry).last() == entry,
        log.len() < LOG_CAPACITY ==> appended(log, entry) == log.push(entry),
        log.len() == LOG_CAPACITY ==> appended(log, entry) == log.drop_first().push(entry),
{
    if log.len() == LOG_CAPACITY {
        assert(log.push(entry).drop_first() =~= log.drop_first().push(entry));
    }
}

} // verus!
