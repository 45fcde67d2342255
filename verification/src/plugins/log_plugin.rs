//! Leveled logging: the in-game log buffer and the rotation of log files.

use crate::utils::{parent_of, path_parent};
use vstd::prelude::*;
use crate::numfmt::{decimal, format_u64, lemma_decimal_digits, lemma_decimal_injective};
use vstd::string::StringExecFns;

verus! {

/// Log level, from least to most severe.
#[derive(Clone, Copy, Debug, PartialEq, Eq)]
pub enum LogLevel {
    /// Tracing detail.
    Trace,
    /// Debugging detail.
    Debug,
    /// Information.
    Info,
    /// Warning.
    Warn,
    /// Error.
    Error,
}

/// Severity rank of a level: `Trace` is 0, `Error` is 4.
pub open spec fn level_rank(l: LogLevel) -> int {
    match l {
        LogLevel::Trace => 0,
        LogLevel::Debug => 1,
        LogLevel::Info => 2,
        LogLevel::Warn => 3,
        LogLevel::Error => 4,
    }
}

impl LogLevel {
    /// Severity rank: `Trace` is 0, `Error` is 4.
    pub fn rank(self) -> (r: i32)
        ensures
            r == level_rank(self),
    {
        match self {
            LogLevel::Trace => 0,
            LogLevel::Debug => 1,
            LogLevel::Info => 2,
            LogLevel::Warn => 3,
            LogLevel::Error => 4,
        }
    }
}

/// One log line kept for in-game display.
#[derive(Clone, Debug)]
pub struct LogEntry {
    /// When it was logged.
    pub timestamp: String,
    /// Its level.
    pub level: LogLevel,
    /// Where it came from.
    pub target: String,
    /// The message.
    pub message: String,
}

/// The log lines kept for in-game display, oldest first.
pub struct LogBuffer {
    /// Kept entries, oldest first.
    pub entries: Vec<LogEntry>,
    /// The number of entries beyond which the oldest is dropped.
    pub max_entries: usize,
}

/// The entries after `add_entry(e)`: `e` is appended and, if that makes more than `max`
/// entries, the oldest one is dropped.
pub open spec fn entries_after_add(entries: Seq<LogEntry>, max: nat, e: LogEntry) -> Seq<LogEntry> {
    let pushed = entries.push(e);
    if pushed.len() > max {
        pushed.drop_first()
    } else {
        pushed
    }
}

/// Whether entry `e` passes the level filter `level`.
pub open spec fn passes_filter(e: LogEntry, level: LogLevel) -> bool {
    level_rank(e.level) >= level_rank(level)
}

/// A buffer holding no more entries than its limit still holds no more after an entry is
/// added, and the added entry is kept as the newest.
pub proof fn law_buffer_bounded(entries: Seq<LogEntry>, max: nat, e: LogEntry)
    requires
        entries.len() <= max,
    ensures
        entries_after_add(entries, max, e).len() <= max,
        max > 0 ==> entries_after_add(entries, max, e).last() == e,
{
}

impl LogBuffer {
    /// An empty buffer keeping at most 1000 entries.
    pub fn new() -> (b: Self)
        ensures
            b.entries@ == Seq::<LogEntry>::empty(),
            b.max_entries == 1000,
    {
        LogBuffer { entries: Vec::new(), max_entries: 1000 }
    }

    /// Appends `entry`; when the buffer then holds more than `max_entries`, drops the oldest.
    pub fn add_entry(&mut self, entry: LogEntry)
        ensures
            final(self).entries@ == entries_after_add(old(self).entries@, old(self).max_entries as nat, entry),
            final(self).max_entries == old(self).max_entries,
    {
        self.entries.push(entry);
        if self.entries.len() > self.max_entries {
            let _ = self.entries.remove(0);
        }
    }

    /// The entries at `level` or more severe, oldest first.
    pub fn get_filtered(&self, level: LogLevel) -> (r: Vec<&LogEntry>)
        ensures
            r@.map_values(|e: &LogEntry| *e) == self.entries@.filter(|e: LogEntry| passes_filter(e, level)),
    {
        let mut r: Vec<&LogEntry> = Vec::new();
        let mut i: usize = 0;
        let ghost f = |e: LogEntry| passes_filter(e, level);
        while i < self.entries.len()
            invariant
                i <= self.entries@.len(),
                f == (|e: LogEntry| passes_filter(e, level)),
                r@.map_values(|e: &LogEntry| *e) == self.entries@.take(i as int).filter(f),
            decreases self.entries@.len() - i,
        {
            let ghost s1 = self.entries@.take(i + 1);
            proof {
                assert(s1.drop_last() =~= self.entries@.take(i as int));
                assert(s1.last() == self.entries@[i as int]);
                reveal_with_fuel(Seq::filter, 1);
                assert(s1.filter(f) == if f(s1.last()) {
                    self.entries@.take(i as int).filter(f).push(s1.last())
                } else {
                    self.entries@.take(i as int).filter(f)
                });
            }
            let e = &self.entries[i];
            if e.level.rank() >= level.rank() {
                let ghost prev = r@;
                r.push(e);
                proof {
                    assert(r@.map_values(|e: &LogEntry| *e) =~= prev.map_values(|e: &LogEntry| *e).push(*e));
                }
            }
            i = i + 1;
        }
        proof {
            assert(self.entries@.take(self.entries@.len() as int) =~= self.entries@);
        }
        r
    }

    /// Removes every entry.
    pub fn clear(&mut self)
        ensures
            final(self).entries@ == Seq::<LogEntry>::empty(),
            final(self).max_entries == old(self).max_entries,
    {
        self.entries.clear();
    }
}


impl Default for LogBuffer {
    fn default() -> (b: Self)
        ensures
            b.entries@ == Seq::<LogEntry>::empty(),
            b.max_entries == 1000,
    {
        LogBuffer::new()
    }
}

/// Logging configuration.
#[derive(Clone, Debug)]
pub struct LogConfig {
    /// Path of the log file.
    pub log_file: String,
    /// Log level.
    pub level: LogLevel,
    /// Whether to write to the file.
    pub file_output: bool,
    /// Whether to write to the console.
    pub console_output: bool,
    /// Size of a log file, in MB, beyond which it is rotated.
    pub max_file_size_mb: u64,
    /// Number of log files kept.
    pub max_files: usize,
}

impl Default for LogConfig {
    fn default() -> (r: Self)
        ensures
            r.log_file@ == "logs/game.log"@,
            r.level == LogLevel::Info,
            r.file_output,
            r.console_output,
            r.max_file_size_mb == 10,
            r.max_files == 5,
    {
        LogConfig {
            log_file: crate::text::to_owned_string("logs/game.log"),
            level: LogLevel::Info,
            file_output: true,
            console_output: true,
            max_file_size_mb: 10,
            max_files: 5,
        }
    }
}

/// What `std::path::Path::file_stem` gives for `path`, as text.
pub uninterp spec fn file_stem_of(path: Seq<char>) -> Option<Seq<char>>;

/// `std::path::Path::file_stem`, as text: the file name without its extension, if the
/// path names a file. Its result is named, not stated.
#[verifier::external_body]
fn path_file_stem(path: &str) -> (r: Option<String>)
    ensures
        r matches Some(s) ==> file_stem_of(path@) == Some(s@),
        r is None ==> file_stem_of(path@) is None,
{
    std::path::Path::new(path).file_stem().map(|s| s.to_string_lossy().to_string())
}

/// The directory and base name of the log files, given the parent and the file stem of
/// the configured log file: the directory defaults to `.` and the base name to `game`.
pub fn log_location_from(parent: Option<String>, stem: Option<String>) -> (r: (String, String))
    ensures
        r.0@ == (match parent {
            Some(p) => p@,
            None => "."@,
        }),
        r.1@ == (match stem {
            Some(s) => s@,
            None => "game"@,
        }),
{
    let dir = match parent {
        Some(p) => p,
        None => crate::text::to_owned_string("."),
    };
    let base = match stem {
        Some(s) => s,
        None => crate::text::to_owned_string("game"),
    };
    (dir, base)
}

/// The directory and base name of the log files for the log file `log_file`.
pub fn log_location(log_file: &str) -> (r: (String, String))
    ensures
        r.0@ == (match parent_of(log_file@) {
            Some(p) => p,
            None => "."@,
        }),
        r.1@ == (match file_stem_of(log_file@) {
            Some(s) => s,
            None => "game"@,
        }),
{
    log_location_from(path_parent(log_file), path_file_stem(log_file))
}

/// The size limit of a log file in bytes, for a limit given in MB.
pub fn max_size_bytes(max_file_size_mb: u64) -> (r: u64)
    requires
        max_file_size_mb * 1024 * 1024 <= u64::MAX,
    ensures
        r == max_file_size_mb * 1024 * 1024,
{
    max_file_size_mb * 1024 * 1024
}

/// Whether writing `message_len` more bytes to a file holding `current_size` bytes would
/// pass `max_size`, so that the files must be rotated first.
pub fn needs_rotation(current_size: u64, message_len: usize, max_size: u64) -> (r: bool)
    requires
        current_size + message_len <= u64::MAX,
    ensures
        r == (current_size + message_len > max_size),
{
    current_size + message_len as u64 > max_size
}

/// One file operation of a log rotation.
#[derive(Clone, Debug)]
pub enum RotationStep {
    /// Delete the file if it exists.
    RemoveIfExists(String),
    /// Rename `from` to `to` if `from` exists.
    RenameIfExists {
        /// Current name.
        from: String,
        /// New name.
        to: String,
    },
    /// Rename `from` to `to`.
    Rename {
        /// Current name.
        from: String,
        /// New name.
        to: String,
    },
}

/// A [`RotationStep`] with its names seen as character sequences.
pub ghost enum RotationStepView {
    RemoveIfExists(Seq<char>),
    RenameIfExists { from: Seq<char>, to: Seq<char> },
    Rename { from: Seq<char>, to: Seq<char> },
}

impl View for RotationStep {
    type V = RotationStepView;

    open spec fn view(&self) -> RotationStepView {
        match self {
            RotationStep::RemoveIfExists(p) => RotationStepView::RemoveIfExists(p@),
            RotationStep::RenameIfExists { from, to } => RotationStepView::RenameIfExists {
                from: from@,
                to: to@,
            },
            RotationStep::Rename { from, to } => RotationStepView::Rename { from: from@, to: to@ },
        }
    }
}

/// The name of the current log file: `{base}.log`.
pub open spec fn current_log_name(base: Seq<char>) -> Seq<char> {
    base + ".log"@
}

/// The name of the `i`-th older log file: `{base}.{i}.log`.
pub open spec fn rotated_log_name(base: Seq<char>, i: nat) -> Seq<char> {
    base + "."@ + decimal(i) + ".log"@
}

/// The number of numbered files a rotation keeps: `max_files`, and at least one, since
/// the current file always moves to `.1`.
pub open spec fn kept_files(max_files: nat) -> nat {
    if max_files == 0 {
        1
    } else {
        max_files
    }
}

/// The operations of a rotation, in order: with `k` the number of files kept, the oldest
/// file (`.k`) is deleted, files `.k-1` down to `.1` move up by one, and the current file
/// becomes `.1`.
pub open spec fn rotation_plan_spec(base: Seq<char>, max_files: nat) -> Seq<RotationStepView> {
    let k = kept_files(max_files);
    seq![RotationStepView::RemoveIfExists(rotated_log_name(base, k))] + Seq::new(
        (k - 1) as nat,
        |j: int| RotationStepView::RenameIfExists {
            from: rotated_log_name(base, (k - 1 - j) as nat),
            to: rotated_log_name(base, (k - j) as nat),
        },
    ) + seq![RotationStepView::Rename { from: current_log_name(base), to: rotated_log_name(base, 1) }]
}

/// The file a rotation step frees: the one it deletes or renames away.
pub open spec fn step_source(s: RotationStepView) -> Seq<char> {
    match s {
        RotationStepView::RemoveIfExists(p) => p,
        RotationStepView::RenameIfExists { from, .. } => from,
        RotationStepView::Rename { from, .. } => from,
    }
}

/// The name a rotation step writes to, if it renames.
pub open spec fn step_target(s: RotationStepView) -> Option<Seq<char>> {
    match s {
        RotationStepView::RemoveIfExists(_) => None,
        RotationStepView::RenameIfExists { to, .. } => Some(to),
        RotationStepView::Rename { to, .. } => Some(to),
    }
}

/// Rotation loses only the oldest file: every rename writes to the name the step before
/// it freed, and the current file and the numbered files all have different names.
pub proof fn law_rotation_frees_before_reuse(base: Seq<char>, max_files: nat)
    ensures
        rotation_plan_spec(base, max_files).len() == kept_files(max_files) + 1,
        forall|m: int| 1 <= m <= kept_files(max_files) ==> step_target(
            #[trigger] rotation_plan_spec(base, max_files)[m],
        ) == Some(step_source(rotation_plan_spec(base, max_files)[m - 1])),
        forall|i: nat, j: nat| i != j ==> rotated_log_name(base, i) != rotated_log_name(base, j),
        forall|i: nat| current_log_name(base) != #[trigger] rotated_log_name(base, i),
{
    let k = kept_files(max_files);
    let plan = rotation_plan_spec(base, max_files);
    assert forall|m: int| 1 <= m <= k implies step_target(#[trigger] plan[m]) == Some(
        step_source(plan[m - 1]),
    ) by {
        if m < k {
            assert(plan[m] == RotationStepView::RenameIfExists {
                from: rotated_log_name(base, (k - 1 - (m - 1)) as nat),
                to: rotated_log_name(base, (k - (m - 1)) as nat),
            });
        }
        if m >= 2 {
            assert(plan[m - 1] == RotationStepView::RenameIfExists {
                from: rotated_log_name(base, (k - 1 - (m - 2)) as nat),
                to: rotated_log_name(base, (k - (m - 2)) as nat),
            });
        }
    }
    reveal_strlit(".");
    reveal_strlit(".log");
    let n = base.len() as int;
    assert forall|i: nat, j: nat| i != j implies rotated_log_name(base, i) != rotated_log_name(base, j) by {
        if rotated_log_name(base, i) == rotated_log_name(base, j) {
            lemma_decimal_digits(i);
            lemma_decimal_digits(j);
            let a = rotated_log_name(base, i);
            assert(decimal(i) =~= a.subrange(n + 1, a.len() - 4));
            assert(decimal(j) =~= a.subrange(n + 1, a.len() - 4));
            lemma_decimal_injective(i, j);
        }
    }
    assert forall|i: nat| current_log_name(base) != #[trigger] rotated_log_name(base, i) by {
        lemma_decimal_digits(i);
        assert(current_log_name(base)[n + 1] == 'l');
        assert(rotated_log_name(base, i)[n + 1] == decimal(i)[0]);
    }
}

/// `{base}.{i}.log`.
pub fn rotated_name(base: &str, i: u64) -> (r: String)
    ensures
        r@ == rotated_log_name(base@, i as nat),
{
    let mut s = crate::text::to_owned_string(base);
    s.append(".");
    let digits = format_u64(i);
    s.append(digits.as_str());
    s.append(".log");
    s
}

/// `{base}.log`.
pub fn current_name(base: &str) -> (r: String)
    ensures
        r@ == current_log_name(base@),
{
    let mut s = crate::text::to_owned_string(base);
    s.append(".log");
    s
}

/// The file operations that rotate the log files named after `base`, keeping `max_files`
/// numbered files (at least one).
pub fn rotation_plan(base: &str, max_files: usize) -> (r: Vec<RotationStep>)
    ensures
        r@.map_values(|s: RotationStep| s@) == rotation_plan_spec(base@, max_files as nat),
        r@.len() == kept_files(max_files as nat) + 1,
{
    let k: u64 = if max_files == 0 {
        1
    } else {
        max_files as u64
    };
    let ghost plan = rotation_plan_spec(base@, max_files as nat);
    let mut r: Vec<RotationStep> = Vec::new();
    r.push(RotationStep::RemoveIfExists(rotated_name(base, k)));
    let mut i: u64 = k - 1;
    while i >= 1
        invariant
            k == kept_files(max_files as nat),
            plan == rotation_plan_spec(base@, max_files as nat),
            i < k,
            r@.len() == k - i,
            forall|j: int| 0 <= j < r@.len() ==> #[trigger] r@[j]@ == plan[j],
        decreases i,
    {
        r.push(RotationStep::RenameIfExists { from: rotated_name(base, i), to: rotated_name(base, i + 1) });
        proof {
            let j = (k - i) as int;
            assert(plan[j] == RotationStepView::RenameIfExists {
                from: rotated_log_name(base@, (k - 1 - (j - 1)) as nat),
                to: rotated_log_name(base@, (k - (j - 1)) as nat),
            });
        }
        i = i - 1;
    }
    r.push(RotationStep::Rename { from: current_name(base), to: rotated_name(base, 1) });
    assert(r@.map_values(|s: RotationStep| s@) =~= plan);
    r
}

} // verus!
