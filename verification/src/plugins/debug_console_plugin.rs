//! The in-game debug console: its log, command history, completion and commands.

use crate::numfmt::{digit_char, digit_char_of};
use crate::text::{chars_of, join_words, join_words_from, split_words, string_from_chars, to_owned_string, words};
use std::collections::VecDeque;
use vstd::prelude::*;
use vstd::string::StringExecFns;

verus! {

/// Level of a console log line.
#[derive(Clone, Copy, Debug, PartialEq, Eq)]
pub enum LogLevel {
    /// Debugging detail.
    Debug,
    /// Information.
    Info,
    /// Warning.
    Warn,
    /// Error.
    Error,
}

/// Priority used by the level filter: `Debug` is 0, `Error` is 3.
pub open spec fn priority_of(l: LogLevel) -> u8 {
    match l {
        LogLevel::Debug => 0,
        LogLevel::Info => 1,
        LogLevel::Warn => 2,
        LogLevel::Error => 3,
    }
}

/// The label shown for a level.
pub open spec fn label_of(l: LogLevel) -> Seq<char> {
    match l {
        LogLevel::Debug => "DEBUG"@,
        LogLevel::Info => "INFO"@,
        LogLevel::Warn => "WARN"@,
        LogLevel::Error => "ERROR"@,
    }
}

impl LogLevel {
    /// Priority used by the level filter: `Debug` is 0, `Error` is 3.
    pub fn priority(self) -> (r: u8)
        ensures
            r == priority_of(self),
    {
        match self {
            LogLevel::Debug => 0,
            LogLevel::Info => 1,
            LogLevel::Warn => 2,
            LogLevel::Error => 3,
        }
    }

    /// The colour of a message at this level, as red, green and blue.
    pub fn text_rgb(self) -> (r: (u8, u8, u8))
        ensures
            r == (match self {
                LogLevel::Debug => (160u8, 160u8, 160u8),
                LogLevel::Info => (200u8, 200u8, 200u8),
                LogLevel::Warn => (255u8, 200u8, 80u8),
                LogLevel::Error => (255u8, 90u8, 90u8),
            }),
    {
        match self {
            LogLevel::Debug => (160, 160, 160),
            LogLevel::Info => (200, 200, 200),
            LogLevel::Warn => (255, 200, 80),
            LogLevel::Error => (255, 90, 90),
        }
    }

    /// The background colour of the level's badge, as red, green and blue.
    pub fn badge_rgb(self) -> (r: (u8, u8, u8))
        ensures
            r == (match self {
                LogLevel::Debug => (80u8, 80u8, 100u8),
                LogLevel::Info => (60u8, 100u8, 140u8),
                LogLevel::Warn => (140u8, 110u8, 40u8),
                LogLevel::Error => (140u8, 50u8, 50u8),
            }),
    {
        match self {
            LogLevel::Debug => (80, 80, 100),
            LogLevel::Info => (60, 100, 140),
            LogLevel::Warn => (140, 110, 40),
            LogLevel::Error => (140, 50, 50),
        }
    }

    /// The label shown for the level.
    pub fn label(self) -> (r: &'static str)
        ensures
            r@ == label_of(self),
    {
        match self {
            LogLevel::Debug => "DEBUG",
            LogLevel::Info => "INFO",
            LogLevel::Warn => "WARN",
            LogLevel::Error => "ERROR",
        }
    }
}

impl Default for LogLevel {
    fn default() -> (r: Self)
        ensures
            r == LogLevel::Debug,
    {
        LogLevel::Debug
    }
}

/// One console log line.
#[derive(Clone, Debug)]
pub struct LogEntry {
    /// Its level.
    pub level: LogLevel,
    /// The message.
    pub message: String,
    /// When it was logged, in whole seconds since the Unix epoch.
    pub timestamp: u64,
}

impl View for LogEntry {
    type V = (LogLevel, Seq<char>, u64);

    open spec fn view(&self) -> (LogLevel, Seq<char>, u64) {
        (self.level, self.message@, self.timestamp)
    }
}

/// What the game must do after a console command.
#[derive(Clone, Debug)]
pub enum ConsoleAction {
    /// Nothing.
    Nothing,
    /// Run this Lua code and report the result with `report_lua_result`.
    RunLua(String),
    /// Reload the main script and report with `report_reload_result`.
    ReloadScript,
    /// Open the scene editor.
    OpenEditor,
    /// Quit the game.
    Quit,
}

/// A [`ConsoleAction`] with its code seen as a character sequence.
pub ghost enum ConsoleActionView {
    Nothing,
    RunLua(Seq<char>),
    ReloadScript,
    OpenEditor,
    Quit,
}

impl View for ConsoleAction {
    type V = ConsoleActionView;

    open spec fn view(&self) -> ConsoleActionView {
        match self {
            ConsoleAction::Nothing => ConsoleActionView::Nothing,
            ConsoleAction::RunLua(c) => ConsoleActionView::RunLua(c@),
            ConsoleAction::ReloadScript => ConsoleActionView::ReloadScript,
            ConsoleAction::OpenEditor => ConsoleActionView::OpenEditor,
            ConsoleAction::Quit => ConsoleActionView::Quit,
        }
    }
}

/// The lines and effects a command produces.
pub ghost struct CommandResponse {
    /// Lines logged after the echo of the command.
    pub lines: Seq<(LogLevel, Seq<char>)>,
    /// What the game must do.
    pub action: ConsoleActionView,
    /// Whether the log is cleared.
    pub clear: bool,
    /// Whether the entity viewer is opened.
    pub open_viewer: bool,
}

/// The commands the console knows, in the order completion tries them.
pub open spec fn known_commands() -> Seq<Seq<char>> {
    seq!["help"@, "clear"@, "lua"@, "reload"@, "fps"@, "entities"@, "editor"@, "quit"@, "exit"@]
}

/// The lines of the `help` command.
pub open spec fn help_lines() -> Seq<Seq<char>> {
    seq![
        "可用命令:"@,
        "  help - 显示帮助"@,
        "  clear - 清除日志"@,
        "  lua <code> - 执行Lua代码"@,
        "  reload - 重载Lua脚本"@,
        "  fps - 显示FPS"@,
        "  entities - 打开实体查看器"@,
        "  editor - 打开场景编辑器"@,
        "  quit - 退出游戏"@,
    ]
}

/// The response to a command split into the words `ws`.
pub open spec fn command_response(ws: Seq<Seq<char>>) -> CommandResponse {
    let none = CommandResponse {
        lines: Seq::empty(),
        action: ConsoleActionView::Nothing,
        clear: false,
        open_viewer: false,
    };
    if ws.len() == 0 {
        none
    } else {
        let w = ws[0];
        if w == "help"@ {
            CommandResponse {
                lines: help_lines().map_values(|l: Seq<char>| (LogLevel::Info, l)),
                ..none
            }
        } else if w == "clear"@ {
            CommandResponse { clear: true, ..none }
        } else if w == "lua"@ {
            let code = join_words(ws.skip(1));
            if code.len() == 0 {
                CommandResponse { lines: seq![(LogLevel::Warn, "用法: lua <代码>"@)], ..none }
            } else {
                CommandResponse { action: ConsoleActionView::RunLua(code), ..none }
            }
        } else if w == "reload"@ {
            CommandResponse { action: ConsoleActionView::ReloadScript, ..none }
        } else if w == "fps"@ {
            CommandResponse { lines: seq![(LogLevel::Info, "查看右上角性能面板"@)], ..none }
        } else if w == "entities"@ {
            CommandResponse {
                lines: seq![(LogLevel::Info, "实体查看器已打开"@)],
                open_viewer: true,
                ..none
            }
        } else if w == "editor"@ {
            CommandResponse {
                lines: seq![(LogLevel::Info, "场景编辑器已打开（在性能面板下方）"@)],
                action: ConsoleActionView::OpenEditor,
                ..none
            }
        } else if w == "quit"@ || w == "exit"@ {
            CommandResponse {
                lines: seq![(LogLevel::Info, "正在退出..."@)],
                action: ConsoleActionView::Quit,
                ..none
            }
        } else {
            CommandResponse { lines: seq![(LogLevel::Warn, "未知命令: "@ + w)], ..none }
        }
    }
}

/// The log after appending `line`: the oldest line is dropped when that makes more than
/// `max` lines.
pub open spec fn append_line(log: Seq<(LogLevel, Seq<char>, u64)>, max: nat, line: (LogLevel, Seq<char>, u64)) -> Seq<(LogLevel, Seq<char>, u64)> {
    let p = log.push(line);
    if p.len() > max {
        p.drop_first()
    } else {
        p
    }
}

/// The log after appending `lines` in order, all stamped `t`.
pub open spec fn append_lines(log: Seq<(LogLevel, Seq<char>, u64)>, max: nat, lines: Seq<(LogLevel, Seq<char>)>, t: u64) -> Seq<(LogLevel, Seq<char>, u64)>
    decreases lines.len(),
{
    if lines.len() == 0 {
        log
    } else {
        append_lines(append_line(log, max, (lines[0].0, lines[0].1, t)), max, lines.drop_first(), t)
    }
}

/// Whether `p` is a prefix of `s`.
pub open spec fn is_prefix(p: Seq<char>, s: Seq<char>) -> bool {
    p.len() <= s.len() && s.take(p.len() as int) == p
}

/// The two decimal digits of `n < 100`.
pub open spec fn two_digits(n: int) -> Seq<char> {
    seq![digit_char_of(n / 10), digit_char_of(n % 10)]
}

/// `HH:MM:SS` of the time of day, for a time in seconds since the Unix epoch.
pub open spec fn hhmmss(secs: u64) -> Seq<char> {
    two_digits(((secs / 3600) % 24) as int) + seq![':'] + two_digits(((secs / 60) % 60) as int)
        + seq![':'] + two_digits((secs % 60) as int)
}

/// `q` with `x` appended, the oldest value dropped when that makes more than `max`.
pub open spec fn pushed_bounded<T>(q: Seq<T>, max: nat, x: T) -> Seq<T> {
    if q.len() + 1 > max {
        q.push(x).drop_first()
    } else {
        q.push(x)
    }
}

/// Appends `value` to a history of samples (such as frame rates) that keeps at most `max`
/// of them; when that makes more than `max`, the oldest is dropped.
pub fn push_sample<T>(history: &mut VecDeque<T>, value: T, max: usize)
    ensures
        final(history)@ == pushed_bounded(old(history)@, max as nat, value),
{
    history.push_back(value);
    if history.len() > max {
        let _ = history.pop_front();
    }
}

/// The console level of a log level: trace and debug both show as `Debug`.
pub open spec fn console_level_of(level: crate::plugins::log_plugin::LogLevel) -> LogLevel {
    match level {
        crate::plugins::log_plugin::LogLevel::Error => LogLevel::Error,
        crate::plugins::log_plugin::LogLevel::Warn => LogLevel::Warn,
        crate::plugins::log_plugin::LogLevel::Info => LogLevel::Info,
        _ => LogLevel::Debug,
    }
}

/// The level a logged event shows with in the console.
pub fn console_level(level: crate::plugins::log_plugin::LogLevel) -> (r: LogLevel)
    ensures
        r == console_level_of(level),
{
    match level {
        crate::plugins::log_plugin::LogLevel::Error => LogLevel::Error,
        crate::plugins::log_plugin::LogLevel::Warn => LogLevel::Warn,
        crate::plugins::log_plugin::LogLevel::Info => LogLevel::Info,
        _ => LogLevel::Debug,
    }
}

/// The console message of a logged event: its recorded message, or the event's name when
/// it recorded none.
pub fn event_message(recorded: String, event_name: &str) -> (r: String)
    ensures
        r@ == (if recorded@.len() == 0 {
            event_name@
        } else {
            recorded@
        }),
{
    if recorded.as_str().is_empty() {
        to_owned_string(event_name)
    } else {
        recorded
    }
}

/// The state of the debug console.
pub struct DebugConsoleState {
    /// Whether the console is shown.
    pub visible: bool,
    /// The command being typed.
    pub input_buffer: String,
    /// Commands run, oldest first.
    pub history: Vec<String>,
    /// Position in the history while browsing it, if browsing.
    pub history_index: Option<usize>,
    /// The typed text kept while browsing the history.
    pub draft_input: String,
    /// Log lines, oldest first.
    pub logs: VecDeque<LogEntry>,
    /// The number of lines beyond which the oldest is dropped.
    pub max_logs: usize,
    /// Whether the log view follows new lines.
    pub auto_scroll: bool,
    /// The least level shown.
    pub filter_level: LogLevel,
    /// Whether the entity viewer is shown.
    pub show_entity_viewer: bool,
    /// Filter text of the entity viewer.
    pub entity_filter: String,
    /// Entity selected in the viewer (its bits).
    pub selected_entity: Option<u64>,
}

impl DebugConsoleState {
    /// The log lines as plain values.
    pub open spec fn lines(&self) -> Seq<(LogLevel, Seq<char>, u64)> {
        self.logs@.map_values(|e: LogEntry| e@)
    }

    /// Whether `self` and `other` agree on everything but the log.
    pub open spec fn same_but_logs(&self, other: &Self) -> bool {
        &&& self.visible == other.visible
        &&& self.input_buffer@ == other.input_buffer@
        &&& self.history@.map_values(|s: String| s@) == other.history@.map_values(|s: String| s@)
        &&& self.history_index == other.history_index
        &&& self.draft_input@ == other.draft_input@
        &&& self.max_logs == other.max_logs
        &&& self.auto_scroll == other.auto_scroll
        &&& self.filter_level == other.filter_level
        &&& self.show_entity_viewer == other.show_entity_viewer
        &&& self.entity_filter@ == other.entity_filter@
        &&& self.selected_entity == other.selected_entity
    }

    /// Whether `self` and `other` agree on the console's settings and the entity viewer's
    /// state: visibility, the log limit, scrolling, the level filter, and the viewer's
    /// filter text and selection.
    pub open spec fn same_settings(&self, other: &Self) -> bool {
        &&& self.visible == other.visible
        &&& self.max_logs == other.max_logs
        &&& self.auto_scroll == other.auto_scroll
        &&& self.filter_level == other.filter_level
        &&& self.entity_filter@ == other.entity_filter@
        &&& self.selected_entity == other.selected_entity
    }
}

impl Default for DebugConsoleState {
    fn default() -> (r: Self)
        ensures
            !r.visible,
            r.input_buffer@.len() == 0,
            r.history@.len() == 0,
            r.history_index is None,
            r.draft_input@.len() == 0,
            r.logs@.len() == 0,
            r.max_logs == 0,
            !r.auto_scroll,
            r.filter_level == LogLevel::Debug,
            !r.show_entity_viewer,
            r.entity_filter@.len() == 0,
            r.selected_entity is None,
    {
        DebugConsoleState {
            visible: false,
            input_buffer: String::new(),
            history: Vec::new(),
            history_index: None,
            draft_input: String::new(),
            logs: VecDeque::new(),
            max_logs: 0,
            auto_scroll: false,
            filter_level: LogLevel::Debug,
            show_entity_viewer: false,
            entity_filter: String::new(),
            selected_entity: None,
        }
    }
}

/// `std::time::SystemTime::now`, as whole seconds since the Unix epoch (zero before it).
/// The wall clock decides the value, so nothing is stated of it.
#[verifier::external_body]
fn now_secs() -> (r: u64) {
    let since = std::time::SystemTime::now().duration_since(std::time::UNIX_EPOCH);
    since.unwrap_or_default().as_secs()
}

/// Formats a time in seconds since the Unix epoch as `HH:MM:SS` (UTC time of day).
pub fn timestamp_to_hhmmss(secs: u64) -> (r: String)
    ensures
        r@ == hhmmss(secs),
{
    let h = (secs / 3600) % 24;
    let m = (secs / 60) % 60;
    let s = secs % 60;
    let mut v: Vec<char> = Vec::new();
    v.push(digit_char(h / 10));
    v.push(digit_char(h % 10));
    v.push(':');
    v.push(digit_char(m / 10));
    v.push(digit_char(m % 10));
    v.push(':');
    v.push(digit_char(s / 10));
    v.push(digit_char(s % 10));
    assert(v@ =~= hhmmss(secs));
    string_from_chars(v.as_slice())
}


/// Whether the characters `w` spell the string literal `lit`.
fn word_is(w: &Vec<char>, lit: &str) -> (r: bool)
    ensures
        r == (w@ == lit@),
{
    let l = chars_of(lit);
    if w.len() != l.len() {
        return false;
    }
    let mut i: usize = 0;
    while i < w.len()
        invariant
            w@.len() == l@.len(),
            l@ == lit@,
            i <= w@.len(),
            forall|j: int| 0 <= j < i ==> w@[j] == l@[j],
        decreases w@.len() - i,
    {
        if w[i] != l[i] {
            return false;
        }
        i = i + 1;
    }
    assert(w@ =~= lit@);
    true
}

fn line(level: LogLevel, text: &str) -> (r: (LogLevel, String))
    ensures
        r.0 == level,
        r.1@ == text@,
{
    (level, to_owned_string(text))
}

/// The lines as plain values.
pub open spec fn line_views(v: Seq<(LogLevel, String)>) -> Seq<(LogLevel, Seq<char>)> {
    v.map_values(|l: (LogLevel, String)| (l.0, l.1@))
}

/// The response to a command split into `ws`, as in [`command_response`].
fn respond(ws: &Vec<Vec<char>>) -> (r: (Vec<(LogLevel, String)>, ConsoleAction, bool, bool))
    ensures
        ({
            let resp = command_response(ws@.map_values(|w: Vec<char>| w@));
            &&& line_views(r.0@) == resp.lines
            &&& r.1@ == resp.action
            &&& r.2 == resp.clear
            &&& r.3 == resp.open_viewer
        }),
{
    let ghost wv = ws@.map_values(|w: Vec<char>| w@);
    let mut lines: Vec<(LogLevel, String)> = Vec::new();
    if ws.len() == 0 {
        assert(line_views(lines@) =~= Seq::<(LogLevel, Seq<char>)>::empty());
        return (lines, ConsoleAction::Nothing, false, false);
    }
    let w = &ws[0];
    assert(wv[0] == w@);
    if word_is(w, "help") {
        lines.push(line(LogLevel::Info, "可用命令:"));
        lines.push(line(LogLevel::Info, "  help - 显示帮助"));
        lines.push(line(LogLevel::Info, "  clear - 清除日志"));
        lines.push(line(LogLevel::Info, "  lua <code> - 执行Lua代码"));
        lines.push(line(LogLevel::Info, "  reload - 重载Lua脚本"));
        lines.push(line(LogLevel::Info, "  fps - 显示FPS"));
        lines.push(line(LogLevel::Info, "  entities - 打开实体查看器"));
        lines.push(line(LogLevel::Info, "  editor - 打开场景编辑器"));
        lines.push(line(LogLevel::Info, "  quit - 退出游戏"));
        assert(line_views(lines@) =~= help_lines().map_values(|l: Seq<char>| (LogLevel::Info, l)));
        return (lines, ConsoleAction::Nothing, false, false);
    }
    if word_is(w, "clear") {
        assert(line_views(lines@) =~= Seq::<(LogLevel, Seq<char>)>::empty());
        return (lines, ConsoleAction::Nothing, true, false);
    }
    if word_is(w, "lua") {
        let code = join_words_from(ws, 1);
        if code.len() == 0 {
            lines.push(line(LogLevel::Warn, "用法: lua <代码>"));
            assert(line_views(lines@) =~= seq![(LogLevel::Warn, "用法: lua <代码>"@)]);
            return (lines, ConsoleAction::Nothing, false, false);
        }
        assert(line_views(lines@) =~= Seq::<(LogLevel, Seq<char>)>::empty());
        return (lines, ConsoleAction::RunLua(string_from_chars(code.as_slice())), false, false);
    }
    if word_is(w, "reload") {
        assert(line_views(lines@) =~= Seq::<(LogLevel, Seq<char>)>::empty());
        return (lines, ConsoleAction::ReloadScript, false, false);
    }
    if word_is(w, "fps") {
        lines.push(line(LogLevel::Info, "查看右上角性能面板"));
        assert(line_views(lines@) =~= seq![(LogLevel::Info, "查看右上角性能面板"@)]);
        return (lines, ConsoleAction::Nothing, false, false);
    }
    if word_is(w, "entities") {
        lines.push(line(LogLevel::Info, "实体查看器已打开"));
        assert(line_views(lines@) =~= seq![(LogLevel::Info, "实体查看器已打开"@)]);
        return (lines, ConsoleAction::Nothing, false, true);
    }
    if word_is(w, "editor") {
        lines.push(line(LogLevel::Info, "场景编辑器已打开（在性能面板下方）"));
        assert(line_views(lines@) =~= seq![(LogLevel::Info, "场景编辑器已打开（在性能面板下方）"@)]);
        return (lines, ConsoleAction::OpenEditor, false, false);
    }
    if word_is(w, "quit") || word_is(w, "exit") {
        lines.push(line(LogLevel::Info, "正在退出..."));
        assert(line_views(lines@) =~= seq![(LogLevel::Info, "正在退出..."@)]);
        return (lines, ConsoleAction::Quit, false, false);
    }
    let mut msg = to_owned_string("未知命令: ");
    let word = string_from_chars(w.as_slice());
    msg.append(word.as_str());
    lines.push((LogLevel::Warn, msg));
    assert(line_views(lines@) =~= seq![(LogLevel::Warn, "未知命令: "@ + w@)]);
    (lines, ConsoleAction::Nothing, false, false)
}

impl DebugConsoleState {
    /// Appends a line stamped `timestamp`; when that makes more than `max_logs` lines, the
    /// oldest is dropped.
    pub fn add_log_at(&mut self, level: LogLevel, message: String, timestamp: u64)
        ensures
            final(self).lines() == append_line(
                old(self).lines(),
                old(self).max_logs as nat,
                (level, message@, timestamp),
            ),
            final(self).same_but_logs(old(self)),
    {
        let ghost l0 = self.lines();
        let e = LogEntry { level, message, timestamp };
        self.logs.push_back(e);
        proof {
            assert(self.lines() =~= l0.push(e@));
        }
        if self.logs.len() > self.max_logs {
            let _ = self.logs.pop_front();
            proof {
                assert(self.lines() =~= l0.push(e@).drop_first());
            }
        }
    }

    /// Appends a line stamped with the current time, as [`DebugConsoleState::add_log_at`].
    pub fn add_log(&mut self, level: LogLevel, message: String)
        ensures
            exists|t: u64| #[trigger] append_line(old(self).lines(), old(self).max_logs as nat, (level, message@, t))
                == final(self).lines(),
            final(self).same_but_logs(old(self)),
    {
        let t = now_secs();
        self.add_log_at(level, message, t);
    }

    /// Appends `lines` in order, all stamped `t`.
    fn add_lines_at(&mut self, lines: Vec<(LogLevel, String)>, t: u64)
        ensures
            final(self).lines() == append_lines(old(self).lines(), old(self).max_logs as nat, line_views(lines@), t),
            final(self).same_but_logs(old(self)),
    {
        let ghost all = line_views(lines@);
        let ghost l0 = self.lines();
        let mut rest = lines;
        let ghost mut done: int = 0;
        let ghost n = all.len();
        proof {
            assert(all.skip(0) =~= all);
        }
        while rest.len() > 0
            invariant
                n == all.len(),
                0 <= done,
                done + rest@.len() == n,
                line_views(rest@) == all.skip(done),
                append_lines(l0, self.max_logs as nat, all, t) == append_lines(
                    self.lines(),
                    self.max_logs as nat,
                    line_views(rest@),
                    t,
                ),
                self.same_but_logs(old(self)),
            decreases rest@.len(),
        {
            let ghost rv = line_views(rest@);
            let (level, message) = rest.remove(0);
            proof {
                assert(line_views(rest@) =~= rv.drop_first());
                assert(rv[0] == (level, message@));
            }
            self.add_log_at(level, message, t);
            proof {
                assert(all.skip(done + 1) =~= all.skip(done).drop_first());
                done = done + 1;
            }
        }
    }

    /// The lines shown under the level filter: those at `filter_level` or above, oldest first.
    pub fn visible_logs(&self) -> (r: Vec<&LogEntry>)
        ensures
            r@.map_values(|e: &LogEntry| e@) == self.lines().filter(
                |l: (LogLevel, Seq<char>, u64)| priority_of(l.0) >= priority_of(self.filter_level),
            ),
    {
        let ghost f = |l: (LogLevel, Seq<char>, u64)| priority_of(l.0) >= priority_of(self.filter_level);
        let mut r: Vec<&LogEntry> = Vec::new();
        let mut i: usize = 0;
        while i < self.logs.len()
            invariant
                i <= self.logs@.len(),
                f == (|l: (LogLevel, Seq<char>, u64)| priority_of(l.0) >= priority_of(self.filter_level)),
                r@.map_values(|e: &LogEntry| e@) == self.lines().take(i as int).filter(f),
            decreases self.logs@.len() - i,
        {
            let ghost s1 = self.lines().take(i + 1);
            proof {
                assert(s1.drop_last() =~= self.lines().take(i as int));
                assert(s1.last() == self.logs@[i as int]@);
                reveal_with_fuel(Seq::filter, 1);
                assert(s1.filter(f) == if f(s1.last()) {
                    self.lines().take(i as int).filter(f).push(s1.last())
                } else {
                    self.lines().take(i as int).filter(f)
                });
            }
            let e = &self.logs[i];
            if e.level.priority() >= self.filter_level.priority() {
                let ghost prev = r@;
                r.push(e);
                proof {
                    assert(r@.map_values(|e: &LogEntry| e@) =~= prev.map_values(|e: &LogEntry| e@).push(e@));
                }
            }
            i = i + 1;
        }
        proof {
            assert(self.lines().take(self.logs@.len() as int) =~= self.lines());
        }
        r
    }

    /// Shows or hides the console.
    pub fn toggle_visible(&mut self)
        ensures
            final(self).visible == !old(self).visible,
            final(self).lines() == old(self).lines(),
            final(self).input_buffer@ == old(self).input_buffer@,
            final(self).history_view() == old(self).history_view(),
            final(self).history_index == old(self).history_index,
            final(self).draft_input@ == old(self).draft_input@,
            final(self).max_logs == old(self).max_logs,
            final(self).auto_scroll == old(self).auto_scroll,
            final(self).filter_level == old(self).filter_level,
            final(self).show_entity_viewer == old(self).show_entity_viewer,
            final(self).entity_filter@ == old(self).entity_filter@,
            final(self).selected_entity == old(self).selected_entity,
    {
        self.visible = !self.visible;
    }

    /// The console's start-up settings: 200 lines kept, following new lines, showing
    /// `Info` and above.
    pub fn setup(&mut self)
        ensures
            final(self).max_logs == 200,
            final(self).auto_scroll,
            final(self).filter_level == LogLevel::Info,
            final(self).lines() == old(self).lines(),
            final(self).visible == old(self).visible,
    {
        self.max_logs = 200;
        self.auto_scroll = true;
        self.filter_level = LogLevel::Info;
    }

    /// Completes the typed text to the first known command it begins, if any.
    pub fn tab_complete(&mut self)
        ensures
            final(self).input_buffer@ == completed_input(old(self).input_buffer@),
            final(self).lines() == old(self).lines(),
            final(self).history_view() == old(self).history_view(),
            final(self).history_index == old(self).history_index,
            final(self).draft_input@ == old(self).draft_input@,
            final(self).show_entity_viewer == old(self).show_entity_viewer,
            final(self).same_settings(old(self)),
    {
        if self.input_buffer.as_str().is_empty() {
            return;
        }
        let input = chars_of(self.input_buffer.as_str());
        let known = known_command_list();
        let mut i: usize = 0;
        while i < known.len()
            invariant
                input@ == self.input_buffer@,
                self.input_buffer@ == old(self).input_buffer@,
                self.input_buffer@.len() > 0,
                self.lines() == old(self).lines(),
                self.history_index == old(self).history_index,
                self.draft_input@ == old(self).draft_input@,
                self.history_view() == old(self).history_view(),
                self.show_entity_viewer == old(self).show_entity_viewer,
                self.same_settings(old(self)),
                known@.map_values(|s: &'static str| s@) == known_commands(),
                i <= known@.len(),
                first_completion(input@, 0) == first_completion(input@, i as int),
            decreases known@.len() - i,
        {
            assert(known@.map_values(|s: &'static str| s@)[i as int] == known@[i as int]@);
            let cmd = chars_of(known[i]);
            if starts_with(&cmd, &input) {
                self.input_buffer = to_owned_string(known[i]);
                return;
            }
            i = i + 1;
        }
    }
}

/// Index of the first known command, from position `i` on, that `input` begins.
pub open spec fn first_completion(input: Seq<char>, i: int) -> Option<int>
    decreases known_commands().len() - i,
{
    if i < 0 || i >= known_commands().len() {
        None
    } else if is_prefix(input, known_commands()[i]) {
        Some(i)
    } else {
        first_completion(input, i + 1)
    }
}

/// The typed text after completion: the first known command it begins, when it is not
/// empty and there is one; otherwise unchanged.
pub open spec fn completed_input(input: Seq<char>) -> Seq<char> {
    if input.len() > 0 {
        match first_completion(input, 0) {
            Some(i) => known_commands()[i],
            None => input,
        }
    } else {
        input
    }
}

/// No known command begins with a later one.
proof fn lemma_commands_prefix_free(i: int, j: int)
    requires
        0 <= j < i < known_commands().len(),
    ensures
        !is_prefix(known_commands()[i], known_commands()[j]),
{
    reveal_strlit("help");
    reveal_strlit("clear");
    reveal_strlit("lua");
    reveal_strlit("reload");
    reveal_strlit("fps");
    reveal_strlit("entities");
    reveal_strlit("editor");
    reveal_strlit("quit");
    reveal_strlit("exit");
    let k = known_commands();
    if is_prefix(k[i], k[j]) {
        assert(k[j].take(k[i].len() as int)[0] == k[i][0]);
        if k[i].len() > 1 {
            assert(k[j].take(k[i].len() as int)[1] == k[i][1]);
        }
    }
}

/// The first completion from position `i` on, when the command at `i` itself begins with
/// `input` and no earlier command from `i` on does.
proof fn lemma_first_completion_from(input: Seq<char>, i: int, target: int)
    requires
        0 <= i <= target < known_commands().len(),
        is_prefix(input, known_commands()[target]),
        forall|j: int| i <= j < target ==> !is_prefix(input, #[trigger] known_commands()[j]),
    ensures
        first_completion(input, i) == Some(target),
    decreases target - i,
{
    if i < target {
        lemma_first_completion_from(input, i + 1, target);
    }
}

proof fn lemma_first_completion_found(input: Seq<char>, i: int)
    requires
        0 <= i,
    ensures
        first_completion(input, i) matches Some(t) ==> i <= t < known_commands().len() && is_prefix(
            input,
            known_commands()[t],
        ),
    decreases known_commands().len() - i,
{
    if i < known_commands().len() && !is_prefix(input, known_commands()[i]) {
        lemma_first_completion_found(input, i + 1);
    }
}

/// Completing twice gives what completing once gives: a completed command completes to
/// itself.
pub proof fn law_completion_is_idempotent(input: Seq<char>)
    ensures
        completed_input(completed_input(input)) == completed_input(input),
{
    lemma_first_completion_found(input, 0);
    if input.len() > 0 {
        match first_completion(input, 0) {
            Some(t) => {
                let c = known_commands()[t];
                assert forall|j: int| 0 <= j < t implies !is_prefix(c, #[trigger] known_commands()[j]) by {
                    lemma_commands_prefix_free(t, j);
                }
                assert(c.take(c.len() as int) =~= c);
                lemma_first_completion_from(c, 0, t);
                reveal_strlit("help");
                reveal_strlit("clear");
                reveal_strlit("lua");
                reveal_strlit("reload");
                reveal_strlit("fps");
                reveal_strlit("entities");
                reveal_strlit("editor");
                reveal_strlit("quit");
                reveal_strlit("exit");
                assert(c.len() > 0);
            },
            None => {},
        }
    }
}

/// The known commands, in completion order.
fn known_command_list() -> (v: Vec<&'static str>)
    ensures
        v@.map_values(|s: &'static str| s@) == known_commands(),
{
    let v = vec!["help", "clear", "lua", "reload", "fps", "entities", "editor", "quit", "exit"];
    assert(v@.map_values(|s: &'static str| s@) =~= known_commands());
    v
}

/// Whether `s` begins with `p`.
fn starts_with(s: &Vec<char>, p: &Vec<char>) -> (r: bool)
    ensures
        r == is_prefix(p@, s@),
{
    if p.len() > s.len() {
        return false;
    }
    let mut i: usize = 0;
    while i < p.len()
        invariant
            p@.len() <= s@.len(),
            i <= p@.len(),
            forall|j: int| 0 <= j < i ==> s@[j] == p@[j],
        decreases p@.len() - i,
    {
        if s[i] != p[i] {
            return false;
        }
        i = i + 1;
    }
    assert(s@.take(p@.len() as int) =~= p@);
    true
}


/// The log after running `command` at time `t`: the echo `> command`, then the command's
/// lines, or nothing at all when the command clears the log.
pub open spec fn log_after_command(log: Seq<(LogLevel, Seq<char>, u64)>, max: nat, command: Seq<char>, t: u64) -> Seq<(LogLevel, Seq<char>, u64)> {
    let resp = command_response(words(command));
    if resp.clear {
        Seq::empty()
    } else {
        append_lines(append_line(log, max, (LogLevel::Info, "> "@ + command, t)), max, resp.lines, t)
    }
}

/// The line logged for the result of a Lua command.
pub open spec fn lua_result_line(result: Result<Seq<char>, Seq<char>>) -> (LogLevel, Seq<char>) {
    match result {
        Ok(v) => if v == "nil"@ {
            (LogLevel::Info, "执行成功 (无返回值)"@)
        } else {
            (LogLevel::Info, "<= "@ + v)
        },
        Err(e) => (LogLevel::Error, "Error: "@ + e),
    }
}

/// The line logged for the result of reloading the main script.
pub open spec fn reload_result_line(result: Result<(), Seq<char>>) -> (LogLevel, Seq<char>) {
    match result {
        Ok(()) => (LogLevel::Info, "Lua脚本重载成功"@),
        Err(e) => (LogLevel::Error, "重载失败: "@ + e),
    }
}

/// A result with text on both sides, taken by its view.
pub open spec fn text_result(result: Result<String, String>) -> Result<Seq<char>, Seq<char>> {
    match result {
        Ok(v) => Ok(v@),
        Err(e) => Err(e@),
    }
}

/// A result with text on the error side, taken by its view.
pub open spec fn unit_result(result: Result<(), String>) -> Result<(), Seq<char>> {
    match result {
        Ok(()) => Ok(()),
        Err(e) => Err(e@),
    }
}

/// The logged line, stamped `t`, for the result of a Lua command.
pub open spec fn lua_line_at(result: Result<Seq<char>, Seq<char>>, t: u64) -> (LogLevel, Seq<char>, u64) {
    (lua_result_line(result).0, lua_result_line(result).1, t)
}

/// The logged line, stamped `t`, for the result of reloading the main script.
pub open spec fn reload_line_at(result: Result<(), Seq<char>>, t: u64) -> (LogLevel, Seq<char>, u64) {
    (reload_result_line(result).0, reload_result_line(result).1, t)
}

impl DebugConsoleState {
    /// Runs a console command at time `now`: logs `> command`, then acts on its first word
    /// (`help`, `clear`, `lua <code>`, `reload`, `fps`, `entities`, `editor`, `quit` or
    /// `exit`; anything else is reported as unknown). Work outside the console is returned
    /// as an action.
    pub fn execute_command_at(&mut self, command: &str, now: u64) -> (action: ConsoleAction)
        ensures
            final(self).lines() == log_after_command(old(self).lines(), old(self).max_logs as nat, command@, now),
            action@ == command_response(words(command@)).action,
            final(self).show_entity_viewer == (old(self).show_entity_viewer || command_response(
                words(command@),
            ).open_viewer),
            final(self).input_buffer@ == old(self).input_buffer@,
            final(self).history@.map_values(|s: String| s@) == old(self).history@.map_values(|s: String| s@),
            final(self).history_index == old(self).history_index,
            final(self).draft_input@ == old(self).draft_input@,
            final(self).same_settings(old(self)),
    {
        let mut echo = to_owned_string("> ");
        echo.append(command);
        self.add_log_at(LogLevel::Info, echo, now);
        let ws = split_words(command);
        let (lines, action, clear, open_viewer) = respond(&ws);
        if clear {
            self.logs.clear();
            assert(self.lines() =~= Seq::<(LogLevel, Seq<char>, u64)>::empty());
        } else {
            self.add_lines_at(lines, now);
        }
        if open_viewer {
            self.show_entity_viewer = true;
        }
        action
    }

    /// Runs a console command at the current time, as [`DebugConsoleState::execute_command_at`].
    pub fn execute_command(&mut self, command: &str) -> (action: ConsoleAction)
        ensures
            exists|t: u64| #[trigger] log_after_command(old(self).lines(), old(self).max_logs as nat, command@, t)
                == final(self).lines(),
            action@ == command_response(words(command@)).action,
            final(self).show_entity_viewer == (old(self).show_entity_viewer || command_response(
                words(command@),
            ).open_viewer),
            final(self).input_buffer@ == old(self).input_buffer@,
            final(self).history_view() == old(self).history_view(),
            final(self).history_index == old(self).history_index,
            final(self).draft_input@ == old(self).draft_input@,
            final(self).same_settings(old(self)),
    {
        let t = now_secs();
        self.execute_command_at(command, t)
    }

    /// Submits the typed command at time `now`: when it is not empty, it is run, appended to
    /// the history, and the input, the draft and the history position are cleared. An empty
    /// input does nothing.
    pub fn submit_at(&mut self, now: u64) -> (action: ConsoleAction)
        ensures
            old(self).input_buffer@.len() == 0 ==> action@ == ConsoleActionView::Nothing
                && final(self).lines() == old(self).lines() && final(self).history@.map_values(
                |s: String| s@,
            ) == old(self).history@.map_values(|s: String| s@) && final(self).input_buffer@ == old(
                self,
            ).input_buffer@ && final(self).history_index == old(self).history_index
                && final(self).draft_input@ == old(self).draft_input@ && final(self).show_entity_viewer
                == old(self).show_entity_viewer,
            final(self).same_settings(old(self)),
            old(self).input_buffer@.len() > 0 ==> ({
                let cmd = old(self).input_buffer@;
                &&& action@ == command_response(words(cmd)).action
                &&& final(self).show_entity_viewer == (old(self).show_entity_viewer
                    || command_response(words(cmd)).open_viewer)
                &&& final(self).lines() == log_after_command(old(self).lines(), old(self).max_logs as nat, cmd, now)
                &&& final(self).history@.map_values(|s: String| s@) == old(self).history@.map_values(
                    |s: String| s@,
                ).push(cmd)
                &&& final(self).input_buffer@.len() == 0
                &&& final(self).draft_input@.len() == 0
                &&& final(self).history_index is None
            }),
    {
        if self.input_buffer.as_str().is_empty() {
            return ConsoleAction::Nothing;
        }
        let command = self.input_buffer.clone();
        let action = self.execute_command_at(command.as_str(), now);
        let ghost h0 = self.history@.map_values(|s: String| s@);
        self.history.push(command);
        proof {
            assert(self.history@.map_values(|s: String| s@) =~= h0.push(old(self).input_buffer@));
        }
        self.input_buffer = String::new();
        self.draft_input = String::new();
        self.history_index = None;
        action
    }

    /// Submits the typed command at the current time, as [`DebugConsoleState::submit_at`].
    pub fn submit(&mut self) -> (action: ConsoleAction)
        ensures
            old(self).input_buffer@.len() == 0 ==> action@ == ConsoleActionView::Nothing
                && final(self).lines() == old(self).lines() && final(self).history_view() == old(
                self,
            ).history_view() && final(self).input_buffer@ == old(self).input_buffer@
                && final(self).history_index == old(self).history_index && final(self).draft_input@
                == old(self).draft_input@ && final(self).show_entity_viewer == old(self).show_entity_viewer,
            final(self).same_settings(old(self)),
            old(self).input_buffer@.len() > 0 ==> ({
                let cmd = old(self).input_buffer@;
                &&& action@ == command_response(words(cmd)).action
                &&& final(self).show_entity_viewer == (old(self).show_entity_viewer
                    || command_response(words(cmd)).open_viewer)
                &&& exists|t: u64| #[trigger] log_after_command(old(self).lines(), old(self).max_logs as nat, cmd, t)
                    == final(self).lines()
                &&& final(self).history_view() == old(self).history_view().push(cmd)
                &&& final(self).input_buffer@.len() == 0
                &&& final(self).draft_input@.len() == 0
                &&& final(self).history_index is None
            }),
    {
        let t = now_secs();
        self.submit_at(t)
    }

    /// Logs the result of a Lua command at time `now`.
    pub fn report_lua_result_at(&mut self, result: Result<String, String>, now: u64)
        ensures
            final(self).lines() == append_line(
                old(self).lines(),
                old(self).max_logs as nat,
                lua_line_at(text_result(result), now),
            ),
            final(self).same_but_logs(old(self)),
    {
        match result {
            Ok(v) => {
                if crate::text::str_eq(v.as_str(), "nil") {
                    self.add_log_at(LogLevel::Info, to_owned_string("执行成功 (无返回值)"), now);
                } else {
                    let mut m = to_owned_string("<= ");
                    m.append(v.as_str());
                    self.add_log_at(LogLevel::Info, m, now);
                }
            },
            Err(e) => {
                let mut m = to_owned_string("Error: ");
                m.append(e.as_str());
                self.add_log_at(LogLevel::Error, m, now);
            },
        }
    }

    /// Logs the result of a Lua command at the current time.
    pub fn report_lua_result(&mut self, result: Result<String, String>)
        ensures
            exists|t: u64| #[trigger] append_line(
                old(self).lines(),
                old(self).max_logs as nat,
                lua_line_at(text_result(result), t),
            ) == final(self).lines(),
            final(self).same_but_logs(old(self)),
    {
        let t = now_secs();
        self.report_lua_result_at(result, t);
    }

    /// Logs the result of reloading the main script at time `now`.
    pub fn report_reload_result_at(&mut self, result: Result<(), String>, now: u64)
        ensures
            final(self).lines() == append_line(
                old(self).lines(),
                old(self).max_logs as nat,
                reload_line_at(unit_result(result), now),
            ),
            final(self).same_but_logs(old(self)),
    {
        match result {
            Ok(()) => {
                self.add_log_at(LogLevel::Info, to_owned_string("Lua脚本重载成功"), now);
            },
            Err(e) => {
                let mut m = to_owned_string("重载失败: ");
                m.append(e.as_str());
                self.add_log_at(LogLevel::Error, m, now);
            },
        }
    }

    /// Logs the result of reloading the main script at the current time.
    pub fn report_reload_result(&mut self, result: Result<(), String>)
        ensures
            exists|t: u64| #[trigger] append_line(
                old(self).lines(),
                old(self).max_logs as nat,
                reload_line_at(unit_result(result), t),
            ) == final(self).lines(),
            final(self).same_but_logs(old(self)),
    {
        let t = now_secs();
        self.report_reload_result_at(result, t);
    }

    /// Moves one step back in the history: keeps the typed text, even an empty one, as the
    /// draft when browsing starts, then shows the previous command (the last one when
    /// browsing starts).
    pub fn history_up(&mut self)
        ensures
            final(self).browse() == browse_up(old(self).history_view(), old(self).browse()),
            final(self).history@ == old(self).history@,
            final(self).lines() == old(self).lines(),
            final(self).show_entity_viewer == old(self).show_entity_viewer,
            final(self).same_settings(old(self)),
    {
        if self.history_index.is_none() {
            self.draft_input = self.input_buffer.clone();
        }
        let max_idx = if self.history.len() == 0 { 0 } else { self.history.len() - 1 };
        let new_idx = match self.history_index {
            None => max_idx,
            Some(i) => if i == 0 { 0 } else { i - 1 },
        };
        if self.history.len() > 0 && new_idx < self.history.len() {
            self.history_index = Some(new_idx);
            self.input_buffer = self.history[new_idx].clone();
            assert(self.history_view()[new_idx as int] == self.history@[new_idx as int]@);
        }
    }

    /// Moves one step forward in the history: shows the next command, or, past the last one,
    /// stops browsing and restores the draft. Does nothing when not browsing.
    pub fn history_down(&mut self)
        ensures
            final(self).browse() == browse_down(old(self).history_view(), old(self).browse()),
            final(self).history@ == old(self).history@,
            final(self).lines() == old(self).lines(),
            final(self).show_entity_viewer == old(self).show_entity_viewer,
            final(self).same_settings(old(self)),
    {
        match self.history_index {
            Some(idx) => {
                if idx < self.history.len() && idx + 1 < self.history.len() {
                    self.history_index = Some(idx + 1);
                    self.input_buffer = self.history[idx + 1].clone();
                    assert(self.history_view()[idx + 1] == self.history@[idx + 1]@);
                } else {
                    self.history_index = None;
                    self.input_buffer = self.draft_input.clone();
                }
            },
            None => {},
        }
    }
}

/// Where history browsing stands: the position in the history, the typed text and the
/// draft kept while browsing.
pub ghost struct Browse {
    /// Position in the history, if browsing.
    pub index: Option<usize>,
    /// The typed text.
    pub input: Seq<char>,
    /// The kept draft.
    pub draft: Seq<char>,
}

impl DebugConsoleState {
    /// The history as plain text, oldest first.
    pub open spec fn history_view(&self) -> Seq<Seq<char>> {
        self.history@.map_values(|s: String| s@)
    }

    /// Where history browsing stands.
    pub open spec fn browse(&self) -> Browse {
        Browse { index: self.history_index, input: self.input_buffer@, draft: self.draft_input@ }
    }
}

/// One step back in the history `h`: the typed text is kept as the draft when browsing
/// starts; the previous command, or the last one when browsing starts, is shown; at the
/// first command browsing stays there.
pub open spec fn browse_up(h: Seq<Seq<char>>, b: Browse) -> Browse {
    let draft = if b.index is None {
        b.input
    } else {
        b.draft
    };
    let new_idx: int = match b.index {
        None => if h.len() == 0 {
            0
        } else {
            h.len() - 1
        },
        Some(i) => if i == 0 {
            0
        } else {
            i - 1
        },
    };
    if h.len() > 0 && new_idx < h.len() {
        Browse { index: Some(new_idx as usize), input: h[new_idx], draft }
    } else {
        Browse { index: b.index, input: b.input, draft }
    }
}

/// One step forward in the history `h`: the next command is shown, or, past the last one,
/// browsing stops and the draft comes back. Nothing changes when not browsing.
pub open spec fn browse_down(h: Seq<Seq<char>>, b: Browse) -> Browse {
    match b.index {
        None => b,
        Some(i) => if i + 1 < h.len() {
            Browse { index: Some((i + 1) as usize), input: h[i + 1], draft: b.draft }
        } else {
            Browse { index: None, input: b.draft, draft: b.draft }
        },
    }
}

/// Browsing one step back and one step forward from typed text leaves browsing and gives
/// the typed text back, whatever it is, an empty one included.
pub proof fn law_browse_back_and_forth(h: Seq<Seq<char>>, b: Browse)
    requires
        h.len() <= usize::MAX,
        b.index is None,
    ensures
        browse_down(h, browse_up(h, b)).index is None,
        browse_down(h, browse_up(h, b)).input == b.input,
{
}

/// Browsing back from the start of browsing shows the newest commands in turn, newest first.
pub proof fn law_browse_back_goes_newest_first(h: Seq<Seq<char>>, b: Browse)
    requires
        2 <= h.len() <= usize::MAX,
        b.index is None,
    ensures
        browse_up(h, b).input == h[h.len() - 1],
        browse_up(h, browse_up(h, b)).input == h[h.len() - 2],
{
}

/// The console log never holds more lines than its limit once it holds no more, and the
/// newest line is kept last.
pub proof fn law_console_log_bounded(log: Seq<(LogLevel, Seq<char>, u64)>, max: nat, line: (LogLevel, Seq<char>, u64))
    requires
        log.len() <= max,
    ensures
        append_line(log, max, line).len() <= max,
        max > 0 ==> append_line(log, max, line).last() == line,
{
}

/// The objects placed with the scene editor, oldest first, kept so that placements can be
/// undone newest first. Objects are identified by the bits of their entity.
pub struct PlacementHistory {
    placed: Vec<u64>,
}

impl View for PlacementHistory {
    type V = Seq<u64>;

    closed spec fn view(&self) -> Seq<u64> {
        self.placed@
    }
}

impl PlacementHistory {
    /// An empty history.
    pub fn new() -> (h: Self)
        ensures
            h@ == Seq::<u64>::empty(),
    {
        PlacementHistory { placed: Vec::new() }
    }

    /// Records a newly placed object.
    pub fn record(&mut self, id: u64)
        ensures
            final(self)@ == old(self)@.push(id),
    {
        self.placed.push(id);
    }

    /// Takes back the newest placement: the object to remove, or `None` when nothing is
    /// recorded.
    pub fn undo(&mut self) -> (r: Option<u64>)
        ensures
            old(self)@.len() == 0 ==> r is None && final(self)@ == old(self)@,
            old(self)@.len() > 0 ==> r == Some(old(self)@.last()) && final(self)@ == old(self)@.drop_last(),
    {
        self.placed.pop()
    }

    /// Forgets every placement.
    pub fn clear(&mut self)
        ensures
            final(self)@ == Seq::<u64>::empty(),
    {
        self.placed.clear();
    }

    /// The number of recorded placements.
    pub fn len(&self) -> (r: usize)
        ensures
            r == self@.len(),
    {
        self.placed.len()
    }
}

impl Default for PlacementHistory {
    fn default() -> (h: Self)
        ensures
            h@ == Seq::<u64>::empty(),
    {
        PlacementHistory::new()
    }
}

} // verus!
