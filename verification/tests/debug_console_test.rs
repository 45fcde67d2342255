use ming_rpg::plugins::log_plugin::LogLevel as FileLevel;
use ming_rpg::plugins::debug_console_plugin::{
    console_level, event_message, push_sample, timestamp_to_hhmmss, ConsoleAction, DebugConsoleState, LogLevel,
    PlacementHistory,
};

fn console() -> DebugConsoleState {
    let mut c = DebugConsoleState::default();
    c.setup();
    c
}

fn messages(c: &DebugConsoleState) -> Vec<String> {
    c.logs.iter().map(|e| e.message.clone()).collect()
}

#[test]
fn console_setup_values() {
    let c = console();
    assert_eq!(c.max_logs, 200);
    assert!(c.auto_scroll);
    assert_eq!(c.filter_level, LogLevel::Info);
    assert!(!c.visible);
}

#[test]
fn console_priority_and_labels() {
    assert_eq!(LogLevel::Debug.priority(), 0);
    assert_eq!(LogLevel::Info.priority(), 1);
    assert_eq!(LogLevel::Warn.priority(), 2);
    assert_eq!(LogLevel::Error.priority(), 3);
    assert_eq!(LogLevel::Warn.label(), "WARN");
    assert_eq!(LogLevel::Error.label(), "ERROR");
}

#[test]
fn console_hhmmss_formatting() {
    assert_eq!(timestamp_to_hhmmss(0), "00:00:00");
    assert_eq!(timestamp_to_hhmmss(3661), "01:01:01");
    assert_eq!(timestamp_to_hhmmss(86399), "23:59:59");
    assert_eq!(timestamp_to_hhmmss(86400 + 45296), "12:34:56");
}

#[test]
fn console_add_log_drops_oldest_past_limit() {
    let mut c = DebugConsoleState::default();
    c.max_logs = 2;
    c.add_log_at(LogLevel::Info, "a".to_string(), 1);
    c.add_log_at(LogLevel::Info, "b".to_string(), 2);
    c.add_log_at(LogLevel::Warn, "c".to_string(), 3);
    assert_eq!(messages(&c), vec!["b", "c"]);
    assert_eq!(c.logs[1].timestamp, 3);
    assert_eq!(c.logs[1].level, LogLevel::Warn);
}

#[test]
fn console_visible_logs_follow_filter() {
    let mut c = console();
    c.add_log_at(LogLevel::Debug, "d".to_string(), 1);
    c.add_log_at(LogLevel::Info, "i".to_string(), 2);
    c.add_log_at(LogLevel::Error, "e".to_string(), 3);
    let shown: Vec<&str> = c.visible_logs().iter().map(|e| e.message.as_str()).collect();
    assert_eq!(shown, vec!["i", "e"]);
    c.filter_level = LogLevel::Debug;
    assert_eq!(c.visible_logs().len(), 3);
    c.filter_level = LogLevel::Error;
    assert_eq!(c.visible_logs().len(), 1);
}

#[test]
fn console_toggle_visible() {
    let mut c = console();
    c.toggle_visible();
    assert!(c.visible);
    c.toggle_visible();
    assert!(!c.visible);
}

#[test]
fn console_tab_completion() {
    let mut c = console();
    c.input_buffer = "he".to_string();
    c.tab_complete();
    assert_eq!(c.input_buffer, "help");
    c.input_buffer = "e".to_string();
    c.tab_complete();
    assert_eq!(c.input_buffer, "entities");
    c.input_buffer = "ex".to_string();
    c.tab_complete();
    assert_eq!(c.input_buffer, "exit");
    c.input_buffer = "zzz".to_string();
    c.tab_complete();
    assert_eq!(c.input_buffer, "zzz");
    c.input_buffer = String::new();
    c.tab_complete();
    assert_eq!(c.input_buffer, "");
}

#[test]
fn console_help_command_lists_commands() {
    let mut c = console();
    let action = c.execute_command_at("help", 10);
    assert!(matches!(action, ConsoleAction::Nothing));
    let m = messages(&c);
    assert_eq!(m.len(), 10);
    assert_eq!(m[0], "> help");
    assert_eq!(m[1], "可用命令:");
    assert_eq!(m[9], "  quit - 退出游戏");
}

#[test]
fn console_clear_command_empties_log() {
    let mut c = console();
    c.add_log_at(LogLevel::Info, "x".to_string(), 1);
    let action = c.execute_command_at("clear", 2);
    assert!(matches!(action, ConsoleAction::Nothing));
    assert!(c.logs.is_empty());
}

#[test]
fn console_lua_command_asks_for_code() {
    let mut c = console();
    let action = c.execute_command_at("lua   print(1)   +  2", 5);
    match action {
        ConsoleAction::RunLua(code) => assert_eq!(code, "print(1) + 2"),
        _ => panic!("expected RunLua"),
    }
    assert_eq!(messages(&c), vec!["> lua   print(1)   +  2"]);
}

#[test]
fn console_lua_without_code_warns() {
    let mut c = console();
    let action = c.execute_command_at("lua", 5);
    assert!(matches!(action, ConsoleAction::Nothing));
    assert_eq!(messages(&c), vec!["> lua", "用法: lua <代码>"]);
    assert_eq!(c.logs[1].level, LogLevel::Warn);
}

#[test]
fn console_other_commands() {
    let mut c = console();
    assert!(matches!(c.execute_command_at("reload", 1), ConsoleAction::ReloadScript));
    assert!(matches!(c.execute_command_at("editor", 1), ConsoleAction::OpenEditor));
    assert!(matches!(c.execute_command_at("quit", 1), ConsoleAction::Quit));
    assert!(matches!(c.execute_command_at("exit", 1), ConsoleAction::Quit));
    assert!(!c.show_entity_viewer);
    assert!(matches!(c.execute_command_at("entities", 1), ConsoleAction::Nothing));
    assert!(c.show_entity_viewer);
    assert!(matches!(c.execute_command_at("fps", 1), ConsoleAction::Nothing));
    let m = messages(&c);
    assert!(m.contains(&"正在退出...".to_string()));
    assert!(m.contains(&"实体查看器已打开".to_string()));
    assert!(m.contains(&"查看右上角性能面板".to_string()));
}

#[test]
fn console_unknown_command_warns() {
    let mut c = console();
    let action = c.execute_command_at("dance now", 7);
    assert!(matches!(action, ConsoleAction::Nothing));
    assert_eq!(messages(&c), vec!["> dance now", "未知命令: dance"]);
    assert_eq!(c.logs[1].level, LogLevel::Warn);
    assert_eq!(c.logs[1].timestamp, 7);
}

#[test]
fn console_submit_records_history() {
    let mut c = console();
    c.input_buffer = "fps".to_string();
    c.draft_input = "draft".to_string();
    let action = c.submit_at(3);
    assert!(matches!(action, ConsoleAction::Nothing));
    assert_eq!(c.history, vec!["fps"]);
    assert!(c.input_buffer.is_empty());
    assert!(c.draft_input.is_empty());
    assert_eq!(c.history_index, None);
    let before = c.logs.len();
    let action = c.submit_at(4);
    assert!(matches!(action, ConsoleAction::Nothing));
    assert_eq!(c.logs.len(), before);
    assert_eq!(c.history.len(), 1);
}

#[test]
fn console_history_navigation_round_trip() {
    let mut c = console();
    c.history = vec!["help".to_string(), "fps".to_string()];
    c.input_buffer = "typed".to_string();
    c.history_up();
    assert_eq!(c.history_index, Some(1));
    assert_eq!(c.input_buffer, "fps");
    assert_eq!(c.draft_input, "typed");
    c.history_up();
    assert_eq!(c.history_index, Some(0));
    assert_eq!(c.input_buffer, "help");
    c.history_up();
    assert_eq!(c.history_index, Some(0));
    assert_eq!(c.input_buffer, "help");
    c.history_down();
    assert_eq!(c.history_index, Some(1));
    assert_eq!(c.input_buffer, "fps");
    c.history_down();
    assert_eq!(c.history_index, None);
    assert_eq!(c.input_buffer, "typed");
    c.history_down();
    assert_eq!(c.history_index, None);
    assert_eq!(c.input_buffer, "typed");
}

#[test]
fn console_history_up_on_empty_history() {
    let mut c = console();
    c.input_buffer = "abc".to_string();
    c.history_up();
    assert_eq!(c.history_index, None);
    assert_eq!(c.input_buffer, "abc");
    assert_eq!(c.draft_input, "abc");
}

#[test]
fn console_history_empty_input_is_restored_not_stale_draft() {
    let mut c = console();
    c.history = vec!["help".to_string()];
    c.draft_input = "old draft".to_string();
    c.history_up();
    assert_eq!(c.history_index, Some(0));
    assert_eq!(c.input_buffer, "help");
    assert_eq!(c.draft_input, "");
    c.history_down();
    assert_eq!(c.history_index, None);
    assert_eq!(c.input_buffer, "");
}

#[test]
fn console_reports_results() {
    let mut c = console();
    c.report_lua_result_at(Ok("nil".to_string()), 1);
    c.report_lua_result_at(Ok("42".to_string()), 2);
    c.report_lua_result_at(Err("boom".to_string()), 3);
    c.report_reload_result_at(Ok(()), 4);
    c.report_reload_result_at(Err("missing".to_string()), 5);
    assert_eq!(
        messages(&c),
        vec!["执行成功 (无返回值)", "<= 42", "Error: boom", "Lua脚本重载成功", "重载失败: missing"]
    );
    assert_eq!(c.logs[2].level, LogLevel::Error);
    assert_eq!(c.logs[4].level, LogLevel::Error);
    assert_eq!(c.logs[3].level, LogLevel::Info);
}

#[test]
fn console_clock_variants_log_something() {
    let mut c = console();
    c.add_log(LogLevel::Info, "now".to_string());
    assert_eq!(messages(&c), vec!["now"]);
    c.input_buffer = "help".to_string();
    let action = c.submit();
    assert!(matches!(action, ConsoleAction::Nothing));
    assert_eq!(c.history, vec!["help"]);
    c.report_lua_result(Ok("1".to_string()));
    c.report_reload_result(Ok(()));
    assert_eq!(c.logs.back().unwrap().message, "Lua脚本重载成功");
    assert!(matches!(c.execute_command("quit"), ConsoleAction::Quit));
}

#[test]
fn console_levels_and_event_messages() {
    assert_eq!(console_level(FileLevel::Trace), LogLevel::Debug);
    assert_eq!(console_level(FileLevel::Debug), LogLevel::Debug);
    assert_eq!(console_level(FileLevel::Info), LogLevel::Info);
    assert_eq!(console_level(FileLevel::Warn), LogLevel::Warn);
    assert_eq!(console_level(FileLevel::Error), LogLevel::Error);
    assert_eq!(event_message(String::new(), "event src/main.rs:10"), "event src/main.rs:10");
    assert_eq!(event_message("hello".to_string(), "ignored"), "hello");
}

#[test]
fn console_level_colours() {
    assert_eq!(LogLevel::Debug.text_rgb(), (160, 160, 160));
    assert_eq!(LogLevel::Error.text_rgb(), (255, 90, 90));
    assert_eq!(LogLevel::Info.badge_rgb(), (60, 100, 140));
    assert_eq!(LogLevel::Warn.badge_rgb(), (140, 110, 40));
}

#[test]
fn console_sample_history_is_bounded() {
    let mut q = std::collections::VecDeque::new();
    for v in [60.0f32, 59.5, 61.0, 30.0] {
        push_sample(&mut q, v, 3);
    }
    assert_eq!(q, std::collections::VecDeque::from(vec![59.5f32, 61.0, 30.0]));
    let mut empty: std::collections::VecDeque<u32> = std::collections::VecDeque::new();
    push_sample(&mut empty, 1, 0);
    assert!(empty.is_empty());
}

#[test]
fn console_completion_twice_is_completion_once() {
    for typed in ["h", "c", "l", "r", "f", "e", "ed", "q", "ex", "x", "helpme"] {
        let mut c = console();
        c.input_buffer = typed.to_string();
        c.tab_complete();
        let once = c.input_buffer.clone();
        c.tab_complete();
        assert_eq!(c.input_buffer, once, "typed {}", typed);
    }
}

#[test]
fn placement_history_undoes_newest_first() {
    let mut h = PlacementHistory::new();
    assert_eq!(h.undo(), None);
    h.record(7);
    h.record(9);
    assert_eq!(h.len(), 2);
    assert_eq!(h.undo(), Some(9));
    assert_eq!(h.undo(), Some(7));
    assert_eq!(h.undo(), None);
    h.record(3);
    h.clear();
    assert_eq!(h.len(), 0);
    assert_eq!(PlacementHistory::default().len(), 0);
}

#[test]
fn console_clear_keeps_other_fields() {
    let mut c = console();
    c.auto_scroll = false;
    c.entity_filter = "npc".to_string();
    c.selected_entity = Some(42);
    c.input_buffer = "typed".to_string();
    c.add_log_at(LogLevel::Info, "line".to_string(), 1);
    let action = c.execute_command_at("clear", 2);
    assert!(matches!(action, ConsoleAction::Nothing));
    assert!(c.logs.is_empty());
    assert!(!c.auto_scroll);
    assert_eq!(c.entity_filter, "npc");
    assert_eq!(c.selected_entity, Some(42));
    assert_eq!(c.input_buffer, "typed");
    assert!(!c.show_entity_viewer);
    assert_eq!(c.max_logs, 200);
}
