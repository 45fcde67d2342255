use ming_rpg::plugins::log_plugin::{
    current_name, log_location, log_location_from, max_size_bytes, needs_rotation, rotated_name, rotation_plan, LogBuffer,
    LogConfig, LogEntry, LogLevel, RotationStep,
};

fn log_entry(level: LogLevel, message: &str) -> LogEntry {
    LogEntry {
        timestamp: "12:00:00".to_string(),
        level,
        target: "game".to_string(),
        message: message.to_string(),
    }
}

#[test]
fn log_buffer_new_is_empty() {
    let b = LogBuffer::new();
    assert!(b.entries.is_empty());
    assert_eq!(b.max_entries, 1000);
}

#[test]
fn log_buffer_keeps_at_most_max_entries() {
    let mut b = LogBuffer::new();
    b.max_entries = 3;
    for i in 0..5 {
        b.add_entry(log_entry(LogLevel::Info, &i.to_string()));
    }
    let kept: Vec<&str> = b.entries.iter().map(|e| e.message.as_str()).collect();
    assert_eq!(kept, vec!["2", "3", "4"]);
}

#[test]
fn log_buffer_filter_by_level() {
    let mut b = LogBuffer::new();
    b.add_entry(log_entry(LogLevel::Trace, "t"));
    b.add_entry(log_entry(LogLevel::Debug, "d"));
    b.add_entry(log_entry(LogLevel::Info, "i"));
    b.add_entry(log_entry(LogLevel::Warn, "w"));
    b.add_entry(log_entry(LogLevel::Error, "e"));
    let warn: Vec<&str> = b.get_filtered(LogLevel::Warn).iter().map(|e| e.message.as_str()).collect();
    assert_eq!(warn, vec!["w", "e"]);
    assert_eq!(b.get_filtered(LogLevel::Trace).len(), 5);
    assert_eq!(b.get_filtered(LogLevel::Error).len(), 1);
    b.clear();
    assert!(b.entries.is_empty());
    assert_eq!(b.max_entries, 1000);
}

#[test]
fn log_level_ranks_are_ordered() {
    assert!(LogLevel::Trace.rank() < LogLevel::Debug.rank());
    assert!(LogLevel::Debug.rank() < LogLevel::Info.rank());
    assert!(LogLevel::Info.rank() < LogLevel::Warn.rank());
    assert!(LogLevel::Warn.rank() < LogLevel::Error.rank());
}

#[test]
fn log_config_defaults() {
    let c = LogConfig::default();
    assert_eq!(c.log_file, "logs/game.log");
    assert_eq!(c.level, LogLevel::Info);
    assert!(c.file_output);
    assert!(c.console_output);
    assert_eq!(c.max_file_size_mb, 10);
    assert_eq!(c.max_files, 5);
}

#[test]
fn log_rotation_threshold() {
    assert_eq!(max_size_bytes(10), 10 * 1024 * 1024);
    assert!(!needs_rotation(90, 10, 100));
    assert!(needs_rotation(91, 10, 100));
    assert!(needs_rotation(0, 1, 0));
}

#[test]
fn log_rotation_names() {
    assert_eq!(current_name("logs/game"), "logs/game.log");
    assert_eq!(rotated_name("logs/game", 3), "logs/game.3.log");
    assert_eq!(rotated_name("logs/game", 10), "logs/game.10.log");
}

#[test]
fn log_rotation_plan_order() {
    let plan = rotation_plan("g", 5);
    assert_eq!(plan.len(), 6);
    assert!(matches!(&plan[0], RotationStep::RemoveIfExists(p) if p == "g.5.log"));
    assert!(matches!(&plan[1], RotationStep::RenameIfExists { from, to } if from == "g.4.log" && to == "g.5.log"));
    assert!(matches!(&plan[4], RotationStep::RenameIfExists { from, to } if from == "g.1.log" && to == "g.2.log"));
    assert!(matches!(&plan[5], RotationStep::Rename { from, to } if from == "g.log" && to == "g.1.log"));
}

#[test]
fn log_rotation_plan_follows_max_files() {
    let plan = rotation_plan("g", 3);
    assert_eq!(plan.len(), 4);
    assert!(matches!(&plan[0], RotationStep::RemoveIfExists(p) if p == "g.3.log"));
    assert!(matches!(&plan[1], RotationStep::RenameIfExists { from, to } if from == "g.2.log" && to == "g.3.log"));
    assert!(matches!(&plan[2], RotationStep::RenameIfExists { from, to } if from == "g.1.log" && to == "g.2.log"));
    assert!(matches!(&plan[3], RotationStep::Rename { from, to } if from == "g.log" && to == "g.1.log"));
    let plan = rotation_plan("g", 12);
    assert_eq!(plan.len(), 13);
    assert!(matches!(&plan[0], RotationStep::RemoveIfExists(p) if p == "g.12.log"));
    assert!(matches!(&plan[1], RotationStep::RenameIfExists { from, to } if from == "g.11.log" && to == "g.12.log"));
}

#[test]
fn log_rotation_plan_keeps_at_least_one_file() {
    for max_files in [0, 1] {
        let plan = rotation_plan("g", max_files);
        assert_eq!(plan.len(), 2);
        assert!(matches!(&plan[0], RotationStep::RemoveIfExists(p) if p == "g.1.log"));
        assert!(matches!(&plan[1], RotationStep::Rename { from, to } if from == "g.log" && to == "g.1.log"));
    }
}

#[test]
fn log_location_parts() {
    assert_eq!(log_location("logs/game.log"), ("logs".to_string(), "game".to_string()));
    assert_eq!(log_location("a/b/server.txt"), ("a/b".to_string(), "server".to_string()));
    assert_eq!(log_location("game.log"), ("".to_string(), "game".to_string()));
    assert_eq!(log_location("/"), (".".to_string(), "game".to_string()));
    assert_eq!(log_location_from(None, None), (".".to_string(), "game".to_string()));
}

#[test]
fn log_buffer_default_matches_new() {
    let b = LogBuffer::default();
    assert!(b.entries.is_empty());
    assert_eq!(b.max_entries, 1000);
}
