use lua_engine_ex::host::{is_script_file, join_values, message_color, package_path, select_scripts, MessageColor};
use lua_engine_ex::logger::{LogLevel, MHWLogger};
use lua_engine_ex::monster::{get_all_monsters, MonsterTracker};
use lua_engine_ex::text::text_eq;

#[test]
fn log_arguments_are_joined() {
    let parts = vec!["a".to_string(), "1".to_string(), "nil".to_string()];
    assert_eq!(join_values(&parts), "a, 1, nil");
    assert_eq!(join_values(&vec![]), "");
    assert_eq!(join_values(&vec!["only".to_string()]), "only");
}

#[test]
fn package_path_gains_the_scripts_directory() {
    assert_eq!(package_path("./?.lua"), "./?.lua;./LuaEngineEx/?.lua");
}

#[test]
fn script_files_are_selected_by_extension() {
    assert!(is_script_file("main.lua"));
    assert!(!is_script_file(".lua"));
    assert!(!is_script_file("notes.txt"));
    assert!(!is_script_file("lua"));
    let names = vec!["a.lua".to_string(), "b.txt".to_string(), "c.lua".to_string()];
    let found = select_scripts("LuaEngineEx", &names);
    assert_eq!(found.len(), 2);
    assert_eq!(found[0].name, "a.lua");
    assert_eq!(found[0].path, "LuaEngineEx/a.lua");
    assert_eq!(found[1].name, "c.lua");
}

#[test]
fn message_colours_ignore_case() {
    assert_eq!(message_color(None), Some(MessageColor::Blue));
    assert_eq!(message_color(Some("BLUE")), Some(MessageColor::Blue));
    assert_eq!(message_color(Some("General")), Some(MessageColor::Blue));
    assert_eq!(message_color(Some("PrImArY")), Some(MessageColor::Purple));
    assert_eq!(message_color(Some("purple")), Some(MessageColor::Purple));
    assert_eq!(message_color(Some("red")), None);
}

#[test]
fn logger_formats_and_filters() {
    let l = MHWLogger::new();
    assert_eq!(l.format_line(LogLevel::Warn, "careful"), "[LuaEngineEx] WARN - careful");
    assert_eq!(l.format_line(LogLevel::Debug, ""), "[LuaEngineEx] DEBUG - ");
    assert!(l.enabled(LogLevel::Debug));
    assert!(l.enabled(LogLevel::Error));
    assert!(!l.enabled(LogLevel::Trace));
}

#[test]
fn live_objects_follow_notifications() {
    let mut t = MonsterTracker::new();
    assert!(get_all_monsters(&t).is_empty());
    t.on_create(10);
    t.on_create(20);
    t.on_create(10);
    t.on_create(30);
    t.on_destroy(10);
    assert_eq!(get_all_monsters(&t), vec![20, 30]);
    t.on_destroy(99);
    assert_eq!(get_all_monsters(&t), vec![20, 30]);
}

#[test]
fn text_equality() {
    assert!(text_eq("abc", "abc"));
    assert!(!text_eq("abc", "abd"));
    assert!(!text_eq("abc", "ab"));
    assert!(text_eq("", ""));
}
