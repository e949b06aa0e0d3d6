use lua_engine_ex::command::{chat_event, parse_chat_input, split_words, Cli, Command, CommandError, DebugCommand, ManagerEvent};

#[test]
fn test_reload() {
    let inputs = "/lua reload test1.lua"
        .split_whitespace()
        .collect::<Vec<&str>>();
    let cli = Cli::try_parse_from(&inputs).unwrap();
    assert_eq!(
        cli.command,
        Command::Reload {
            script: Some("test1.lua".to_string())
        }
    );
}

#[test]
fn test_reload_all() {
    let args = ["/lua", "reload"];
    let cli = Cli::try_parse_from(&args).unwrap();
    assert_eq!(cli.command, Command::Reload { script: None });
}

#[test]
fn test_debug_vm() {
    let inputs = "/lua debug vm".split_whitespace().collect::<Vec<&str>>();
    let cli = Cli::try_parse_from(&inputs).unwrap();
    assert_eq!(
        cli.command,
        Command::Debug {
            command: DebugCommand::Vm
        }
    );
}

#[test]
fn command_errors() {
    assert_eq!(Cli::try_parse_from(&["/lua"]), Err(CommandError::MissingSubcommand));
    assert_eq!(Cli::try_parse_from(&["/lua", "stop"]), Err(CommandError::UnknownSubcommand));
    assert_eq!(Cli::try_parse_from(&["/lua", "reload", "a", "b"]), Err(CommandError::InvalidArguments));
    assert_eq!(Cli::try_parse_from(&["/lua", "reload", "--force"]), Err(CommandError::InvalidArguments));
    assert_eq!(Cli::try_parse_from(&["/lua", "debug"]), Err(CommandError::InvalidArguments));
    assert_eq!(Cli::try_parse_from(&["/lua", "debug", "all"]), Err(CommandError::InvalidArguments));
}

#[test]
fn chat_input_is_split_into_words() {
    assert_eq!(parse_chat_input("/lua   reload\ttest2.lua"), Some(ManagerEvent::Reload("test2.lua".to_string())));
    assert_eq!(parse_chat_input("/lua reload"), Some(ManagerEvent::ReloadAll));
    assert_eq!(parse_chat_input("/lua debug vm"), Some(ManagerEvent::ListVms));
    assert_eq!(parse_chat_input("hello there"), None);
    assert_eq!(parse_chat_input("/luareload"), None);
    assert_eq!(parse_chat_input("/lua "), None);
}

#[test]
fn chat_reload_takes_the_third_word() {
    assert_eq!(parse_chat_input("/lua reload a.lua b.lua"), Some(ManagerEvent::Reload("a.lua".to_string())));
    assert_eq!(parse_chat_input("/lua reload --force"), Some(ManagerEvent::Reload("--force".to_string())));
    assert_eq!(parse_chat_input("/lua debug"), None);
    assert_eq!(parse_chat_input("/lua stop now"), None);
    let words = vec!["/lua".to_string(), "reload".to_string(), "x.lua".to_string()];
    assert_eq!(chat_event(&words), Some(ManagerEvent::Reload("x.lua".to_string())));
    assert_eq!(chat_event(&vec!["/lua".to_string()]), None);
}

#[test]
fn commands_become_manager_events() {
    assert_eq!(ManagerEvent::from_command(&Command::Reload { script: None }), ManagerEvent::ReloadAll);
    assert_eq!(
        ManagerEvent::from_command(&Command::Reload { script: Some("a.lua".to_string()) }),
        ManagerEvent::Reload("a.lua".to_string())
    );
    assert_eq!(
        ManagerEvent::from_command(&Command::Debug { command: DebugCommand::Vm }),
        ManagerEvent::ListVms
    );
}

#[test]
fn words_split_at_unicode_white_space() {
    let text = "  a\u{3000}bc\u{A0}\u{2028}d\te  ";
    let expected: Vec<String> = text.split_whitespace().map(|w| w.to_string()).collect();
    assert_eq!(split_words(text), expected);
    assert_eq!(split_words(text), vec!["a", "bc", "d", "e"]);
    assert!(split_words("").is_empty());
    assert!(split_words(" \n ").is_empty());
    assert_eq!(parse_chat_input("/lua reload\u{3000}z.lua"), Some(ManagerEvent::Reload("z.lua".to_string())));
}
