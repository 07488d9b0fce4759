use zappy::console::{ConsoleState, KeyEvent};
use zappy::host_commands::{host_log, host_system_command, SharedEngineState};

fn press(console: &mut ConsoleState, key: &str) -> bool {
    console.handle_input(KeyEvent::Pressed(key.to_string())).consumed
}

#[test]
fn closed_console_ignores_input() {
    let mut console = ConsoleState::new();
    assert!(!press(&mut console, "Enter"));
    assert!(!console.handle_input(KeyEvent::CharInput("a".to_string())).consumed);
    assert!(console.input.is_empty());
}

#[test]
fn enter_runs_the_trimmed_command() {
    let mut console = ConsoleState::new();
    assert!(press(&mut console, "F1"));
    assert!(console.opened);
    console.handle_input(KeyEvent::CharInput("  reload  cube ".to_string()));
    let outcome = console.handle_input(KeyEvent::Pressed("Enter".to_string()));
    assert!(outcome.consumed);
    let command = outcome.command.unwrap();
    assert_eq!(command.name, "reload");
    assert_eq!(command.args, vec!["cube".to_string()]);
    assert_eq!(console.logs, vec!["> reload  cube".to_string()]);
    assert!(console.input.is_empty());
    console.accept_log("Core: Reloading 'cube'...\nsecond\r\n");
    assert_eq!(console.logs.len(), 3);
    assert_eq!(console.logs[2], "second");
}

#[test]
fn blank_line_runs_nothing() {
    let mut console = ConsoleState::new();
    press(&mut console, "F1");
    console.handle_input(KeyEvent::CharInput("   ".to_string()));
    let outcome = console.handle_input(KeyEvent::Pressed("Enter".to_string()));
    assert!(outcome.consumed && outcome.command.is_none());
    assert_eq!(console.input.len(), 3);
    assert!(console.logs.is_empty());
}

#[test]
fn backspace_and_prompt() {
    let mut console = ConsoleState::new();
    press(&mut console, "F1");
    console.handle_input(KeyEvent::CharInput("hé".to_string()));
    assert!(press(&mut console, "Backspace"));
    assert_eq!(console.prompt_text(), "> h");
    assert!(press(&mut console, "Escape"));
    press(&mut console, "F1");
    assert!(!console.opened);
}

#[test]
fn shows_last_twelve_lines() {
    let mut console = ConsoleState::new();
    for i in 0..15 {
        console.accept_log(&format!("line {i}"));
    }
    let shown = console.display_logs();
    assert_eq!(shown.len(), 12);
    assert_eq!(shown[0], "line 3");
    assert_eq!(shown[11], "line 14");
}

fn engine() -> SharedEngineState {
    SharedEngineState {
        logs_to_broadcast: Vec::new(),
        reload_queue: Vec::new(),
        cached_commands: vec![("spin".to_string(), "Spin the cube".to_string())],
    }
}

#[test]
fn reload_commands_are_queued() {
    let mut state = engine();
    assert_eq!(host_system_command(&mut state, "reload", &vec![]), "Core: Reloading all plugins...");
    assert_eq!(
        host_system_command(&mut state, "reload", &vec!["cube".to_string()]),
        "Core: Reloading 'cube'..."
    );
    assert_eq!(state.reload_queue, vec![None, Some("cube".to_string())]);
}

#[test]
fn help_lists_commands() {
    let mut state = engine();
    let help = host_system_command(&mut state, "help", &vec![]);
    let expected = format!(
        "=== AVAILABLE COMMANDS ===\n>>> help               - Show this help menu\n>>> reload [plugin]    - Reload one or all plugins\n  {:<18} - {}\n",
        "spin", "Spin the cube"
    );
    assert_eq!(help, expected);
    assert!(state.reload_queue.is_empty());
}

#[test]
fn unknown_command_is_reported() {
    let mut state = engine();
    assert_eq!(
        host_system_command(&mut state, "jump", &vec![]),
        "Unknown command: jump. See available commands with 'help'."
    );
}

#[test]
fn plugin_logs_are_queued_with_their_tag() {
    let mut state = engine();
    host_log(&mut state, "cube spun");
    host_log(&mut state, "second");
    assert_eq!(state.logs_to_broadcast.len(), 2);
    let first = &state.logs_to_broadcast[0];
    assert!(first.contains("[PLUGIN]"));
    assert!(first.contains("cube spun"));
    let plain_tag = "[PLUGIN]";
    let styled_tag = "\u{1b}[1;95m[PLUGIN]\u{1b}[0m";
    let plain_msg = "cube spun";
    let styled_msg = "\u{1b}[90mcube spun\u{1b}[0m";
    let mut accepted = Vec::new();
    for tag in [plain_tag, styled_tag] {
        for msg in [plain_msg, styled_msg] {
            accepted.push(format!("{} {}", tag, msg));
        }
    }
    assert!(accepted.contains(first));
    assert!(state.logs_to_broadcast[1].contains("second"));
    assert!(state.reload_queue.is_empty());
    assert_eq!(state.cached_commands.len(), 1);
}
