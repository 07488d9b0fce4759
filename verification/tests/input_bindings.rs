use zappy::input_bindings::{
    collect_printable, compile_bindings, handle_context_switching, parse_action, parse_trigger,
    push_active_actions, EngineContext, InputAction, InputTrigger, KeyName, MouseName,
};

#[test]
fn parses_action_names() {
    assert_eq!(parse_action("ToggleConsole"), Some(InputAction::ToggleConsole));
    assert_eq!(parse_action("MoveLeft"), Some(InputAction::MoveLeft));
    assert_eq!(parse_action("moveleft"), None);
    assert_eq!(parse_action("ScrollUp"), None);
}

#[test]
fn parses_triggers_in_any_case() {
    assert_eq!(parse_trigger("MouseLeft"), Some(InputTrigger::Mouse(MouseName::Left)));
    assert_eq!(parse_trigger("enter"), Some(InputTrigger::Key(KeyName::Enter)));
    assert_eq!(parse_trigger("z"), Some(InputTrigger::Key(KeyName::Z)));
    assert_eq!(parse_trigger("F2"), None);
}

#[test]
fn toggles_console_context() {
    let mut context = EngineContext::Gameplay;
    handle_context_switching(&vec![InputAction::MoveLeft, InputAction::ToggleConsole], &mut context);
    assert_eq!(context, EngineContext::UiConsole);
    handle_context_switching(&vec![InputAction::MoveLeft], &mut context);
    assert_eq!(context, EngineContext::UiConsole);
    handle_context_switching(&vec![InputAction::ToggleConsole], &mut context);
    assert_eq!(context, EngineContext::Gameplay);
}

#[test]
fn compiles_bindings_in_order() {
    let entries = vec![
        ("MoveForward".to_string(), vec!["W".to_string(), "Up".to_string(), "Nope".to_string()]),
        ("Unknown".to_string(), vec!["A".to_string()]),
        ("PrimaryAction".to_string(), vec!["MouseLeft".to_string()]),
    ];
    let compiled = compile_bindings(&entries);
    assert_eq!(
        compiled,
        vec![
            (InputTrigger::Key(KeyName::W), InputAction::MoveForward),
            (InputTrigger::Key(KeyName::Up), InputAction::MoveForward),
            (InputTrigger::Mouse(MouseName::Left), InputAction::PrimaryAction),
        ]
    );
}

#[test]
fn drops_control_characters() {
    let typed = vec!['a', '\u{8}', 'é', '\n', '\u{9f}', 'b'];
    assert_eq!(collect_printable(&typed), "aéb");
}

#[test]
fn only_active_bindings_give_actions_in_order() {
    let bindings = vec![
        (InputTrigger::Key(KeyName::W), InputAction::MoveForward),
        (InputTrigger::Key(KeyName::F1), InputAction::ToggleConsole),
        (InputTrigger::Mouse(MouseName::Left), InputAction::PrimaryAction),
        (InputTrigger::Key(KeyName::Up), InputAction::MoveForward),
    ];
    let mut actions = vec![InputAction::ScrollUp];
    push_active_actions(&bindings, &vec![true, false, true, true], &mut actions);
    assert_eq!(
        actions,
        vec![
            InputAction::ScrollUp,
            InputAction::MoveForward,
            InputAction::PrimaryAction,
            InputAction::MoveForward
        ]
    );
    let mut none = Vec::new();
    push_active_actions(&bindings, &vec![false, false, false, false], &mut none);
    assert!(none.is_empty());
}
