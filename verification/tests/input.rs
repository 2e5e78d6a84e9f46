use kitwin::input::{
    char_keysym, click_target, forward_key, handle_leader_command, is_leader, modifier_prefix,
    mouse_action, mouse_button_number, prompt_row, prompt_status_text, special_keysym,
    status_help_text, Forward, InputState, Key, KeyAction, KeyCode, KeyMods, LeaderCommand,
    MouseAction, MouseButton, MouseKind, PromptState, PromptStep,
};
use kitwin::layout::Placement;

fn mods(ctrl: bool, alt: bool, shift: bool, logo: bool) -> KeyMods {
    KeyMods { ctrl, alt, shift, logo }
}

fn plain(code: KeyCode) -> Key {
    Key { code, mods: mods(false, false, false, false) }
}

fn chord_of(k: Key) -> String {
    match forward_key(&k) {
        Some(Forward::Chord(s)) => s,
        _ => panic!("not a chord"),
    }
}

#[test]
fn keysyms_for_chords() {
    assert_eq!(char_keysym(' '), "space");
    assert_eq!(char_keysym('Q'), "q");
    assert_eq!(char_keysym('q'), "q");
    assert_eq!(char_keysym('/'), "slash");
    assert_eq!(char_keysym('\\'), "backslash");
    assert_eq!(char_keysym('|'), "bar");
    assert_eq!(char_keysym('7'), "7");
    assert_eq!(char_keysym('é'), "é");
    assert_eq!(special_keysym(KeyCode::PageUp), Some("Page_Up"));
    assert_eq!(special_keysym(KeyCode::Enter), Some("Return"));
    assert_eq!(special_keysym(KeyCode::Other), None);
}

#[test]
fn modifier_prefix_order() {
    let p: String = modifier_prefix(mods(true, true, true, true)).into_iter().collect();
    assert_eq!(p, "ctrl+alt+super+shift+");
    let q: String = modifier_prefix(mods(false, false, false, false)).into_iter().collect();
    assert_eq!(q, "");
    let r: String = modifier_prefix(mods(false, true, true, false)).into_iter().collect();
    assert_eq!(r, "alt+shift+");
}

#[test]
fn forwarding_types_or_chords() {
    match forward_key(&Key { code: KeyCode::Char('A'), mods: mods(false, false, true, false) }) {
        Some(Forward::Type(s)) => assert_eq!(s, "A"),
        _ => panic!("expected typed text"),
    }
    assert_eq!(chord_of(Key { code: KeyCode::Char('C'), mods: mods(true, false, true, false) }), "ctrl+shift+c");
    assert_eq!(chord_of(Key { code: KeyCode::Char('.'), mods: mods(false, true, false, false) }), "alt+period");
    assert_eq!(chord_of(Key { code: KeyCode::F(5), mods: mods(false, false, true, false) }), "shift+F5");
    assert_eq!(chord_of(plain(KeyCode::F(12))), "F12");
    assert_eq!(chord_of(plain(KeyCode::BackTab)), "shift+Tab");
    assert_eq!(chord_of(Key { code: KeyCode::Left, mods: mods(true, false, false, false) }), "ctrl+Left");
    assert_eq!(chord_of(plain(KeyCode::Esc)), "Escape");
    assert!(forward_key(&plain(KeyCode::Other)).is_none());
}

#[test]
fn leader_bindings() {
    let ctrl_b = Key { code: KeyCode::Char('b'), mods: mods(true, false, false, false) };
    assert!(is_leader(&ctrl_b));
    assert!(is_leader(&Key { code: KeyCode::Char('B'), mods: mods(true, false, true, false) }));
    assert!(!is_leader(&plain(KeyCode::Char('b'))));
    assert_eq!(handle_leader_command(&ctrl_b, false), LeaderCommand::SendLeader);
    assert_eq!(handle_leader_command(&plain(KeyCode::Char('q')), false), LeaderCommand::Quit);
    assert_eq!(handle_leader_command(&plain(KeyCode::Char('d')), true), LeaderCommand::Detach);
    assert_eq!(handle_leader_command(&plain(KeyCode::Char('d')), false), LeaderCommand::Ignore);
    assert_eq!(handle_leader_command(&plain(KeyCode::Char('r')), false), LeaderCommand::PromptRun);
    assert_eq!(handle_leader_command(&plain(KeyCode::Char('i')), false), LeaderCommand::PromptInput);
    assert_eq!(handle_leader_command(&plain(KeyCode::Char('m')), false), LeaderCommand::ToggleMute);
    assert_eq!(handle_leader_command(&plain(KeyCode::Char('+')), false), LeaderCommand::VolumeBy(5));
    assert_eq!(handle_leader_command(&plain(KeyCode::Char('=')), false), LeaderCommand::VolumeBy(5));
    assert_eq!(handle_leader_command(&plain(KeyCode::Char('-')), false), LeaderCommand::VolumeBy(-5));
    assert_eq!(handle_leader_command(&plain(KeyCode::Up), false), LeaderCommand::Ignore);
}

#[test]
fn leader_applies_to_exactly_one_key() {
    let ctrl_b = Key { code: KeyCode::Char('b'), mods: mods(true, false, false, false) };
    let mut st = InputState::new();
    assert!(matches!(st.on_key(&ctrl_b, false), KeyAction::LeaderArmed));
    assert!(st.leader_pending);
    assert!(matches!(st.on_key(&plain(KeyCode::Char('m')), false), KeyAction::Command(LeaderCommand::ToggleMute)));
    assert!(!st.leader_pending);
    assert!(matches!(st.on_key(&plain(KeyCode::Char('m')), false), KeyAction::Forward(Forward::Type(_))));
    // Leader twice sends a literal Ctrl+B.
    st.on_key(&ctrl_b, false);
    assert!(matches!(st.on_key(&ctrl_b, false), KeyAction::Command(LeaderCommand::SendLeader)));
    assert!(!st.leader_pending);
    assert!(matches!(st.on_key(&plain(KeyCode::Other), false), KeyAction::Nothing));
}

#[test]
fn mouse_mapping() {
    assert_eq!(mouse_button_number(MouseButton::Left), 1);
    assert_eq!(mouse_button_number(MouseButton::Middle), 2);
    assert_eq!(mouse_button_number(MouseButton::Right), 3);
    assert_eq!(mouse_action(MouseKind::Down(MouseButton::Right)), MouseAction::Click(3));
    assert_eq!(mouse_action(MouseKind::ScrollUp), MouseAction::Scroll(1));
    assert_eq!(mouse_action(MouseKind::ScrollDown), MouseAction::Scroll(-1));
    assert_eq!(mouse_action(MouseKind::ScrollLeft), MouseAction::ScrollHorizontal(1));
    assert_eq!(mouse_action(MouseKind::ScrollRight), MouseAction::ScrollHorizontal(-1));
    assert_eq!(mouse_action(MouseKind::Other), MouseAction::Ignore);
}

#[test]
fn clicks_on_status_bar_or_margins_are_ignored() {
    let p = Placement { col_offset: 10, row_offset: 2, cols: 20, rows: 5 };
    assert_eq!(click_target(200, 100, 24, p, 15, 4), Some((55, 50)));
    assert_eq!(click_target(200, 100, 24, p, 15, 23), None);
    assert_eq!(click_target(200, 100, 1, p, 15, 0), None);
    assert_eq!(click_target(0, 100, 24, p, 15, 4), None);
    assert_eq!(click_target(200, 100, 24, p, 0, 4), None);
}

#[test]
fn prompt_editing() {
    let mut p = PromptState::new();
    assert_eq!(p.on_key(&plain(KeyCode::Char('l'))), PromptStep::Edited);
    assert_eq!(p.on_key(&plain(KeyCode::Char('s'))), PromptStep::Edited);
    assert_eq!(p.on_key(&Key { code: KeyCode::Char('x'), mods: mods(true, false, false, false) }), PromptStep::Ignored);
    assert_eq!(p.on_key(&plain(KeyCode::Char('x'))), PromptStep::Edited);
    assert_eq!(p.on_key(&plain(KeyCode::Backspace)), PromptStep::Edited);
    assert_eq!(p.on_key(&plain(KeyCode::Up)), PromptStep::Ignored);
    assert_eq!(p.on_key(&plain(KeyCode::Enter)), PromptStep::Submit);
    assert_eq!(p.result(true), Some("ls".to_string()));
    assert_eq!(p.result(false), None);
    assert_eq!(p.on_key(&plain(KeyCode::Esc)), PromptStep::Cancel);
    assert_eq!(p.result(true), None);
}

#[test]
fn prompt_texts() {
    let input: Vec<char> = "a\tb\"é\u{1}".chars().collect();
    assert_eq!(prompt_status_text("Run:", &input), "Run: a\\tb\\\"\\u{e9}\\u{1}");
    let typed: Vec<char> = "firefox".chars().collect();
    assert_eq!(prompt_row(20, "Run:", &typed), "\u{1b}[7m Run: \u{1b}[0m firefox");
    assert_eq!(prompt_row(12, "Run:", &typed), "\u{1b}[7m Run: \u{1b}[0m fire");
    assert_eq!(prompt_row(3, "Run:", &typed), "\u{1b}[7m Run: \u{1b}[0m ");
    assert_eq!(
        status_help_text(true),
        "keys/mouse -> app | C-b leader: r=run i=type m=mute +/-=vol q=quit (C-b C-b sends C-b) | C-b d=detach"
    );
}

#[test]
fn leader_takes_exactly_one_key_in_a_run() {
    let leader = Key { code: KeyCode::Char('b'), mods: mods(true, false, false, false) };
    let keys = vec![
        plain(KeyCode::Char('x')),
        leader,
        leader,
        plain(KeyCode::Char('y')),
        leader,
        plain(KeyCode::Char('m')),
        plain(KeyCode::Char('q')),
    ];
    let mut state = InputState::new();
    let mut kinds = Vec::new();
    for k in &keys {
        let kind = match state.on_key(k, false) {
            KeyAction::Forward(Forward::Type(s)) => format!("type {}", s),
            KeyAction::Forward(Forward::Chord(s)) => format!("chord {}", s),
            KeyAction::Command(LeaderCommand::SendLeader) => "send-leader".to_string(),
            KeyAction::Command(LeaderCommand::ToggleMute) => "mute".to_string(),
            KeyAction::Command(_) => "other-command".to_string(),
            KeyAction::LeaderArmed => "armed".to_string(),
            KeyAction::Nothing => "nothing".to_string(),
        };
        kinds.push(kind);
    }
    assert_eq!(
        kinds,
        vec!["type x", "armed", "send-leader", "type y", "armed", "mute", "type q"]
    );
    assert!(!state.leader_pending);
}
