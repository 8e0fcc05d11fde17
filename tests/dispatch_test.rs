use std::collections::HashSet;

use macropad_console::config::{
    first_match, Action, AppConfig, ApplicationProfile, Command, KeyCombination, Operation,
    RadialMenuItem,
};
use macropad_console::dispatch::{
    handle_command, handle_input, perform_action, plan_operations, plan_release_complement,
    trigger_for, Reaction, Step,
};
use macropad_console::hid::handle_report;
use macropad_console::keys::KeyCode;
use macropad_console::macropad_state::{ButtonState, MacropadState};

fn initial() -> MacropadState {
    MacropadState {
        buttons: [ButtonState::Released; 12],
        encoders: [0; 1],
    }
}

fn press(key: &str) -> Operation {
    Operation::KeyPress { key: key.to_string() }
}

fn release(key: &str) -> Operation {
    Operation::KeyRelease { key: key.to_string() }
}

fn tap(key: &str) -> Operation {
    Operation::KeyTap { key: key.to_string() }
}

fn program(operations: Vec<Operation>) -> Command {
    Command {
        display_name: "program".to_string(),
        operations: Some(operations),
        radial_menu_items: None,
    }
}

fn on(action: Action, command: Command) -> (KeyCombination, Command) {
    (KeyCombination { modifiers: None, action }, command)
}

fn ch(c: char) -> KeyCode {
    KeyCode::Unicode(c)
}

fn steps(reaction: &Reaction) -> Vec<Step> {
    match reaction {
        Reaction::Synthesize(steps) => steps.clone(),
        other => panic!("expected synthesis, got {:?}", other),
    }
}

/// Feeds reports through the whole pipeline and collects every step.
fn synthesized(config: &AppConfig, title: &str, reports: &[[u8; 2]]) -> Vec<Step> {
    let mut state = initial();
    let mut all = Vec::new();
    for (t, report) in reports.iter().enumerate() {
        let (next, reactions) = handle_input(config, title, state, *report, t as u64);
        for r in &reactions {
            if let Reaction::Synthesize(s) = r {
                all.extend(s.iter().copied());
            }
        }
        state = next;
    }
    all
}

fn single_profile(pattern: &str, bindings: Vec<(KeyCombination, Command)>) -> AppConfig {
    AppConfig {
        application_profiles: vec![(pattern.to_string(), ApplicationProfile { bindings })],
    }
}

#[test]
fn explicit_release_prevents_a_double_release() {
    let profile = ApplicationProfile {
        bindings: vec![on(Action::ButtonPress { id: 0 }, program(vec![press("a"), release("a")]))],
    };
    let before = initial();
    let (held, _) = handle_report(before, [1, 0], 0);
    let down = perform_action(Some(&profile), &before, Action::ButtonPress { id: 0 });
    let up = perform_action(Some(&profile), &held, Action::ButtonRelease { id: 0 });
    let mut all = steps(&down);
    all.extend(steps(&up));
    assert_eq!(all, vec![Step::Press(ch('a')), Step::Release(ch('a'))]);
}

#[test]
fn missing_release_is_compensated_once() {
    let profile = ApplicationProfile {
        bindings: vec![on(Action::ButtonPress { id: 0 }, program(vec![press("a")]))],
    };
    let before = initial();
    let (held, _) = handle_report(before, [1, 0], 0);
    let down = perform_action(Some(&profile), &before, Action::ButtonPress { id: 0 });
    assert_eq!(steps(&down), vec![Step::Press(ch('a'))]);
    let up = perform_action(Some(&profile), &held, Action::ButtonRelease { id: 0 });
    assert_eq!(steps(&up), vec![Step::Release(ch('a'))]);
}

#[test]
fn whole_pipeline_press_and_release() {
    let config = single_profile(
        "Editor",
        vec![on(Action::ButtonPress { id: 0 }, program(vec![press("a")]))],
    );
    let all = synthesized(&config, "My Editor", &[[1, 0], [0, 0]]);
    assert_eq!(all, vec![Step::Press(ch('a')), Step::Release(ch('a'))]);
}

#[test]
fn menu_wins_over_operations() {
    let inner = program(vec![tap("z")]);
    let command = Command {
        display_name: "menu".to_string(),
        operations: Some(vec![press("a")]),
        radial_menu_items: Some(vec![RadialMenuItem {
            label: "zed".to_string(),
            command: inner,
        }]),
    };
    match handle_command(&command) {
        Reaction::ShowRadialMenu(items) => {
            assert_eq!(items.len(), 1);
            assert_eq!(items[0].label, "zed");
        }
        other => panic!("expected the menu, got {:?}", other),
    }
    let profile = ApplicationProfile {
        bindings: vec![on(Action::ButtonPress { id: 3 }, command)],
    };
    let before = initial();
    let (held, _) = handle_report(before, [0b1000, 0], 0);
    let down = perform_action(Some(&profile), &before, Action::ButtonPress { id: 3 });
    assert!(matches!(down, Reaction::ShowRadialMenu(_)));
    let up = perform_action(Some(&profile), &held, Action::ButtonRelease { id: 3 });
    assert!(matches!(up, Reaction::HideRadialMenu));
}

#[test]
fn repeat_taps_three_times() {
    let command = program(vec![Operation::Repeat {
        times: 3,
        operations: vec![tap("x")],
    }]);
    let r = handle_command(&command);
    assert_eq!(steps(&r), vec![Step::Click(ch('x')); 3]);
}

#[test]
fn repeat_zero_times_does_nothing_and_nests() {
    let mut out = Vec::new();
    plan_operations(
        &vec![
            Operation::Repeat { times: 0, operations: vec![tap("q")] },
            Operation::Repeat {
                times: 2,
                operations: vec![
                    press("shift"),
                    Operation::Repeat { times: 2, operations: vec![tap("k")] },
                    Operation::Delay { ms: 5 },
                    release("shift"),
                ],
            },
            Operation::NoOp,
        ],
        &mut out,
    );
    let once = vec![
        Step::Press(KeyCode::Shift),
        Step::Click(ch('k')),
        Step::Click(ch('k')),
        Step::Delay(5),
        Step::Release(KeyCode::Shift),
    ];
    let mut expected = once.clone();
    expected.extend(once);
    assert_eq!(out, expected);
}

#[test]
fn macro_tap_brackets_its_keys() {
    let mut out = vec![Step::Delay(1)];
    plan_operations(
        &vec![Operation::MacroTap {
            actions: vec!["ctrl".to_string(), "alt".to_string(), "DEL".to_string()],
        }],
        &mut out,
    );
    assert_eq!(
        out,
        vec![
            Step::Delay(1),
            Step::Press(KeyCode::Control),
            Step::Press(KeyCode::Alt),
            Step::Press(KeyCode::Delete),
            Step::Release(KeyCode::Delete),
            Step::Release(KeyCode::Alt),
            Step::Release(KeyCode::Control),
        ]
    );
}

#[test]
fn unmatched_title_synthesizes_nothing() {
    let config = single_profile(
        "^Editor$",
        vec![
            on(Action::ButtonPress { id: 0 }, program(vec![press("a")])),
            on(Action::EncoderIncrement { id: 0 }, program(vec![tap("b")])),
        ],
    );
    assert!(config.resolve("Browser").is_none());
    let reports = [[1, 0], [0, 0], [0, 0b01 << 4], [0, 0]];
    assert!(synthesized(&config, "Browser", &reports).is_empty());
    let state = initial();
    let (_, reactions) = handle_input(&config, "Browser", state, [1, 0b01 << 4], 0);
    assert_eq!(reactions.len(), 2);
    assert!(reactions.iter().all(|r| matches!(r, Reaction::Nothing)));
    assert_eq!(
        synthesized(&config, "Editor", &reports),
        vec![Step::Press(ch('a')), Step::Release(ch('a')), Step::Click(ch('b'))]
    );
}

#[test]
fn resolve_takes_the_first_matching_pattern_and_skips_malformed_ones() {
    let config = AppConfig {
        application_profiles: vec![
            ("(unclosed".to_string(), ApplicationProfile {
                bindings: vec![on(Action::ButtonPress { id: 0 }, program(vec![tap("1")]))],
            }),
            ("Code".to_string(), ApplicationProfile {
                bindings: vec![on(Action::ButtonPress { id: 0 }, program(vec![tap("2")]))],
            }),
            (".*".to_string(), ApplicationProfile {
                bindings: vec![on(Action::ButtonPress { id: 0 }, program(vec![tap("3")]))],
            }),
        ],
    };
    let pick = |title: &str| {
        let p = config.resolve(title).unwrap();
        steps(&handle_command(&p.bindings[0].1))
    };
    assert_eq!(pick("Visual Studio Code"), vec![Step::Click(ch('2'))]);
    assert_eq!(pick("(unclosed"), vec![Step::Click(ch('3'))]);
    assert!(AppConfig { application_profiles: vec![] }.resolve("x").is_none());
}

#[test]
fn first_match_skips_misses_and_bad_patterns() {
    assert_eq!(first_match(&vec![None, Some(false), Some(true), Some(true)]), Some(2));
    assert_eq!(first_match(&vec![None, Some(false)]), None);
    assert_eq!(first_match(&vec![]), None);
    assert_eq!(first_match(&vec![Some(true)]), Some(0));
}

#[test]
fn release_complement_skips_self_released_keys() {
    let ops = vec![press("a"), press("b"), release("a"), tap("c"), Operation::Delay { ms: 3 }];
    assert_eq!(plan_release_complement(&ops), vec![Step::Release(ch('b'))]);
    let twice = vec![press("a"), press("a"), release("a")];
    assert_eq!(plan_release_complement(&twice), vec![Step::Release(ch('a'))]);
    let order = vec![press("x"), press("y"), press("z"), release("y")];
    assert_eq!(
        plan_release_complement(&order),
        vec![Step::Release(ch('z')), Step::Release(ch('x'))]
    );
    assert_eq!(plan_release_complement(&vec![release("a"), press("a")]), vec![Step::Release(ch('a'))]);
}

#[test]
fn held_buttons_are_modifiers() {
    let mut state = initial();
    state.buttons[4] = ButtonState::Held { pressed_at: 0 };
    state.buttons[7] = ButtonState::Held { pressed_at: 1 };
    let t = trigger_for(&state, Action::ButtonPress { id: 7 });
    assert_eq!(
        t,
        KeyCombination { modifiers: Some(HashSet::from_iter(vec![4])), action: Action::ButtonPress { id: 7 } }
    );
    let e = trigger_for(&state, Action::EncoderIncrement { id: 0 });
    assert_eq!(e.serialize().unwrap(), "BTN_4+BTN_7+ENC_0_INC");
    let alone = trigger_for(&initial(), Action::ButtonPress { id: 2 });
    assert_eq!(alone, KeyCombination { modifiers: None, action: Action::ButtonPress { id: 2 } });
}

#[test]
fn modifier_binding_fires_only_with_its_modifier() {
    let chord = KeyCombination::deserialize("BTN_4+BTN_7").unwrap();
    let config = single_profile(
        "",
        vec![
            (chord, program(vec![tap("c")])),
            on(Action::ButtonPress { id: 7 }, program(vec![tap("p")])),
        ],
    );
    // Button 4 down, then 7 down while 4 is held, then both up.
    let chord_steps = synthesized(&config, "any", &[[0b1_0000, 0], [0b1001_0000, 0], [0, 0]]);
    assert_eq!(chord_steps, vec![Step::Click(ch('c'))]);
    let plain_steps = synthesized(&config, "any", &[[0b1000_0000, 0], [0, 0]]);
    assert_eq!(plain_steps, vec![Step::Click(ch('p'))]);
}

#[test]
fn unbound_and_no_event_do_nothing() {
    let profile = ApplicationProfile {
        bindings: vec![on(Action::ButtonPress { id: 0 }, program(vec![press("a")]))],
    };
    let s = initial();
    assert!(matches!(perform_action(Some(&profile), &s, Action::ButtonPress { id: 1 }), Reaction::Nothing));
    assert!(matches!(perform_action(Some(&profile), &s, Action::NoEvent), Reaction::Nothing));
    assert!(matches!(perform_action(None, &s, Action::ButtonPress { id: 0 }), Reaction::Nothing));
    let empty = Command { display_name: "empty".to_string(), operations: None, radial_menu_items: None };
    assert!(matches!(handle_command(&empty), Reaction::Nothing));
}

#[test]
fn first_binding_wins() {
    let profile = ApplicationProfile {
        bindings: vec![
            on(Action::EncoderDecrement { id: 0 }, program(vec![tap("1")])),
            on(Action::EncoderDecrement { id: 0 }, program(vec![tap("2")])),
        ],
    };
    let trigger = KeyCombination { modifiers: None, action: Action::EncoderDecrement { id: 0 } };
    let command = profile.get_binding(&trigger).unwrap();
    assert_eq!(steps(&handle_command(command)), vec![Step::Click(ch('1'))]);
    let other = KeyCombination { modifiers: Some(HashSet::new()), action: Action::EncoderDecrement { id: 0 } };
    assert!(profile.get_binding(&other).is_none());
}
