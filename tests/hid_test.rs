use macropad_console::config::Action;
use macropad_console::hid::{handle_report, is_macropad, PRODUCT_ID, USAGE, USAGE_PAGE, VENDOR_ID};
use macropad_console::macropad_state::{ButtonState, MacropadState};
use macropad_console::window::window_title_changed;

fn initial() -> MacropadState {
    MacropadState {
        buttons: [ButtonState::Released; 12],
        encoders: [0; 1],
    }
}

fn run(reports: &[[u8; 2]]) -> Vec<Action> {
    let mut state = initial();
    let mut all = Vec::new();
    for (t, report) in reports.iter().enumerate() {
        let (next, events) = handle_report(state, *report, t as u64);
        state = next;
        all.extend(events);
    }
    all
}

fn button_report(i: usize, down: bool) -> [u8; 2] {
    if !down {
        [0, 0]
    } else if i < 8 {
        [1 << i, 0]
    } else {
        [0, 1 << (i - 8)]
    }
}

fn encoder_report(delta: i8) -> [u8; 2] {
    let raw: u8 = match delta {
        1 => 0b01,
        -1 => 0b11,
        _ => 0b00,
    };
    [0, raw << 4]
}

#[test]
fn raw_bytes_press_then_release_button_zero() {
    let events = run(&[[0b00000001, 0b00000000], [0b00000000, 0b00000000]]);
    assert_eq!(
        events,
        vec![Action::ButtonPress { id: 0 }, Action::ButtonRelease { id: 0 }]
    );
}

#[test]
fn every_button_pressed_and_released_once() {
    for i in 0..12 {
        let events = run(&[
            button_report(i, false),
            button_report(i, true),
            button_report(i, false),
        ]);
        assert_eq!(
            events,
            vec![
                Action::ButtonPress { id: i as u8 },
                Action::ButtonRelease { id: i as u8 }
            ],
            "button {}",
            i
        );
    }
}

#[test]
fn holding_a_button_emits_no_repeat() {
    let events = run(&[[0b100, 0], [0b100, 0], [0b100, 0], [0, 0]]);
    assert_eq!(
        events,
        vec![Action::ButtonPress { id: 2 }, Action::ButtonRelease { id: 2 }]
    );
}

#[test]
fn press_records_the_time_and_release_clears_it() {
    let (held, _) = handle_report(initial(), [0, 0b0100], 42);
    assert_eq!(held.buttons[10], ButtonState::Held { pressed_at: 42 });
    let (still, events) = handle_report(held, [0, 0b0100], 99);
    assert_eq!(still.buttons[10], ButtonState::Held { pressed_at: 42 });
    assert!(events.is_empty());
    let (up, _) = handle_report(still, [0, 0], 100);
    assert_eq!(up.buttons[10], ButtonState::Released);
}

#[test]
fn encoder_tick_then_back_then_opposite_tick() {
    let events = run(&[
        encoder_report(0),
        encoder_report(1),
        encoder_report(0),
        encoder_report(-1),
    ]);
    assert_eq!(
        events,
        vec![Action::EncoderIncrement { id: 0 }, Action::EncoderDecrement { id: 0 }]
    );
}

#[test]
fn sustained_encoder_delta_counts_once() {
    let events = run(&[
        encoder_report(0),
        encoder_report(1),
        encoder_report(1),
        encoder_report(0),
    ]);
    assert_eq!(events, vec![Action::EncoderIncrement { id: 0 }]);
}

#[test]
fn invalid_encoder_value_reads_as_zero() {
    let (state, events) = handle_report(initial(), [0, 0b10 << 4], 0);
    assert!(events.is_empty());
    assert_eq!(state.encoders[0], 0);
    let (_, events) = handle_report(state, [0, 0b01 << 4], 1);
    assert_eq!(events, vec![Action::EncoderIncrement { id: 0 }]);
}

#[test]
fn every_changed_channel_reports_in_one_call() {
    let mut state = initial();
    state.buttons[1] = ButtonState::Held { pressed_at: 0 };
    let (next, events) = handle_report(state, [0b0000_0001, 0b0001_1000], 5);
    assert_eq!(
        events,
        vec![
            Action::ButtonPress { id: 0 },
            Action::ButtonRelease { id: 1 },
            Action::ButtonPress { id: 11 },
            Action::EncoderIncrement { id: 0 },
        ]
    );
    assert_eq!(next.encoders[0], 1);
    assert_eq!(next.buttons[11], ButtonState::Held { pressed_at: 5 });
}

#[test]
fn upper_nibble_bits_are_not_buttons() {
    let (_, events) = handle_report(initial(), [0, 0b1100_0000], 0);
    assert!(events.is_empty());
}

#[test]
fn macropad_identifiers() {
    assert!(is_macropad(VENDOR_ID, PRODUCT_ID, USAGE_PAGE, USAGE));
    assert!(is_macropad(0x1209, 0x0001, 0xFF, 0x01));
    assert!(!is_macropad(0x1209, 0x0002, 0xFF, 0x01));
    assert!(!is_macropad(0x1209, 0x0001, 0xFF, 0x02));
}

#[test]
fn window_title_change_detection() {
    assert!(!window_title_changed("Editor", "Editor"));
    assert!(window_title_changed("Editor", "Editor - file.rs"));
    assert!(window_title_changed("", "x"));
    assert!(!window_title_changed("", ""));
}

#[test]
fn presses_and_releases_alternate_over_a_long_run() {
    let mut seed: u32 = 12345;
    let mut reports = Vec::new();
    for _ in 0..500 {
        seed = seed.wrapping_mul(1103515245).wrapping_add(12345);
        let bits = (seed >> 8) as u16;
        reports.push([bits as u8, (bits >> 8) as u8]);
    }
    let events = run(&reports);
    for id in 0..12u8 {
        let channel: Vec<Action> = events
            .iter()
            .copied()
            .filter(|a| *a == Action::ButtonPress { id } || *a == Action::ButtonRelease { id })
            .collect();
        assert!(!channel.is_empty());
        for (k, a) in channel.iter().enumerate() {
            let expected = if k % 2 == 0 {
                Action::ButtonPress { id }
            } else {
                Action::ButtonRelease { id }
            };
            assert_eq!(*a, expected, "button {} event {}", id, k);
        }
    }
}
