use std::collections::HashSet;

use macropad_console::config::{Action, KeyCombination, KeyCombinationError};

fn combo(modifiers: Option<Vec<u8>>, action: Action) -> KeyCombination {
    KeyCombination {
        modifiers: modifiers.map(HashSet::from_iter),
        action,
    }
}

fn assert_round_trip(c: &KeyCombination, expected: &str) {
    assert_eq!(c.serialize().unwrap(), expected);
    assert_eq!(&KeyCombination::deserialize(expected).unwrap(), c);
}

#[test]
fn test_ser_de_key_combination() {
    let expected = "BTN_4+ENC_0_INC";
    let c = KeyCombination {
        modifiers: Some(HashSet::from_iter(vec![4])),
        action: Action::EncoderIncrement { id: 0 },
    };
    assert_round_trip(&c, expected);
}

#[test]
fn test_ser_de_key_combination_button_press() {
    assert_round_trip(&combo(None, Action::ButtonPress { id: 0 }), "BTN_0");
}

#[test]
fn test_ser_de_key_combination_button_press_10() {
    assert_round_trip(&combo(None, Action::ButtonPress { id: 10 }), "BTN_10");
}

#[test]
fn test_ser_de_key_combination_encoder_increment() {
    assert_round_trip(&combo(None, Action::EncoderIncrement { id: 0 }), "ENC_0_INC");
}

#[test]
fn test_ser_de_key_combination_encoder_decrement() {
    assert_round_trip(&combo(None, Action::EncoderDecrement { id: 0 }), "ENC_0_DEC");
}

#[test]
fn test_ser_de_key_combination_two_modifiers_btn_press() {
    assert_round_trip(
        &combo(Some(vec![4, 8]), Action::ButtonPress { id: 7 }),
        "BTN_4+BTN_8+BTN_7",
    );
}

#[test]
fn test_key_combination_eq() {
    let l = KeyCombination {
        modifiers: Some(HashSet::from_iter(vec![4, 8])),
        action: Action::ButtonPress { id: 7 },
    };
    let r = KeyCombination::deserialize("BTN_4+BTN_8+BTN_7").unwrap();
    assert_eq!(l, r);
}

#[test]
fn test_key_combination_eq_button_press() {
    let l = combo(None, Action::ButtonPress { id: 0 });
    assert_eq!(l, KeyCombination::deserialize("BTN_0").unwrap());
}

#[test]
fn test_key_combination_eq_encoder_increment() {
    let l = combo(None, Action::EncoderIncrement { id: 0 });
    assert_eq!(l, KeyCombination::deserialize("ENC_0_INC").unwrap());
}

#[test]
fn test_key_combination_eq_encoder_decrement() {
    let l = combo(None, Action::EncoderDecrement { id: 0 });
    assert_eq!(l, KeyCombination::deserialize("ENC_0_DEC").unwrap());
}

#[test]
fn test_key_combination_eq_two_modifiers_unordered_btn_press() {
    let l = combo(Some(vec![4, 8]), Action::ButtonPress { id: 7 });
    assert_eq!(l, KeyCombination::deserialize("BTN_8+BTN_4+BTN_7").unwrap());
}

#[test]
fn modifiers_serialize_sorted_whatever_the_insertion_order() {
    let a = combo(Some(vec![8, 4]), Action::ButtonPress { id: 7 });
    let b = combo(Some(vec![4, 8]), Action::ButtonPress { id: 7 });
    assert_eq!(a.serialize().unwrap(), "BTN_4+BTN_8+BTN_7");
    assert_eq!(a.serialize().unwrap(), b.serialize().unwrap());
    assert_eq!(a, b);
}

#[test]
fn round_trip_of_large_ids_and_many_modifiers() {
    let c = combo(Some(vec![255, 0, 100, 11]), Action::EncoderDecrement { id: 200 });
    let text = c.serialize().unwrap();
    assert_eq!(text, "BTN_0+BTN_11+BTN_100+BTN_255+ENC_200_DEC");
    assert_eq!(KeyCombination::deserialize(&text).unwrap(), c);
}

#[test]
fn empty_modifier_set_is_not_no_modifiers() {
    let empty = combo(Some(vec![]), Action::ButtonPress { id: 1 });
    let none = combo(None, Action::ButtonPress { id: 1 });
    assert_ne!(empty, none);
    assert_eq!(empty.serialize().unwrap(), "BTN_1");
    assert_eq!(KeyCombination::deserialize("BTN_1").unwrap(), none);
}

#[test]
fn duplicate_modifiers_collapse_into_the_set() {
    let c = KeyCombination::deserialize("BTN_3+BTN_3+ENC_0_INC").unwrap();
    assert_eq!(c, combo(Some(vec![3]), Action::EncoderIncrement { id: 0 }));
}

#[test]
fn leading_zeros_are_accepted() {
    let c = KeyCombination::deserialize("BTN_007").unwrap();
    assert_eq!(c, combo(None, Action::ButtonPress { id: 7 }));
}

#[test]
fn release_and_no_event_have_no_text_form() {
    let release = combo(None, Action::ButtonRelease { id: 1 });
    let nothing = combo(Some(vec![2]), Action::NoEvent);
    assert_eq!(release.serialize(), Err(KeyCombinationError::InvalidAction));
    assert_eq!(nothing.serialize(), Err(KeyCombinationError::InvalidAction));
}

#[test]
fn malformed_action_tokens_are_rejected() {
    for text in ["", "BTN_", "BTN_x", "BTN_256", "BTN_1+", "ENC_0_UP", "ENC_0", "KEY_1", "BTN_1_2", "btn_1"] {
        assert_eq!(
            KeyCombination::deserialize(text),
            Err(KeyCombinationError::InvalidAction),
            "{}",
            text
        );
    }
}

#[test]
fn malformed_modifier_tokens_are_rejected() {
    for text in ["ENC_0_INC+BTN_1", "BTN_x+BTN_1", "+BTN_1", "BTN_300+BTN_1", "BTN_1++BTN_2"] {
        assert_eq!(
            KeyCombination::deserialize(text),
            Err(KeyCombinationError::InvalidKey),
            "{}",
            text
        );
    }
}
