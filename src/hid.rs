use vstd::prelude::*;
use crate::config::Action;
use crate::macropad_state::{ButtonState, MacropadState};

verus! {

pub const VENDOR_ID: u16 = 0x1209;
pub const PRODUCT_ID: u16 = 0x001;
pub const USAGE_PAGE: u16 = 0xFF;
pub const USAGE: u16 = 0x01;

/// Whether a HID interface with these identifiers is the macropad.
pub fn is_macropad(vendor_id: u16, product_id: u16, usage_page: u16, usage: u16) -> (r: bool)
    ensures
        r == (vendor_id == VENDOR_ID && product_id == PRODUCT_ID && usage_page == USAGE_PAGE
            && usage == USAGE),
{
    vendor_id == VENDOR_ID && product_id == PRODUCT_ID && usage_page == USAGE_PAGE && usage == USAGE
}

/// Number of buttons on the pad.
pub const BUTTON_COUNT: usize = 12;

/// The 16-bit word whose low twelve bits are the button states.
pub open spec fn button_mask(report: [u8; 2]) -> u16 {
    ((report@[1] as u16) << 8u16) | (report@[0] as u16)
}

/// Whether the report shows button `i` down.
pub open spec fn button_down(report: [u8; 2], i: int) -> bool {
    button_mask(report) & (1u16 << (i as u16)) != 0
}

/// The encoder's raw two-bit field (bits 4 and 5 of the second byte).
pub open spec fn encoder_raw(report: [u8; 2]) -> u8 {
    (report@[1] >> 4u8) & 3u8
}

/// Decodes a raw two-bit encoder field: `01` is +1, `11` is -1, and both
/// `00` and the invalid `10` are 0.
pub open spec fn encoder_delta(raw: u8) -> i8 {
    if raw == 1 {
        1
    } else if raw == 3 {
        -1i8
    } else {
        0
    }
}

/// A button's state after a report that shows it `down` (or not).
pub open spec fn next_button(prev: ButtonState, down: bool, now: u64) -> ButtonState {
    match prev {
        ButtonState::Released => if down {
            ButtonState::Held { pressed_at: now }
        } else {
            ButtonState::Released
        },
        ButtonState::Held { .. } => if down {
            prev
        } else {
            ButtonState::Released
        },
    }
}

/// The event, if any, for one button's transition.
pub open spec fn button_event(prev: ButtonState, down: bool, id: u8) -> Seq<Action> {
    if prev is Released && down {
        seq![Action::ButtonPress { id }]
    } else if prev is Held && !down {
        seq![Action::ButtonRelease { id }]
    } else {
        seq![]
    }
}

/// Events of buttons `0 .. n`, in id order.
pub open spec fn button_events(state: MacropadState, report: [u8; 2], n: nat) -> Seq<Action>
    decreases n,
{
    if n == 0 {
        seq![]
    } else {
        let i = (n - 1) as nat;
        button_events(state, report, i) + button_event(
            state.buttons@[i as int],
            button_down(report, i as int),
            i as u8,
        )
    }
}

/// The event, if any, for one encoder: only a move away from a zero delta
/// counts.
pub open spec fn encoder_event(prev: i8, delta: i8, id: u8) -> Seq<Action> {
    if prev == 0 && delta == 1 {
        seq![Action::EncoderIncrement { id }]
    } else if prev == 0 && delta == -1 {
        seq![Action::EncoderDecrement { id }]
    } else {
        seq![]
    }
}

/// All events that one report produces from `state`: buttons first, by id,
/// then the encoder.
pub open spec fn report_events(state: MacropadState, report: [u8; 2]) -> Seq<Action> {
    button_events(state, report, 12) + encoder_event(
        state.encoders@[0],
        encoder_delta(encoder_raw(report)),
        0,
    )
}

/// `next` is the state that follows `state` after `report` arrives at `now`.
pub open spec fn is_next_state(state: MacropadState, report: [u8; 2], now: u64, next: MacropadState) -> bool {
    &&& forall|i: int|
        0 <= i < 12 ==> #[trigger] next.buttons@[i] == next_button(
            state.buttons@[i],
            button_down(report, i),
            now,
        )
    &&& next.encoders@[0] == encoder_delta(encoder_raw(report))
}

/// Whether `a` is a press or release of button `id`.
pub open spec fn concerns_button(a: Action, id: u8) -> bool {
    a == Action::ButtonPress { id } || a == Action::ButtonRelease { id }
}

/// The events of `events` that concern button `id`, in order.
pub open spec fn button_channel(events: Seq<Action>, id: u8) -> Seq<Action>
    decreases events.len(),
{
    if events.len() == 0 {
        seq![]
    } else {
        let rest = button_channel(events.drop_last(), id);
        if concerns_button(events.last(), id) {
            rest.push(events.last())
        } else {
            rest
        }
    }
}

proof fn lemma_channel_add(a: Seq<Action>, b: Seq<Action>, id: u8)
    ensures
        button_channel(a + b, id) == button_channel(a, id) + button_channel(b, id),
    decreases b.len(),
{
    if b.len() == 0 {
        assert(a + b =~= a);
    } else {
        assert((a + b).drop_last() =~= a + b.drop_last());
        lemma_channel_add(a, b.drop_last(), id);
    }
}

proof fn lemma_channel_small(events: Seq<Action>, id: u8)
    requires
        events.len() <= 1,
    ensures
        button_channel(events, id) == if events.len() == 1 && concerns_button(events[0], id) {
            events
        } else {
            seq![]
        },
{
    if events.len() == 1 {
        assert(events.drop_last() =~= seq![]);
        assert(button_channel(events.drop_last(), id) == Seq::<Action>::empty());
        assert(seq![].push(events[0]) =~= events);
    }
}

proof fn lemma_channel_of_buttons(state: MacropadState, report: [u8; 2], n: nat, id: u8)
    requires
        n <= 12,
        id < 12,
    ensures
        button_channel(button_events(state, report, n), id) == if id < n {
            button_event(state.buttons@[id as int], button_down(report, id as int), id)
        } else {
            seq![]
        },
    decreases n,
{
    if n > 0 {
        let i = (n - 1) as nat;
        let ev = button_event(state.buttons@[i as int], button_down(report, i as int), i as u8);
        lemma_channel_of_buttons(state, report, i, id);
        lemma_channel_add(button_events(state, report, i), ev, id);
        lemma_channel_small(ev, id);
    }
}

proof fn lemma_channel_of_report(state: MacropadState, report: [u8; 2], id: u8)
    requires
        id < 12,
    ensures
        button_channel(report_events(state, report), id) == button_event(
            state.buttons@[id as int],
            button_down(report, id as int),
            id,
        ),
{
    let enc = encoder_event(state.encoders@[0], encoder_delta(encoder_raw(report)), 0);
    lemma_channel_of_buttons(state, report, 12, id);
    lemma_channel_add(button_events(state, report, 12), enc, id);
    lemma_channel_small(enc, id);
    let ev = button_event(state.buttons@[id as int], button_down(report, id as int), id);
    lemma_channel_small(ev, id);
}

/// A button that is up, then shown down, then shown up again over three
/// consecutive reports yields exactly one press followed by one release of
/// that button, and no other event for it.
pub proof fn lemma_press_then_release(
    s0: MacropadState,
    s1: MacropadState,
    s2: MacropadState,
    s3: MacropadState,
    r0: [u8; 2],
    r1: [u8; 2],
    r2: [u8; 2],
    t0: u64,
    t1: u64,
    t2: u64,
    id: u8,
)
    requires
        id < 12,
        s0.buttons@[id as int] is Released,
        !button_down(r0, id as int),
        button_down(r1, id as int),
        !button_down(r2, id as int),
        is_next_state(s0, r0, t0, s1),
        is_next_state(s1, r1, t1, s2),
        is_next_state(s2, r2, t2, s3),
    ensures
        button_channel(
            report_events(s0, r0) + report_events(s1, r1) + report_events(s2, r2),
            id,
        ) == seq![Action::ButtonPress { id }, Action::ButtonRelease { id }],
{
    let e0 = report_events(s0, r0);
    let e1 = report_events(s1, r1);
    let e2 = report_events(s2, r2);
    lemma_channel_of_report(s0, r0, id);
    lemma_channel_of_report(s1, r1, id);
    lemma_channel_of_report(s2, r2, id);
    assert(s1.buttons@[id as int] is Released);
    assert(s2.buttons@[id as int] is Held);
    lemma_channel_add(e0 + e1, e2, id);
    lemma_channel_add(e0, e1, id);
    assert(button_channel(e0 + e1 + e2, id) =~= seq![
        Action::ButtonPress { id },
        Action::ButtonRelease { id },
    ]);
}

/// `events` alternates presses and releases of button `id`, beginning with
/// a press when `starts_up`, else with a release.
pub open spec fn alternates(events: Seq<Action>, id: u8, starts_up: bool) -> bool {
    forall|k: int|
        0 <= k < events.len() ==> #[trigger] events[k] == if (k % 2 == 0) == starts_up {
            Action::ButtonPress { id }
        } else {
            Action::ButtonRelease { id }
        }
}

/// The events of `reports` in turn, report `k` read against `states[k]`.
pub open spec fn trace_events(states: Seq<MacropadState>, reports: Seq<[u8; 2]>) -> Seq<Action>
    decreases reports.len(),
{
    if reports.len() == 0 {
        seq![]
    } else {
        trace_events(states, reports.drop_last()) + report_events(
            states[reports.len() - 1],
            reports.last(),
        )
    }
}

/// Over any run of reports, the presses and releases of one button strictly
/// alternate: never two presses or two releases in a row, and the first is
/// a press when the button started up. The button is up at the end exactly
/// when it started up and an even number of its events came.
pub proof fn lemma_presses_and_releases_alternate(
    states: Seq<MacropadState>,
    reports: Seq<[u8; 2]>,
    times: Seq<u64>,
    id: u8,
)
    requires
        id < 12,
        states.len() == reports.len() + 1,
        times.len() == reports.len(),
        forall|k: int|
            0 <= k < reports.len() ==> is_next_state(
                #[trigger] states[k],
                reports[k],
                times[k],
                states[k + 1],
            ),
    ensures
        ({
            let channel = button_channel(trace_events(states, reports), id);
            let starts_up = states[0].buttons@[id as int] is Released;
            &&& alternates(channel, id, starts_up)
            &&& (states[reports.len() as int].buttons@[id as int] is Released) == ((channel.len()
                % 2 == 0) == starts_up)
        }),
    decreases reports.len(),
{
    let n = reports.len();
    if n > 0 {
        let m = (n - 1) as int;
        let init = reports.drop_last();
        let prev_states = states.subrange(0, n as int);
        assert forall|k: int| 0 <= k < init.len() implies is_next_state(
            #[trigger] prev_states[k],
            init[k],
            times.drop_last()[k],
            prev_states[k + 1],
        ) by {
            assert(is_next_state(states[k], reports[k], times[k], states[k + 1]));
        }
        lemma_presses_and_releases_alternate(prev_states, init, times.drop_last(), id);
        lemma_trace_prefix(states, prev_states, init);
        let before = button_channel(trace_events(states, init), id);
        let ev = report_events(states[m], reports[m]);
        lemma_channel_add(trace_events(states, init), ev, id);
        lemma_channel_of_report(states[m], reports[m], id);
        assert(is_next_state(states[m], reports[m], times[m], states[m + 1]));
        let step = button_event(states[m].buttons@[id as int], button_down(reports[m], id as int), id);
        let channel = before + step;
        let starts_up = states[0].buttons@[id as int] is Released;
        assert(alternates(channel, id, starts_up)) by {
            assert forall|k: int| 0 <= k < channel.len() implies #[trigger] channel[k] == if (k % 2
                == 0) == starts_up {
                Action::ButtonPress { id }
            } else {
                Action::ButtonRelease { id }
            } by {
                if k < before.len() {
                    assert(channel[k] == before[k]);
                }
            }
        }
    }
}

proof fn lemma_trace_prefix(states: Seq<MacropadState>, prefix: Seq<MacropadState>, reports: Seq<[u8; 2]>)
    requires
        reports.len() <= prefix.len() <= states.len(),
        forall|k: int| 0 <= k < prefix.len() ==> prefix[k] == states[k],
    ensures
        trace_events(prefix, reports) == trace_events(states, reports),
    decreases reports.len(),
{
    if reports.len() > 0 {
        lemma_trace_prefix(states, prefix, reports.drop_last());
    }
}

/// Interprets one raw report against the previous state: returns the next
/// state and one event per button or encoder that changed, buttons first in
/// id order. `now` is the time stamp recorded for newly pressed buttons.
pub fn handle_report(macropad_state: MacropadState, report: [u8; 2], now: u64) -> (r: (
    MacropadState,
    Vec<Action>,
))
    ensures
        is_next_state(macropad_state, report, now, r.0),
        r.1@ == report_events(macropad_state, report),
{
    let buttons: u16 = ((report[1] as u16) << 8u16) | (report[0] as u16);
    let raw: u8 = (report[1] >> 4u8) & 3u8;
    let delta: i8 = if raw == 1 {
        1
    } else if raw == 3 {
        -1
    } else {
        0
    };

    let mut next = macropad_state;
    let mut events: Vec<Action> = Vec::new();
    let mut i: usize = 0;
    while i < BUTTON_COUNT
        invariant
            i <= 12,
            buttons == button_mask(report),
            next.encoders == macropad_state.encoders,
            forall|j: int|
                0 <= j < i ==> #[trigger] next.buttons@[j] == next_button(
                    macropad_state.buttons@[j],
                    button_down(report, j),
                    now,
                ),
            forall|j: int| i <= j < 12 ==> #[trigger] next.buttons@[j] == macropad_state.buttons@[j],
            events@ == button_events(macropad_state, report, i as nat),
        decreases 12 - i,
    {
        let down = (buttons & (1u16 << (i as u16))) != 0;
        match macropad_state.buttons[i] {
            ButtonState::Released => {
                if down {
                    next.buttons[i] = ButtonState::Held { pressed_at: now };
                    events.push(Action::ButtonPress { id: i as u8 });
                }
            },
            ButtonState::Held { .. } => {
                if !down {
                    next.buttons[i] = ButtonState::Released;
                    events.push(Action::ButtonRelease { id: i as u8 });
                }
            },
        }
        i = i + 1;
    }

    if macropad_state.encoders[0] == 0 {
        if delta == 1 {
            events.push(Action::EncoderIncrement { id: 0 });
        } else if delta == -1 {
            events.push(Action::EncoderDecrement { id: 0 });
        }
    }
    next.encoders[0] = delta;
    (next, events)
}

} // verus!
