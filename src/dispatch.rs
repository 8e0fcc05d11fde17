use vstd::prelude::*;
use std::collections::HashSet;
use crate::config::{
    binding_index, Action, AppConfig, ApplicationProfile, Command, Operation, RadialMenuItem,
};
use crate::hid::{is_next_state, handle_report, report_events};
use crate::key_combination::{KeyCombination, KeyCombinationView};
use crate::keys::{key_code, key_code_of, KeyCode};
use crate::macropad_state::MacropadState;

verus! {

/// One call into the key synthesis backend, or a pause.
#[derive(Clone, Copy, Debug, PartialEq, Eq, Structural)]
pub enum Step {
    Press(KeyCode),
    Release(KeyCode),
    /// Press, then release.
    Click(KeyCode),
    /// Sleep this many milliseconds before the next step.
    Delay(u64),
}

/// Which kind of key step to make: press, release, or click.
pub const PRESS: u8 = 0;
pub const RELEASE: u8 = 1;
pub const CLICK: u8 = 2;

/// The step of the given kind for a key name, if the name stands for a key.
pub open spec fn key_step(key: Seq<char>, kind: u8) -> Seq<Step> {
    match key_code_of(key) {
        Some(c) => seq![
            if kind == PRESS {
                Step::Press(c)
            } else if kind == RELEASE {
                Step::Release(c)
            } else {
                Step::Click(c)
            },
        ],
        None => seq![],
    }
}

/// Presses of `keys`, in order.
pub open spec fn macro_presses(keys: Seq<String>) -> Seq<Step>
    decreases keys.len(),
{
    if keys.len() == 0 {
        seq![]
    } else {
        macro_presses(keys.drop_last()) + key_step(keys.last()@, PRESS)
    }
}

/// Releases of `keys`, last key first.
pub open spec fn macro_releases(keys: Seq<String>) -> Seq<Step>
    decreases keys.len(),
{
    if keys.len() == 0 {
        seq![]
    } else {
        key_step(keys.last()@, RELEASE) + macro_releases(keys.drop_last())
    }
}

/// `s` repeated `n` times.
pub open spec fn repeated(s: Seq<Step>, n: nat) -> Seq<Step>
    decreases n,
{
    if n == 0 {
        seq![]
    } else {
        repeated(s, (n - 1) as nat) + s
    }
}

/// The steps a program performs, in order.
pub open spec fn program_steps(ops: Seq<Operation>) -> Seq<Step>
    decreases ops,
{
    if ops.len() == 0 {
        seq![]
    } else {
        let last = ops[ops.len() - 1];
        program_steps(ops.subrange(0, ops.len() - 1)) + match last {
            Operation::KeyPress { key } => key_step(key@, PRESS),
            Operation::KeyRelease { key } => key_step(key@, RELEASE),
            Operation::KeyTap { key } => key_step(key@, CLICK),
            Operation::Delay { ms } => seq![Step::Delay(ms)],
            Operation::Repeat { times, operations } => repeated(
                program_steps(operations@),
                times as nat,
            ),
            Operation::NoOp => seq![],
            Operation::MacroTap { actions } => macro_presses(actions@) + macro_releases(
                actions@,
            ),
        }
    }
}

fn push_key_step(out: &mut Vec<Step>, key: &String, kind: u8)
    requires
        kind <= CLICK,
    ensures
        final(out)@ == old(out)@ + key_step(key@, kind),
{
    match key_code(key.as_str()) {
        Some(c) => {
            let step = if kind == PRESS {
                Step::Press(c)
            } else if kind == RELEASE {
                Step::Release(c)
            } else {
                Step::Click(c)
            };
            out.push(step);
        },
        None => {},
    }
    assert(final(out)@ =~= old(out)@ + key_step(key@, kind));
}

fn plan_macro(actions: &Vec<String>, out: &mut Vec<Step>)
    ensures
        final(out)@ == old(out)@ + macro_presses(actions@) + macro_releases(actions@),
{
    let ghost base = out@;
    let mut j: usize = 0;
    while j < actions.len()
        invariant
            j <= actions.len(),
            out@ == base + macro_presses(actions@.subrange(0, j as int)),
        decreases actions.len() - j,
    {
        assert(actions@.subrange(0, j + 1).drop_last() =~= actions@.subrange(0, j as int));
        push_key_step(out, &actions[j], PRESS);
        assert(out@ =~= base + macro_presses(actions@.subrange(0, j + 1)));
        j = j + 1;
    }
    assert(actions@.subrange(0, j as int) =~= actions@);
    let ghost mid = out@;
    assert(actions@.subrange(0, actions.len() as int) =~= actions@);
    assert(macro_releases(actions@.subrange(0, 0)) =~= Seq::<Step>::empty());
    let mut j: usize = actions.len();
    while j > 0
        invariant
            j <= actions.len(),
            mid + macro_releases(actions@) == out@ + macro_releases(actions@.subrange(0, j as int)),
        decreases j,
    {
        let ghost before = out@;
        assert(actions@.subrange(0, j as int).drop_last() =~= actions@.subrange(0, j - 1));
        push_key_step(out, &actions[j - 1], RELEASE);
        assert(before + macro_releases(actions@.subrange(0, j as int)) =~= out@
            + macro_releases(actions@.subrange(0, j - 1)));
        j = j - 1;
    }
    assert(out@ + macro_releases(actions@.subrange(0, 0)) =~= out@);
}

/// Appends the steps of a program to `out`, as [`program_steps`] says:
/// key operations become one step each, a delay becomes a pause, a repeat
/// runs its body `times` times, and a macro tap presses its keys in order
/// and releases them in reverse.
pub fn plan_operations(operations: &Vec<Operation>, out: &mut Vec<Step>)
    ensures
        final(out)@ == old(out)@ + program_steps(operations@),
    decreases operations,
{
    let ghost base = out@;
    let mut i: usize = 0;
    while i < operations.len()
        invariant
            i <= operations.len(),
            out@ == base + program_steps(operations@.subrange(0, i as int)),
        decreases operations.len() - i,
    {
        let ghost before = out@;
        let ghost done = operations@.subrange(0, i as int);
        assert(operations@.subrange(0, i + 1).subrange(0, i as int) =~= done);
        assert(operations@.subrange(0, i + 1)[i as int] == operations@[i as int]);
        match &operations[i] {
            Operation::KeyPress { key } => push_key_step(out, key, PRESS),
            Operation::KeyRelease { key } => push_key_step(out, key, RELEASE),
            Operation::KeyTap { key } => push_key_step(out, key, CLICK),
            Operation::Delay { ms } => out.push(Step::Delay(*ms)),
            Operation::Repeat { times, operations: inner } => {
                proof {
                    broadcast use vstd::std_specs::vec::axiom_vec_decreases_to_view;

                    assert(decreases_to!(*operations => operations@));
                    assert(decreases_to!(operations@ => operations@[i as int]));
                    assert(decreases_to!(operations@[i as int] => *inner));
                }
                let mut k: u64 = 0;
                while k < *times
                    invariant
                        decreases_to!(*operations => *inner),
                        k <= *times,
                        out@ == before + repeated(program_steps(inner@), k as nat),
                    decreases *times - k,
                {
                    plan_operations(inner, out);
                    assert(out@ =~= before + repeated(program_steps(inner@), (k + 1) as nat));
                    k = k + 1;
                }
            },
            Operation::NoOp => {},
            Operation::MacroTap { actions } => plan_macro(actions, out),
        }
        assert(out@ =~= base + program_steps(operations@.subrange(0, i + 1)));
        i = i + 1;
    }
    assert(operations@.subrange(0, i as int) =~= operations@);
}

/// The releases still owed when a button is let go, scanning `ops[0 .. n]`
/// from the end: a `KeyRelease` marks its key as satisfied; a `KeyPress`
/// of a satisfied key uses that mark up, and a `KeyPress` of any other key
/// is owed a release at once.
pub open spec fn complement_steps(ops: Seq<Operation>, n: nat, satisfied: Set<Seq<char>>) -> Seq<Step>
    decreases n,
{
    if n == 0 {
        seq![]
    } else {
        let k = (n - 1) as nat;
        match ops[k as int] {
            Operation::KeyRelease { key } => complement_steps(ops, k, satisfied.insert(key@)),
            Operation::KeyPress { key } => if satisfied.contains(key@) {
                complement_steps(ops, k, satisfied.remove(key@))
            } else {
                key_step(key@, RELEASE) + complement_steps(ops, k, satisfied)
            },
            _ => complement_steps(ops, k, satisfied),
        }
    }
}

/// The release complement of a program: the releases that balance the
/// presses it leaves unreleased.
pub open spec fn release_complement(ops: Seq<Operation>) -> Seq<Step> {
    complement_steps(ops, ops.len(), Set::empty())
}

/// The key names held in `keys`.
pub open spec fn names_in(keys: Seq<String>) -> Set<Seq<char>> {
    Set::new(|k: Seq<char>| exists|j: int| 0 <= j < keys.len() && (#[trigger] keys[j])@ == k)
}

fn holds_name(keys: &Vec<String>, key: &String) -> (r: bool)
    ensures
        r == names_in(keys@).contains(key@),
{
    let mut j: usize = 0;
    while j < keys.len()
        invariant
            j <= keys.len(),
            forall|t: int| 0 <= t < j ==> (#[trigger] keys@[t])@ != key@,
        decreases keys.len() - j,
    {
        if keys[j] == *key {
            return true;
        }
        j = j + 1;
    }
    false
}

fn without_name(keys: &Vec<String>, key: &String) -> (r: Vec<String>)
    ensures
        names_in(r@) == names_in(keys@).remove(key@),
{
    let mut r: Vec<String> = Vec::new();
    let mut j: usize = 0;
    while j < keys.len()
        invariant
            j <= keys.len(),
            names_in(r@) == names_in(keys@.subrange(0, j as int)).remove(key@),
        decreases keys.len() - j,
    {
        let ghost prev = r@;
        let ghost sub = keys@.subrange(0, j as int);
        let ghost next = keys@.subrange(0, j + 1);
        assert(next =~= sub.push(keys@[j as int]));
        if keys[j] != *key {
            r.push(keys[j].clone());
            assert(r@ =~= prev.push(keys@[j as int]));
            assert(names_in(r@) =~= names_in(next).remove(key@)) by {
                assert forall|k: Seq<char>| names_in(next).remove(key@).contains(k) implies names_in(r@).contains(k) by {
                    let t = choose|t: int| 0 <= t < next.len() && (#[trigger] next[t])@ == k;
                    if t < j {
                        assert(sub[t] == next[t]);
                        assert(names_in(sub).contains(k));
                        assert(names_in(prev).contains(k));
                        let u = choose|u: int| 0 <= u < prev.len() && (#[trigger] prev[u])@ == k;
                        assert(r@[u] == prev[u]);
                    } else {
                        assert(r@[prev.len() as int] == keys@[j as int]);
                    }
                }
                assert forall|k: Seq<char>| names_in(r@).contains(k) implies names_in(next).remove(key@).contains(k) by {
                    let u = choose|u: int| 0 <= u < r@.len() && (#[trigger] r@[u])@ == k;
                    if u < prev.len() {
                        assert(prev[u] == r@[u]);
                        assert(names_in(prev).contains(k));
                        let t = choose|t: int| 0 <= t < sub.len() && (#[trigger] sub[t])@ == k;
                        assert(next[t] == sub[t]);
                    } else {
                        assert(next[j as int] == keys@[j as int]);
                    }
                }
            }
        } else {
            assert(names_in(r@) =~= names_in(next).remove(key@)) by {
                assert forall|k: Seq<char>| names_in(next).remove(key@).contains(k) implies names_in(prev).contains(k) by {
                    let t = choose|t: int| 0 <= t < next.len() && (#[trigger] next[t])@ == k;
                    assert(t < j);
                    assert(sub[t] == next[t]);
                    assert(names_in(sub).contains(k));
                }
                assert forall|k: Seq<char>| names_in(prev).contains(k) implies names_in(next).remove(key@).contains(k) by {
                    assert(names_in(sub).remove(key@).contains(k));
                    let t = choose|t: int| 0 <= t < sub.len() && (#[trigger] sub[t])@ == k;
                    assert(next[t] == sub[t]);
                }
            }
        }
        j = j + 1;
    }
    assert(keys@.subrange(0, j as int) =~= keys@);
    r
}

/// The releases owed when the button bound to `operations` is let go, as
/// [`release_complement`] says; each comes right when the backward scan
/// reaches its press.
pub fn plan_release_complement(operations: &Vec<Operation>) -> (r: Vec<Step>)
    ensures
        r@ == release_complement(operations@),
{
    let mut out: Vec<Step> = Vec::new();
    let mut satisfied: Vec<String> = Vec::new();
    let mut i: usize = operations.len();
    assert(names_in(satisfied@) =~= Set::<Seq<char>>::empty());
    while i > 0
        invariant
            i <= operations.len(),
            out@ + complement_steps(operations@, i as nat, names_in(satisfied@)) == release_complement(
                operations@,
            ),
        decreases i,
    {
        let ghost before = out@;
        let ghost sat = names_in(satisfied@);
        match &operations[i - 1] {
            Operation::KeyRelease { key } => {
                let ghost prev = satisfied@;
                satisfied.push(key.clone());
                assert(names_in(satisfied@) =~= sat.insert(key@)) by {
                    assert(satisfied@[prev.len() as int] == *key);
                    assert forall|k: Seq<char>| #[trigger] sat.contains(k) implies names_in(satisfied@).contains(k) by {
                        let t = choose|t: int| 0 <= t < prev.len() && (#[trigger] prev[t])@ == k;
                        assert(satisfied@[t] == prev[t]);
                    }
                    assert forall|k: Seq<char>| names_in(satisfied@).contains(k) implies #[trigger] sat.insert(key@).contains(k) by {
                        let t = choose|t: int| 0 <= t < satisfied@.len() && (#[trigger] satisfied@[t])@ == k;
                        if t < prev.len() {
                            assert(prev[t] == satisfied@[t]);
                        }
                    }
                }
            },
            Operation::KeyPress { key } => {
                if holds_name(&satisfied, key) {
                    satisfied = without_name(&satisfied, key);
                } else {
                    push_key_step(&mut out, key, RELEASE);
                    assert(before + (key_step(key@, RELEASE) + complement_steps(operations@, (i - 1) as nat, sat))
                        =~= out@ + complement_steps(operations@, (i - 1) as nat, sat));
                }
            },
            _ => {},
        }
        i = i - 1;
    }
    assert(out@ + complement_steps(operations@, 0, names_in(satisfied@)) =~= out@);
    out
}

/// What the dispatcher asks of the outside world for one event.
#[derive(Debug)]
pub enum Reaction<'a> {
    /// Nothing: no profile, no binding, or an empty command.
    Nothing,
    /// Run these synthesis steps in order, without interleaving.
    Synthesize(Vec<Step>),
    /// Open the radial menu with these items at the pointer.
    ShowRadialMenu(&'a Vec<RadialMenuItem>),
    /// Close the radial menu.
    HideRadialMenu,
}

/// `r` is what running command `c` asks for: its menu if it has one, else
/// its program's steps.
pub open spec fn command_reaction(c: Command, r: Reaction) -> bool {
    match c.radial_menu_items {
        Some(items) => r matches Reaction::ShowRadialMenu(shown) && *shown == items,
        None => match c.operations {
            Some(ops) => r matches Reaction::Synthesize(steps) && steps@ == program_steps(ops@),
            None => r is Nothing,
        },
    }
}

/// `r` is what letting go of the button bound to `c` asks for: closing its
/// menu if it has one, else its program's release complement.
pub open spec fn release_reaction(c: Command, r: Reaction) -> bool {
    match c.radial_menu_items {
        Some(_) => r is HideRadialMenu,
        None => match c.operations {
            Some(ops) => r matches Reaction::Synthesize(steps) && steps@ == release_complement(
                ops@,
            ),
            None => r is Nothing,
        },
    }
}

/// Runs a command: a command with menu items opens its menu and runs none
/// of its operations; otherwise its operations become synthesis steps.
pub fn handle_command(command: &Command) -> (r: Reaction<'_>)
    ensures
        command_reaction(*command, r),
{
    if let Some(items) = &command.radial_menu_items {
        Reaction::ShowRadialMenu(items)
    } else if let Some(operations) = &command.operations {
        let mut steps: Vec<Step> = Vec::new();
        plan_operations(operations, &mut steps);
        assert(steps@ =~= program_steps(operations@));
        Reaction::Synthesize(steps)
    } else {
        Reaction::Nothing
    }
}

/// The button an event is about, if any.
pub open spec fn own_button(a: Action) -> Option<u8> {
    match a {
        Action::ButtonPress { id } => Some(id),
        Action::ButtonRelease { id } => Some(id),
        _ => None,
    }
}

/// The buttons held in `state`, other than the one `a` is about.
pub open spec fn held_modifiers(state: MacropadState, a: Action) -> Set<u8> {
    Set::new(
        |id: u8|
            id < 12 && state.buttons@[id as int] is Held && own_button(a) != Some(id),
    )
}

/// The trigger of event `a` when `state` holds buttons down: the held
/// buttons become its modifiers, and with none held it has no modifiers.
pub open spec fn trigger_of(state: MacropadState, a: Action) -> KeyCombinationView {
    let held = held_modifiers(state, a);
    KeyCombinationView {
        modifiers: if held == Set::<u8>::empty() {
            None
        } else {
            Some(held)
        },
        action: a,
    }
}

/// Builds the trigger of `action` in `macropad_state`, as [`trigger_of`]
/// says.
pub fn trigger_for(macropad_state: &MacropadState, action: Action) -> (r: KeyCombination)
    ensures
        r@ == trigger_of(*macropad_state, action),
{
    broadcast use vstd::std_specs::hash::group_hash_axioms;

    let own: Option<u8> = match action {
        Action::ButtonPress { id } => Some(id),
        Action::ButtonRelease { id } => Some(id),
        _ => None,
    };
    let mut held: HashSet<u8> = HashSet::new();
    let mut any = false;
    let mut i: usize = 0;
    while i < 12
        invariant
            i <= 12,
            own == own_button(action),
            held@ == Set::new(
                |id: u8|
                    (id as int) < i && macropad_state.buttons@[id as int] is Held && own != Some(
                        id,
                    ),
            ),
            any == (held@ != Set::<u8>::empty()),
        decreases 12 - i,
    {
        let is_held = match macropad_state.buttons[i] {
            crate::macropad_state::ButtonState::Held { .. } => true,
            _ => false,
        };
        if is_held && own != Some(i as u8) {
            held.insert(i as u8);
            any = true;
            assert(held@.contains(i as u8));
        }
        assert(held@ =~= Set::new(
            |id: u8|
                (id as int) < i + 1 && macropad_state.buttons@[id as int] is Held && own != Some(
                    id,
                ),
        ));
        i = i + 1;
    }
    assert(held@ =~= held_modifiers(*macropad_state, action));
    let modifiers = if any {
        Some(held)
    } else {
        None
    };
    KeyCombination { modifiers, action }
}

/// `r` is the dispatcher's answer to event `a` under `profile` while
/// `state` holds the pad's buttons. A release looks up the binding of the
/// matching press; any other event looks up its own trigger.
pub open spec fn action_reaction(
    profile: Option<&ApplicationProfile>,
    state: MacropadState,
    a: Action,
    r: Reaction,
) -> bool {
    match profile {
        None => r is Nothing,
        Some(p) => match a {
            Action::NoEvent => r is Nothing,
            Action::ButtonRelease { id } => match binding_index(
                p.bindings@,
                trigger_of(state, Action::ButtonPress { id }),
            ) {
                None => r is Nothing,
                Some(i) => release_reaction(p.bindings@[i].1, r),
            },
            _ => match binding_index(p.bindings@, trigger_of(state, a)) {
                None => r is Nothing,
                Some(i) => command_reaction(p.bindings@[i].1, r),
            },
        },
    }
}

/// Dispatches one event. `macropad_state` is the pad's state before the
/// report that produced the event; the buttons it holds are the event's
/// modifiers. Without a profile, for `NoEvent`, and without a binding the
/// answer is `Nothing`.
pub fn perform_action<'a>(
    application_profile: Option<&'a ApplicationProfile>,
    macropad_state: &MacropadState,
    action: Action,
) -> (r: Reaction<'a>)
    ensures
        action_reaction(application_profile, *macropad_state, action, r),
{
    let profile = match application_profile {
        None => {
            return Reaction::Nothing;
        },
        Some(p) => p,
    };
    match action {
        Action::NoEvent => Reaction::Nothing,
        Action::ButtonRelease { id } => {
            let press = trigger_for(macropad_state, Action::ButtonPress { id });
            match profile.get_binding(&press) {
                None => Reaction::Nothing,
                Some(command) => {
                    if command.radial_menu_items.is_some() {
                        Reaction::HideRadialMenu
                    } else if let Some(operations) = &command.operations {
                        Reaction::Synthesize(plan_release_complement(operations))
                    } else {
                        Reaction::Nothing
                    }
                },
            }
        },
        _ => {
            let trigger = trigger_for(macropad_state, action);
            match profile.get_binding(&trigger) {
                None => Reaction::Nothing,
                Some(command) => handle_command(command),
            }
        },
    }
}

/// Handles one report from the pad: interprets it against
/// `macropad_state`, resolves the profile for the window `title`, and
/// dispatches every event of the report in order. Returns the next state
/// and one reaction per event.
pub fn handle_input<'a>(
    config: &'a AppConfig,
    title: &str,
    macropad_state: MacropadState,
    report: [u8; 2],
    now: u64,
) -> (r: (MacropadState, Vec<Reaction<'a>>))
    ensures
        is_next_state(macropad_state, report, now, r.0),
        r.1.len() == report_events(macropad_state, report).len(),
        forall|i: int|
            0 <= i < r.1.len() ==> action_reaction(
                config.active_profile(title@),
                macropad_state,
                report_events(macropad_state, report)[i],
                #[trigger] r.1@[i],
            ),
{
    let profile = config.resolve(title);
    let (next, events) = handle_report(macropad_state, report, now);
    let mut reactions: Vec<Reaction<'a>> = Vec::new();
    let mut i: usize = 0;
    while i < events.len()
        invariant
            i <= events.len(),
            profile == config.active_profile(title@),
            events@ == report_events(macropad_state, report),
            reactions.len() == i,
            forall|k: int|
                0 <= k < i ==> action_reaction(
                    profile,
                    macropad_state,
                    events@[k],
                    #[trigger] reactions@[k],
                ),
        decreases events.len() - i,
    {
        let reaction = perform_action(profile, &macropad_state, events[i]);
        reactions.push(reaction);
        i = i + 1;
    }
    (next, reactions)
}

/// While no pattern matches the window title, no event of any report asks
/// for anything: no key is synthesized and no menu opens or closes.
pub proof fn lemma_unmatched_title_is_silent(
    config: AppConfig,
    title: Seq<char>,
    state: MacropadState,
    a: Action,
    r: Reaction,
)
    requires
        config.active_profile(title) is None,
        action_reaction(config.active_profile(title), state, a, r),
    ensures
        r is Nothing,
{
}

/// A bound command with menu items always opens its menu and never runs
/// its operations, even when it has both.
pub proof fn lemma_menu_takes_precedence(c: Command, r: Reaction)
    requires
        c.radial_menu_items is Some,
        command_reaction(c, r),
    ensures
        r matches Reaction::ShowRadialMenu(items) && *items == c.radial_menu_items->0,
        !(r is Synthesize),
{
}

} // verus!
