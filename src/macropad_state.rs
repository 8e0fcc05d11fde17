use vstd::prelude::*;

verus! {

/// State of one physical button between two reports: up, or held down.
#[derive(Clone, Copy, Debug, PartialEq, Eq, Structural)]
pub enum ButtonState {
    Released,
    /// Held down since `pressed_at` (milliseconds on the caller's clock).
    Held { pressed_at: u64 },
}

/// Debounced state of the whole pad: one entry per button and the last raw
/// delta reported by each encoder.
#[derive(Clone, Copy, Debug)]
pub struct MacropadState {
    pub buttons: [ButtonState; 12],
    pub encoders: [i8; 1],
}

} // verus!
