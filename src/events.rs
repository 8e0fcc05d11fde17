use vstd::prelude::*;
use crate::config::RadialMenuItem;

verus! {

/// The request to open a radial menu at a screen location.
#[derive(Debug)]
pub struct ShowRadialMenu {
    pub location: (i32, i32),
    pub items: Vec<RadialMenuItem>,
}

/// The menu entry the user picked.
pub type SelectedRadialMenuItem = RadialMenuItem;

} // verus!
