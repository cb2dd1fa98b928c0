//! The signs that the reports are drawn with.

use vstd::prelude::*;

verus! {

pub const CHECK: &'static str = "\u{2713}";

pub const CROSS: &'static str = "\u{2715}";

pub const SMALL_SQUARE: &'static str = "\u{25aa}";

pub const ARROW_UP: &'static str = "\u{2191}";

pub const ARROW_DOWN: &'static str = "\u{2193}";

pub const ARROW_LEFT: &'static str = "\u{2190}";

pub const ARROW_RIGHT: &'static str = "\u{2192}";

pub const EMPTY_CIRCLE: &'static str = "\u{25cb}";

pub const FILLED_CIRCLE: &'static str = "\u{25cf}";

pub const EMPTY_SQUARE: &'static str = "\u{25a1}";

pub const FILLED_SQUARE: &'static str = "\u{25a0}";

pub const UP_TRIANGLE: &'static str = "\u{25b2}";

pub const RIGHT_TRIANGLE: &'static str = "\u{25b6}";

pub const DOWN_TRIANGLE: &'static str = "\u{25bc}";

pub const LEFT_TRIANGLE: &'static str = "\u{25c0}";

/// What is written over the sign before it, to draw a spinner.
pub const BACKSPACE: &'static str = "\u{8}";

} // verus!
