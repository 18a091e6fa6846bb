use vstd::prelude::*;

verus! {

/// Pane mode bit: the application asked for standard (click) mouse reporting.
pub const MODE_MOUSE_STANDARD: u32 = 0x20;

/// Pane mode bit: the application asked for button-motion mouse reporting.
pub const MODE_MOUSE_BUTTON: u32 = 0x40;

/// Pane mode bit: the application asked for UTF-8 extended mouse coordinates.
pub const MODE_MOUSE_UTF8: u32 = 0x100;

/// Pane mode bit: the application asked for SGR mouse reporting.
pub const MODE_MOUSE_SGR: u32 = 0x200;

/// Pane mode bit: the application asked for any-motion mouse reporting.
pub const MODE_MOUSE_ALL: u32 = 0x1000;

/// Every pane mode bit that turns mouse reporting on.
pub const ALL_MOUSE_MODES: u32 = 0x1060;

} // verus!
