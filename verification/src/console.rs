//! Console input as Windows reports it.

use crate::decoded::InputEvent;
use vstd::prelude::*;

verus! {

pub const RIGHT_ALT_PRESSED: u32 = 0x0001;

pub const LEFT_ALT_PRESSED: u32 = 0x0002;

pub const RIGHT_CTRL_PRESSED: u32 = 0x0004;

pub const LEFT_CTRL_PRESSED: u32 = 0x0008;

pub const SHIFT_PRESSED: u32 = 0x0010;

pub const NUMLOCK_ON: u32 = 0x0020;

pub const SCROLLLOCK_ON: u32 = 0x0040;

pub const CAPSLOCK_ON: u32 = 0x0080;

pub const ENHANCED_KEY: u32 = 0x0100;

pub const FROM_LEFT_1ST_BUTTON_PRESSED: u32 = 0x0001;

pub const RIGHTMOST_BUTTON_PRESSED: u32 = 0x0002;

pub const FROM_LEFT_2ND_BUTTON_PRESSED: u32 = 0x0004;

pub const FROM_LEFT_3RD_BUTTON_PRESSED: u32 = 0x0008;

pub const FROM_LEFT_4TH_BUTTON_PRESSED: u32 = 0x0010;

pub const MOUSE_MOVED: u32 = 0x0001;

pub const DOUBLE_CLICK: u32 = 0x0002;

pub const MOUSE_WHEELED: u32 = 0x0004;

pub const MOUSE_HWHEELED: u32 = 0x0008;

/// A key was pressed or released.
#[derive(Debug, Clone, Copy, PartialEq, Eq, Structural)]
pub struct KeyEventRecord {
    pub key_down: bool,
    pub repeat_count: u16,
    pub virtual_key_code: u16,
    pub virtual_scan_code: u16,
    /// The UTF-16 code unit that the key stands for, or 0.
    pub unicode_char: u16,
    pub control_key_state: u32,
}

/// The mouse was moved, or its buttons or wheels were used.
#[derive(Debug, Clone, Copy, PartialEq, Eq, Structural)]
pub struct MouseEventRecord {
    pub x: i16,
    pub y: i16,
    /// The pressed buttons in the low half, the turn of a wheel in the high half.
    pub button_state: u32,
    pub control_key_state: u32,
    pub event_flags: u32,
}

/// One record of console input.
#[derive(Debug, Clone, Copy, PartialEq, Eq, Structural)]
pub enum InputRecord {
    Key(KeyEventRecord),
    Mouse(MouseEventRecord),
    /// The window has a new size.
    WindowBufferSize { columns: i16, rows: i16 },
    /// The window has got or lost the focus.
    Focus { set_focus: bool },
    /// Anything else.
    Other,
}

/// A record of console input, with the events that it was decoded to where it
/// takes decoding.
#[derive(Debug, Clone)]
pub struct ConsoleRecord {
    pub record: InputRecord,
    pub decoded: Vec<InputEvent>,
}

} // verus!
