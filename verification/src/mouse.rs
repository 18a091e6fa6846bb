use vstd::prelude::*;

use crate::mode::{ALL_MOUSE_MODES, MODE_MOUSE_ALL, MODE_MOUSE_BUTTON, MODE_MOUSE_SGR, MODE_MOUSE_UTF8};
use crate::text::{string_push, utf8_bytes};

verus! {

pub const MOUSE_PARAM_MAX: u16 = 0xff;

pub const MOUSE_PARAM_UTF8_MAX: u16 = 0x7ff;

pub const MOUSE_PARAM_BTN_OFF: u16 = 0x20;

pub const MOUSE_PARAM_POS_OFF: u16 = 0x21;

pub const MOUSE_MASK_BUTTONS: u16 = 195;

pub const MOUSE_MASK_DRAG: u16 = 32;

pub const MOUSE_WHEEL_UP: u16 = 64;

pub const MOUSE_WHEEL_DOWN: u16 = 65;

/// A mouse event read from the client terminal, ready to be forwarded to a pane.
///
/// `b`, `x` and `y` are the button and the zero-based position; `lb`, `lx`
/// and `ly` are those of the event that came before it. `sgr_b` and
/// `sgr_type` keep the raw SGR button and terminator (`'M'` or `'m'`), with
/// `sgr_type == ' '` when the event did not arrive in SGR form.
#[derive(Debug, Clone, Copy, PartialEq, Eq, Structural)]
pub struct MouseForwardEvent {
    pub b: u16,
    pub lb: u16,
    pub x: u16,
    pub y: u16,
    pub lx: u16,
    pub ly: u16,
    pub sgr_b: u16,
    pub sgr_type: char,
    pub ignore: bool,
}

/// The outcome of reading a mouse report at the start of a byte buffer.
#[derive(Debug, Clone, Copy, PartialEq, Eq, Structural)]
pub enum MouseDecode {
    /// The buffer does not start with a mouse report.
    Invalid,
    /// The buffer is a prefix of a mouse report: more bytes are needed.
    Partial,
    /// A well-formed report of `size` bytes that is to be dropped.
    Discard { size: usize },
    /// A report of `size` bytes and the event that it carries.
    Matched { size: usize, event: MouseForwardEvent },
}

impl MouseForwardEvent {
    /// A plain button event at `(x, y)` whose previous position and button are its own.
    pub fn button_event(b: u16, x: u16, y: u16) -> (event: Self)
        ensures
            event == (MouseForwardEvent {
                b,
                lb: b,
                x,
                y,
                lx: x,
                ly: y,
                sgr_b: b,
                sgr_type: ' ',
                ignore: false,
            }),
    {
        Self { b, lb: b, x, y, lx: x, ly: y, sgr_b: b, sgr_type: ' ', ignore: false }
    }
}

// ---------------------------------------------------------------------------
// Button classification
// ---------------------------------------------------------------------------

pub open spec fn button_bits(button: u16) -> u16 {
    button & 195u16
}

pub open spec fn is_wheel(button: u16) -> bool {
    button_bits(button) == 64u16 || button_bits(button) == 65u16
}

pub open spec fn is_drag(button: u16) -> bool {
    button & 32u16 != 0u16
}

pub open spec fn is_release(button: u16) -> bool {
    button_bits(button) == 3u16
}

/// The button bits of a mouse button code (drag and modifier bits removed).
pub fn mouse_buttons(button: u16) -> (r: u16)
    ensures
        r == button_bits(button),
{
    button & MOUSE_MASK_BUTTONS
}

/// Whether the button code is a wheel-up or wheel-down event.
pub fn mouse_wheel(button: u16) -> (r: bool)
    ensures
        r == is_wheel(button),
{
    let buttons = mouse_buttons(button);
    buttons == MOUSE_WHEEL_UP || buttons == MOUSE_WHEEL_DOWN
}

/// Whether the button code carries the drag (motion) bit.
pub fn mouse_drag(button: u16) -> (r: bool)
    ensures
        r == is_drag(button),
{
    (button & MOUSE_MASK_DRAG) != 0
}

/// Whether the button code is a release.
pub fn mouse_release(button: u16) -> (r: bool)
    ensures
        r == is_release(button),
{
    mouse_buttons(button) == 3
}

// ---------------------------------------------------------------------------
// Decimal fields of SGR reports
// ---------------------------------------------------------------------------

pub open spec fn is_ascii_digit(b: u8) -> bool {
    0x30 <= b <= 0x39
}

/// A byte that ends a decimal field of an SGR report: `;`, `M` or `m`.
pub open spec fn ends_mouse_field(b: u8) -> bool {
    b == 0x3b || b == 0x4d || b == 0x6d
}

/// The value of a string of ASCII decimal digits.
pub open spec fn digits_value(s: Seq<u8>) -> nat
    decreases s.len(),
{
    if s.len() == 0 {
        0
    } else {
        digits_value(s.drop_last()) * 10 + (s.last() - 0x30) as nat
    }
}

/// The first index at or after `start` that does not hold a digit (or `start`
/// itself when it is out of the buffer).
pub open spec fn digit_run_end(input: Seq<u8>, start: int) -> int
    decreases input.len() - start,
{
    if start < 0 || start >= input.len() || !is_ascii_digit(input[start]) {
        start
    } else {
        digit_run_end(input, start + 1)
    }
}

/// The decimal field that starts at `start`: the value of its digits and the
/// index of the byte that ends it, when that byte is a field end and the value
/// fits in 16 bits.
pub open spec fn mouse_decimal(input: Seq<u8>, start: int) -> Option<(u16, int)> {
    let end = digit_run_end(input, start);
    if 0 <= start && end < input.len() && ends_mouse_field(input[end]) && digits_value(
        input.subrange(start, end),
    ) <= u16::MAX {
        Some((digits_value(input.subrange(start, end)) as u16, end))
    } else {
        None
    }
}

pub proof fn lemma_digit_run_end(input: Seq<u8>, start: int, i: int)
    requires
        0 <= start <= i,
        i <= input.len(),
        forall|k: int| start <= k < i ==> is_ascii_digit(#[trigger] input[k]),
    ensures
        digit_run_end(input, start) == digit_run_end(input, i),
    decreases i - start,
{
    if start < i {
        lemma_digit_run_end(input, start + 1, i);
    }
}

pub proof fn lemma_digit_run_end_bounds(input: Seq<u8>, start: int)
    requires
        0 <= start,
    ensures
        start <= digit_run_end(input, start),
        forall|k: int| start <= k < digit_run_end(input, start) ==> is_ascii_digit(#[trigger] input[k]),
        digit_run_end(input, start) < input.len() ==> !is_ascii_digit(input[digit_run_end(input, start)]),
        start <= input.len() ==> digit_run_end(input, start) <= input.len(),
    decreases input.len() - start,
{
    if start < input.len() && is_ascii_digit(input[start]) {
        lemma_digit_run_end_bounds(input, start + 1);
    }
}

proof fn lemma_digits_value_prefix(s: Seq<u8>, i: int)
    requires
        0 <= i <= s.len(),
        forall|k: int| 0 <= k < s.len() ==> is_ascii_digit(#[trigger] s[k]),
    ensures
        digits_value(s.take(i)) <= digits_value(s),
    decreases s.len() - i,
{
    if i < s.len() {
        lemma_digits_value_prefix(s, i + 1);
        assert(s.take(i + 1).drop_last() =~= s.take(i));
    } else {
        assert(s.take(i) =~= s);
    }
}

/// Reads the decimal field of an SGR mouse report that starts at `start`.
///
/// Returns its value and the index of the `;`, `M` or `m` that ends it, or
/// `None` when a non-digit comes first, the buffer ends first, or the value
/// does not fit in 16 bits.
pub fn parse_mouse_decimal(input: &[u8], start: usize) -> (r: Option<(u16, usize)>)
    ensures
        match r {
            Some((v, end)) => mouse_decimal(input@, start as int) == Some((v, end as int)),
            None => mouse_decimal(input@, start as int) is None,
        },
{
    if start >= input.len() {
        return None;
    }
    let mut index = start;
    let mut value: u16 = 0;
    proof {
        lemma_digit_run_end_bounds(input@, start as int);
        assert(input@.subrange(start as int, start as int) =~= Seq::<u8>::empty());
    }
    while index < input.len()
        invariant
            start <= index <= input.len(),
            forall|k: int| start <= k < index ==> is_ascii_digit(#[trigger] input@[k]),
            value == digits_value(input@.subrange(start as int, index as int)),
        decreases input.len() - index,
    {
        let byte = input[index];
        proof {
            lemma_digit_run_end(input@, start as int, index as int);
        }
        if byte == 0x3b || byte == 0x4d || byte == 0x6d {
            return Some((value, index));
        }
        if !(0x30 <= byte && byte <= 0x39) {
            return None;
        }
        let digit = (byte - 0x30) as u16;
        let ghost next = input@.subrange(start as int, index + 1);
        proof {
            assert(next.drop_last() =~= input@.subrange(start as int, index as int));
        }
        let times_ten = match value.checked_mul(10) {
            Some(v) => v,
            None => {
                proof {
                    lemma_too_large(input@, start as int, index as int + 1);
                }
                return None;
            },
        };
        value = match times_ten.checked_add(digit) {
            Some(v) => v,
            None => {
                proof {
                    lemma_too_large(input@, start as int, index as int + 1);
                }
                return None;
            },
        };
        index = index + 1;
    }
    proof {
        lemma_digit_run_end(input@, start as int, index as int);
    }
    None
}

proof fn lemma_too_large(input: Seq<u8>, start: int, i: int)
    requires
        0 <= start < i <= input.len(),
        forall|k: int| start <= k < i ==> is_ascii_digit(#[trigger] input[k]),
        digits_value(input.subrange(start, i)) > u16::MAX,
    ensures
        mouse_decimal(input, start) is None,
{
    lemma_digit_run_end_bounds(input, start);
    lemma_digit_run_end(input, start, i);
    let end = digit_run_end(input, start);
    lemma_digit_run_end_bounds(input, i);
    if end < input.len() {
        let whole = input.subrange(start, end);
        assert forall|k: int| 0 <= k < whole.len() implies is_ascii_digit(#[trigger] whole[k]) by {
            assert(whole[k] == input[start + k]);
        }
        lemma_digits_value_prefix(whole, i - start);
        assert(whole.take(i - start) =~= input.subrange(start, i));
    }
}

// ---------------------------------------------------------------------------
// Decoding reports from the client terminal
// ---------------------------------------------------------------------------

/// The event that stands for "no previous event".
pub open spec fn no_previous_event() -> MouseForwardEvent {
    MouseForwardEvent {
        b: 0,
        lb: 0,
        x: 0,
        y: 0,
        lx: 0,
        ly: 0,
        sgr_b: 0,
        sgr_type: ' ',
        ignore: false,
    }
}

pub open spec fn previous_or_none(last: Option<MouseForwardEvent>) -> MouseForwardEvent {
    match last {
        Some(event) => event,
        None => no_previous_event(),
    }
}

/// The event of a legacy `ESC [ M b x y` report.
pub open spec fn legacy_event(input: Seq<u8>, prev: MouseForwardEvent) -> MouseForwardEvent {
    MouseForwardEvent {
        lx: prev.x,
        ly: prev.y,
        lb: prev.b,
        b: (input[3] - 0x20) as u16,
        x: (input[4] - 0x21) as u16,
        y: (input[5] - 0x21) as u16,
        sgr_b: 0,
        sgr_type: ' ',
        ignore: false,
    }
}

/// The event of an SGR `ESC [ < b ; x ; y M|m` report.
pub open spec fn sgr_event(
    b: u16,
    x: u16,
    y: u16,
    terminator: u8,
    prev: MouseForwardEvent,
) -> MouseForwardEvent {
    MouseForwardEvent {
        lx: prev.x,
        ly: prev.y,
        lb: prev.b,
        b: if terminator == 0x6d { 3 } else { b },
        x: (x - 1) as u16,
        y: (y - 1) as u16,
        sgr_b: b,
        sgr_type: if terminator == 0x6d { 'm' } else { 'M' },
        ignore: false,
    }
}

/// What the terminal bytes `input` start with, as a mouse report, given the
/// previous event `last`.
pub open spec fn decode_mouse_spec(input: Seq<u8>, last: Option<MouseForwardEvent>) -> MouseDecode {
    let prev = previous_or_none(last);
    if input.len() == 0 || input[0] != 0x1b {
        MouseDecode::Invalid
    } else if input.len() == 1 {
        MouseDecode::Partial
    } else if input[1] != 0x5b {
        MouseDecode::Invalid
    } else if input.len() == 2 {
        MouseDecode::Partial
    } else if input[2] == 0x4d {
        if input.len() < 6 {
            MouseDecode::Partial
        } else if input[3] < 0x20 || input[4] < 0x21 || input[5] < 0x21 {
            MouseDecode::Discard { size: 6 }
        } else {
            MouseDecode::Matched { size: 6, event: legacy_event(input, prev) }
        }
    } else if input[2] != 0x3c {
        MouseDecode::Invalid
    } else {
        match mouse_decimal(input, 3) {
            None => MouseDecode::Partial,
            Some((b, end_b)) => match mouse_decimal(input, end_b + 1) {
                None => MouseDecode::Partial,
                Some((x, end_x)) => match mouse_decimal(input, end_x + 1) {
                    None => MouseDecode::Partial,
                    Some((y, end_y)) => {
                        let terminator = input[end_y];
                        if terminator != 0x4d && terminator != 0x6d {
                            MouseDecode::Invalid
                        } else if x < 1 || y < 1 {
                            MouseDecode::Discard { size: (end_y + 1) as usize }
                        } else if terminator == 0x6d && is_wheel(b) {
                            MouseDecode::Discard { size: (end_y + 1) as usize }
                        } else {
                            MouseDecode::Matched {
                                size: (end_y + 1) as usize,
                                event: sgr_event(b, x, y, terminator, prev),
                            }
                        }
                    },
                },
            },
        }
    }
}

/// Reads one mouse report, legacy (`ESC [ M`) or SGR (`ESC [ <`), from the
/// start of the bytes a client terminal sent.
pub fn decode_mouse(input: &[u8], last: Option<MouseForwardEvent>) -> (r: MouseDecode)
    ensures
        r == decode_mouse_spec(input@, last),
{
    if input.len() == 0 || input[0] != 0x1b {
        return MouseDecode::Invalid;
    }
    if input.len() == 1 {
        return MouseDecode::Partial;
    }
    if input[1] != 0x5b {
        return MouseDecode::Invalid;
    }
    if input.len() == 2 {
        return MouseDecode::Partial;
    }
    let previous = match last {
        Some(event) => event,
        None => MouseForwardEvent {
            b: 0,
            lb: 0,
            x: 0,
            y: 0,
            lx: 0,
            ly: 0,
            sgr_b: 0,
            sgr_type: ' ',
            ignore: false,
        },
    };

    if input[2] == 0x4d {
        if input.len() < 6 {
            return MouseDecode::Partial;
        }
        let b = input[3] as u16;
        let x = input[4] as u16;
        let y = input[5] as u16;
        if b < MOUSE_PARAM_BTN_OFF || x < MOUSE_PARAM_POS_OFF || y < MOUSE_PARAM_POS_OFF {
            return MouseDecode::Discard { size: 6 };
        }
        return MouseDecode::Matched {
            size: 6,
            event: MouseForwardEvent {
                lx: previous.x,
                ly: previous.y,
                lb: previous.b,
                b: b - MOUSE_PARAM_BTN_OFF,
                x: x - MOUSE_PARAM_POS_OFF,
                y: y - MOUSE_PARAM_POS_OFF,
                sgr_b: 0,
                sgr_type: ' ',
                ignore: false,
            },
        };
    }

    if input[2] != 0x3c {
        return MouseDecode::Invalid;
    }

    let (b, offset_after_b) = match parse_mouse_decimal(input, 3) {
        Some(field) => field,
        None => return MouseDecode::Partial,
    };
    let (x, offset_after_x) = match parse_mouse_decimal(input, offset_after_b + 1) {
        Some(field) => field,
        None => return MouseDecode::Partial,
    };
    let (y, offset_after_y) = match parse_mouse_decimal(input, offset_after_x + 1) {
        Some(field) => field,
        None => return MouseDecode::Partial,
    };
    if offset_after_y >= input.len() {
        return MouseDecode::Partial;
    }
    let terminator = input[offset_after_y];
    if terminator != 0x4d && terminator != 0x6d {
        return MouseDecode::Invalid;
    }
    if x < 1 || y < 1 {
        return MouseDecode::Discard { size: offset_after_y + 1 };
    }
    if terminator == 0x6d && mouse_wheel(b) {
        return MouseDecode::Discard { size: offset_after_y + 1 };
    }
    let sgr_b = b;
    let b = if terminator == 0x6d { 3 } else { b };
    let sgr_type = if terminator == 0x6d { 'm' } else { 'M' };
    MouseDecode::Matched {
        size: offset_after_y + 1,
        event: MouseForwardEvent {
            lx: previous.x,
            ly: previous.y,
            lb: previous.b,
            b,
            x: x - 1,
            y: y - 1,
            sgr_b,
            sgr_type,
            ignore: false,
        },
    }
}

// ---------------------------------------------------------------------------
// Encoding events for the application in a pane
// ---------------------------------------------------------------------------

/// The ASCII decimal representation of `n`, without leading zeros.
pub open spec fn decimal_bytes(n: nat) -> Seq<u8>
    decreases n,
{
    if n < 10 {
        seq![(0x30 + n) as u8]
    } else {
        decimal_bytes(n / 10).push((0x30 + n % 10) as u8)
    }
}

/// Appends the decimal representation of `n` to `out`.
fn push_decimal(out: &mut Vec<u8>, n: u32)
    ensures
        final(out)@ == old(out)@ + decimal_bytes(n as nat),
    decreases n,
{
    if n >= 10 {
        push_decimal(out, n / 10);
    }
    out.push((0x30 + n % 10) as u8);
    proof {
        if n >= 10 {
            assert(final(out)@ =~= old(out)@ + decimal_bytes(n as nat));
        } else {
            assert(final(out)@ =~= old(out)@ + decimal_bytes(n as nat));
        }
    }
}

/// The one- or two-byte form of a coordinate or button value in the UTF-8
/// extended mouse protocol.
pub open spec fn utf8_mouse_bytes(value: u16) -> Seq<u8> {
    if value <= 0x7f {
        seq![value as u8]
    } else {
        seq![(0xc0u8 | ((value >> 6u16) as u8)) & 0xdfu8, 0x80u8 | ((value as u8) & 0x3fu8)]
    }
}

/// Appends the UTF-8 extended-protocol form of `value` to `output`.
pub fn append_utf8_mouse_value(value: u16, output: &mut Vec<u8>)
    ensures
        final(output)@ == old(output)@ + utf8_mouse_bytes(value),
{
    if value <= 0x7f {
        output.push(value as u8);
        proof {
            assert(final(output)@ =~= old(output)@ + utf8_mouse_bytes(value));
        }
        return;
    }
    output.push((0xc0u8 | ((value >> 6u16) as u8)) & 0xdfu8);
    output.push(0x80u8 | ((value as u8) & 0x3fu8));
    proof {
        assert(final(output)@ =~= old(output)@ + utf8_mouse_bytes(value));
    }
}

/// The mode bits that ask for motion (drag) reports.
pub open spec fn motion_modes_spec() -> u32 {
    MODE_MOUSE_BUTTON | MODE_MOUSE_ALL
}

/// The pane mode bits under which drag events are forwarded.
pub fn motion_mouse_modes() -> (r: u32)
    ensures
        r == motion_modes_spec(),
{
    MODE_MOUSE_BUTTON | MODE_MOUSE_ALL
}

/// Whether a drag-release event is to be dropped because the pane did not ask
/// for any-motion reports.
pub open spec fn release_discarded(event: MouseForwardEvent, pane_mode: u32) -> bool {
    if event.sgr_type != ' ' {
        is_drag(event.sgr_b) && is_release(event.sgr_b) && pane_mode & MODE_MOUSE_ALL == 0
    } else {
        is_drag(event.b) && is_release(event.b) && is_release(event.lb) && pane_mode
            & MODE_MOUSE_ALL == 0
    }
}

/// Decides whether a drag release is dropped for a pane in `pane_mode`.
pub fn sgr_release_discard(event: &MouseForwardEvent, pane_mode: u32) -> (r: bool)
    ensures
        r == release_discarded(*event, pane_mode),
{
    if event.sgr_type != ' ' {
        return mouse_drag(event.sgr_b) && mouse_release(event.sgr_b) && (pane_mode
            & MODE_MOUSE_ALL) == 0;
    }
    mouse_drag(event.b) && mouse_release(event.b) && mouse_release(event.lb) && (pane_mode
        & MODE_MOUSE_ALL) == 0
}

/// Whether the encoder is asked to drop the event before any encoding.
pub open spec fn encode_filtered(pane_mode: u32, event: MouseForwardEvent) -> bool {
    event.ignore || pane_mode & ALL_MOUSE_MODES == 0 || (is_drag(event.b) && pane_mode
        & motion_modes_spec() == 0) || release_discarded(event, pane_mode)
}

/// Whether the event goes out in SGR form.
pub open spec fn encodes_as_sgr(pane_mode: u32, event: MouseForwardEvent) -> bool {
    event.sgr_type != ' ' && pane_mode & MODE_MOUSE_SGR != 0
}

/// The inputs on which the encoder's arithmetic stays within 16 bits (on the
/// others the 16-bit additions of the encoding would overflow).
pub open spec fn encode_mouse_in_range(
    pane_mode: u32,
    event: MouseForwardEvent,
    x: u16,
    y: u16,
) -> bool {
    if encode_filtered(pane_mode, event) {
        true
    } else if encodes_as_sgr(pane_mode, event) {
        x < u16::MAX && y < u16::MAX
    } else if pane_mode & MODE_MOUSE_UTF8 != 0 {
        true
    } else {
        event.b <= u16::MAX - 0x20 && (event.b + 0x20 > 0xff || (x <= u16::MAX - 0x21 && y
            <= u16::MAX - 0x21))
    }
}

pub open spec fn clamp_to_byte(v: int) -> u8 {
    if v > 0xff {
        0xffu8
    } else {
        v as u8
    }
}

/// The bytes that report `event` at pane position `(x, y)` to an application
/// whose mouse modes are `pane_mode`, or `None` when nothing is to be sent.
pub open spec fn encode_mouse_spec(
    pane_mode: u32,
    event: MouseForwardEvent,
    x: u16,
    y: u16,
) -> Option<Seq<u8>> {
    if encode_filtered(pane_mode, event) {
        None
    } else if encodes_as_sgr(pane_mode, event) {
        Some(
            seq![0x1bu8, 0x5bu8, 0x3cu8] + decimal_bytes(event.sgr_b as nat) + seq![0x3bu8]
                + decimal_bytes((x + 1) as nat) + seq![0x3bu8] + decimal_bytes((y + 1) as nat)
                + vstd::utf8::encode_utf8(seq![event.sgr_type]),
        )
    } else if pane_mode & MODE_MOUSE_UTF8 != 0 {
        if event.b > 0x7ff - 0x20 || x > 0x7ff - 0x21 || y > 0x7ff - 0x21 {
            None
        } else {
            Some(
                seq![0x1bu8, 0x5bu8, 0x4du8] + utf8_mouse_bytes((event.b + 0x20) as u16)
                    + utf8_mouse_bytes((x + 0x21) as u16) + utf8_mouse_bytes((y + 0x21) as u16),
            )
        }
    } else if event.b + 0x20 > 0xff {
        None
    } else {
        Some(
            seq![
                0x1bu8,
                0x5bu8,
                0x4du8,
                (event.b + 0x20) as u8,
                clamp_to_byte(x + 0x21),
                clamp_to_byte(y + 0x21),
            ],
        )
    }
}

/// Encodes a mouse event for the application in a pane, in the protocol that
/// the pane's mouse modes ask for: SGR, UTF-8 extended, or legacy X10 with
/// coordinates clamped to a byte.
pub fn encode_mouse_event(pane_mode: u32, event: &MouseForwardEvent, x: u16, y: u16) -> (r: Option<
    Vec<u8>,
>)
    requires
        encode_mouse_in_range(pane_mode, *event, x, y),
    ensures
        match r {
            Some(bytes) => encode_mouse_spec(pane_mode, *event, x, y) == Some(bytes@),
            None => encode_mouse_spec(pane_mode, *event, x, y) is None,
        },
{
    if event.ignore || (pane_mode & ALL_MOUSE_MODES) == 0 {
        return None;
    }
    if mouse_drag(event.b) && (pane_mode & motion_mouse_modes()) == 0 {
        return None;
    }
    if sgr_release_discard(event, pane_mode) {
        return None;
    }

    if event.sgr_type != ' ' && (pane_mode & MODE_MOUSE_SGR) != 0 {
        let mut bytes: Vec<u8> = Vec::new();
        bytes.push(0x1b);
        bytes.push(0x5b);
        bytes.push(0x3c);
        push_decimal(&mut bytes, event.sgr_b as u32);
        bytes.push(0x3b);
        push_decimal(&mut bytes, (x + 1) as u32);
        bytes.push(0x3b);
        push_decimal(&mut bytes, (y + 1) as u32);
        let mut terminator = String::new();
        string_push(&mut terminator, event.sgr_type);
        let mut tail = utf8_bytes(terminator.as_str());
        bytes.append(&mut tail);
        proof {
            assert(bytes@ =~= encode_mouse_spec(pane_mode, *event, x, y)->0);
        }
        return Some(bytes);
    }

    if (pane_mode & MODE_MOUSE_UTF8) != 0 {
        if event.b > MOUSE_PARAM_UTF8_MAX - MOUSE_PARAM_BTN_OFF || x > MOUSE_PARAM_UTF8_MAX
            - MOUSE_PARAM_POS_OFF || y > MOUSE_PARAM_UTF8_MAX - MOUSE_PARAM_POS_OFF {
            return None;
        }
        let mut bytes: Vec<u8> = Vec::new();
        bytes.push(0x1b);
        bytes.push(0x5b);
        bytes.push(0x4d);
        append_utf8_mouse_value(event.b + MOUSE_PARAM_BTN_OFF, &mut bytes);
        append_utf8_mouse_value(x + MOUSE_PARAM_POS_OFF, &mut bytes);
        append_utf8_mouse_value(y + MOUSE_PARAM_POS_OFF, &mut bytes);
        proof {
            assert(bytes@ =~= encode_mouse_spec(pane_mode, *event, x, y)->0);
        }
        return Some(bytes);
    }

    if event.b + MOUSE_PARAM_BTN_OFF > MOUSE_PARAM_MAX {
        return None;
    }

    let mut bytes: Vec<u8> = Vec::new();
    bytes.push(0x1b);
    bytes.push(0x5b);
    bytes.push(0x4d);
    bytes.push((event.b + MOUSE_PARAM_BTN_OFF) as u8);
    let px = x + MOUSE_PARAM_POS_OFF;
    let py = y + MOUSE_PARAM_POS_OFF;
    bytes.push(if px > MOUSE_PARAM_MAX { 0xffu8 } else { px as u8 });
    bytes.push(if py > MOUSE_PARAM_MAX { 0xffu8 } else { py as u8 });
    proof {
        assert(bytes@ =~= encode_mouse_spec(pane_mode, *event, x, y)->0);
    }
    Some(bytes)
}

} // verus!
