use vstd::prelude::*;

use crate::mode::{MODE_MOUSE_ALL, MODE_MOUSE_SGR, MODE_MOUSE_UTF8};
use crate::mouse::{
    decimal_bytes, decode_mouse_spec, digit_run_end, digits_value, encode_filtered, encode_mouse_spec,
    lemma_digit_run_end_bounds, legacy_event,
    encodes_as_sgr, ends_mouse_field, is_ascii_digit, is_wheel, mouse_decimal, previous_or_none,
    MouseDecode, MouseForwardEvent,
};

verus! {

proof fn lemma_decimal_bytes(n: nat)
    ensures
        decimal_bytes(n).len() >= 1,
        forall|k: int| 0 <= k < decimal_bytes(n).len() ==> is_ascii_digit(#[trigger] decimal_bytes(n)[k]),
        digits_value(decimal_bytes(n)) == n,
    decreases n,
{
    if n >= 10 {
        lemma_decimal_bytes(n / 10);
        let d = decimal_bytes(n);
        assert(d.drop_last() =~= decimal_bytes(n / 10));
        assert(forall|k: int| 0 <= k < d.len() - 1 ==> d[k] == decimal_bytes(n / 10)[k]);
        assert(d.last() == (0x30 + n % 10) as u8);
        assert(d.last() - 0x30 == n % 10);
        assert(digits_value(d) == digits_value(d.drop_last()) * 10 + (d.last() - 0x30) as nat);
        assert((n / 10) * 10 + n % 10 == n);
    } else {
        let d = decimal_bytes(n);
        assert(d.drop_last() =~= Seq::<u8>::empty());
        assert(d.last() == (0x30 + n) as u8);
        assert(digits_value(d) == digits_value(d.drop_last()) * 10 + (d.last() - 0x30) as nat);
    }
}

/// A decimal field written by the encoder is read back by the decoder.
proof fn lemma_read_decimal(input: Seq<u8>, start: int, n: nat)
    requires
        0 <= start,
        n <= u16::MAX,
        start + decimal_bytes(n).len() < input.len(),
        input.subrange(start, start + decimal_bytes(n).len()) == decimal_bytes(n),
        ends_mouse_field(input[start + decimal_bytes(n).len()]),
    ensures
        mouse_decimal(input, start) == Some((n as u16, start + decimal_bytes(n).len())),
{
    lemma_decimal_bytes(n);
    let len = decimal_bytes(n).len() as int;
    assert forall|k: int| start <= k < start + len implies is_ascii_digit(#[trigger] input[k]) by {
        assert(input[k] == input.subrange(start, start + len)[k - start]);
    }
    lemma_digit_run_end_at(input, start, start + len);
}

proof fn lemma_digit_run_end_at(input: Seq<u8>, start: int, end: int)
    requires
        0 <= start <= end < input.len(),
        forall|k: int| start <= k < end ==> is_ascii_digit(#[trigger] input[k]),
        !is_ascii_digit(input[end]),
    ensures
        digit_run_end(input, start) == end,
    decreases end - start,
{
    if start < end {
        lemma_digit_run_end_at(input, start + 1, end);
    }
}

/// Round trip of the legacy protocol: an event that the encoder sends in the
/// legacy `ESC [ M` form, with button and coordinates that fit the form
/// unclamped, is read back by the decoder as the same button and position.
pub proof fn law_legacy_report_roundtrip(
    pane_mode: u32,
    event: MouseForwardEvent,
    x: u16,
    y: u16,
    last: Option<MouseForwardEvent>,
)
    requires
        !encode_filtered(pane_mode, event),
        !encodes_as_sgr(pane_mode, event),
        pane_mode & MODE_MOUSE_UTF8 == 0,
        event.b + 0x20 <= 0xff,
        x + 0x21 <= 0xff,
        y + 0x21 <= 0xff,
    ensures
        encode_mouse_spec(pane_mode, event, x, y) matches Some(bytes) && decode_mouse_spec(
            bytes,
            last,
        ) == (MouseDecode::Matched {
            size: 6,
            event: MouseForwardEvent {
                b: event.b,
                x,
                y,
                lb: previous_or_none(last).b,
                lx: previous_or_none(last).x,
                ly: previous_or_none(last).y,
                sgr_b: 0,
                sgr_type: ' ',
                ignore: false,
            },
        }),
{
}

/// Round trip of the SGR protocol: an event that the encoder sends in SGR form
/// is read back by the decoder with the same raw button, the same position and
/// the same terminator; a wheel event sent with the release terminator `m` is
/// read back as a report to drop.
pub proof fn law_sgr_report_roundtrip(
    pane_mode: u32,
    event: MouseForwardEvent,
    x: u16,
    y: u16,
    last: Option<MouseForwardEvent>,
)
    requires
        !encode_filtered(pane_mode, event),
        encodes_as_sgr(pane_mode, event),
        event.sgr_type == 'M' || event.sgr_type == 'm',
        x < u16::MAX,
        y < u16::MAX,
    ensures
        encode_mouse_spec(pane_mode, event, x, y) matches Some(bytes) && decode_mouse_spec(
            bytes,
            last,
        ) == if event.sgr_type == 'm' && is_wheel(event.sgr_b) {
            MouseDecode::Discard { size: bytes.len() as usize }
        } else {
            MouseDecode::Matched {
                size: bytes.len() as usize,
                event: MouseForwardEvent {
                    b: if event.sgr_type == 'm' { 3 } else { event.sgr_b },
                    x,
                    y,
                    lb: previous_or_none(last).b,
                    lx: previous_or_none(last).x,
                    ly: previous_or_none(last).y,
                    sgr_b: event.sgr_b,
                    sgr_type: event.sgr_type,
                    ignore: false,
                },
            }
        },
{
    let db = decimal_bytes(event.sgr_b as nat);
    let dx = decimal_bytes((x + 1) as nat);
    let dy = decimal_bytes((y + 1) as nat);
    let t: u8 = if event.sgr_type == 'm' { 0x6d } else { 0x4d };
    assert(vstd::utf8::encode_utf8(seq![event.sgr_type]) =~= seq![t]) by {
        reveal_with_fuel(vstd::utf8::encode_utf8, 2);
        assert(seq![event.sgr_type].drop_first() =~= Seq::<char>::empty());
        assert(0x4du32 & 0x7fu32 == 0x4du32) by (bit_vector);
        assert(0x6du32 & 0x7fu32 == 0x6du32) by (bit_vector);
        assert(event.sgr_type as u32 == t as u32);
    }
    let bytes = encode_mouse_spec(pane_mode, event, x, y)->0;
    let head: Seq<u8> = seq![0x1bu8, 0x5bu8, 0x3cu8];
    let semi: Seq<u8> = seq![0x3bu8];
    assert(bytes =~= head + db + semi + dx + semi + dy + seq![t]);
    lemma_decimal_bytes(event.sgr_b as nat);
    lemma_decimal_bytes((x + 1) as nat);
    lemma_decimal_bytes((y + 1) as nat);
    let sb = 3int;
    let sx = sb + db.len() + 1;
    let sy = sx + dx.len() + 1;
    let end = sy + dy.len();
    assert(bytes.subrange(sb, sb + db.len()) =~= db);
    assert(bytes[sb + db.len()] == 0x3bu8);
    lemma_read_decimal(bytes, sb, event.sgr_b as nat);
    assert(bytes.subrange(sx, sx + dx.len()) =~= dx);
    assert(bytes[sx + dx.len()] == 0x3bu8);
    lemma_read_decimal(bytes, sx, (x + 1) as nat);
    assert(bytes.subrange(sy, sy + dy.len()) =~= dy);
    assert(bytes[end] == t);
    lemma_read_decimal(bytes, sy, (y + 1) as nat);
    assert(bytes.len() == end + 1);
}


/// A decimal field that ends inside `input` reads the same when more bytes
/// follow.
proof fn lemma_decimal_ignores_later_bytes(input: Seq<u8>, suffix: Seq<u8>, start: int)
    requires
        mouse_decimal(input, start) is Some,
    ensures
        mouse_decimal(input + suffix, start) == mouse_decimal(input, start),
        0 <= (mouse_decimal(input, start)->0).1 < input.len(),
{
    let ext = input + suffix;
    lemma_digit_run_end_bounds(input, start);
    let end = digit_run_end(input, start);
    assert forall|k: int| start <= k < end implies is_ascii_digit(#[trigger] ext[k]) by {
        assert(ext[k] == input[k]);
    }
    assert(ext[end] == input[end]);
    lemma_digit_run_end_at(ext, start, end);
    assert(ext.subrange(start, end) =~= input.subrange(start, end));
}

/// A decided decode (anything but `Partial`) of a non-empty buffer depends
/// only on the bytes already seen: more bytes after them do not change it.
pub proof fn law_decided_decode_ignores_later_bytes(
    input: Seq<u8>,
    suffix: Seq<u8>,
    last: Option<MouseForwardEvent>,
)
    requires
        input.len() > 0,
        decode_mouse_spec(input, last) != MouseDecode::Partial,
    ensures
        decode_mouse_spec(input + suffix, last) == decode_mouse_spec(input, last),
{
    let ext = input + suffix;
    assert forall|k: int| 0 <= k < input.len() implies #[trigger] ext[k] == input[k] by {}
    if input[0] == 0x1b && input.len() >= 3 && input[1] == 0x5b {
        if input[2] == 0x4d {
            if input.len() >= 6 {
                assert(ext[3] == input[3] && ext[4] == input[4] && ext[5] == input[5]);
                assert(legacy_event(ext, previous_or_none(last)) == legacy_event(
                    input,
                    previous_or_none(last),
                ));
            }
        } else if input[2] == 0x3c {
            let (b, end_b) = mouse_decimal(input, 3)->0;
            lemma_decimal_ignores_later_bytes(input, suffix, 3);
            let (x, end_x) = mouse_decimal(input, end_b + 1)->0;
            lemma_decimal_ignores_later_bytes(input, suffix, end_b + 1);
            let (y, end_y) = mouse_decimal(input, end_x + 1)->0;
            lemma_decimal_ignores_later_bytes(input, suffix, end_x + 1);
            assert(ext[end_y] == input[end_y]);
        }
    }
}


/// A legacy report of motion with the button released (drag bit set, button
/// bits 3), after a report whose button was released too, is dropped for
/// every pane that has not asked for any-motion reporting, whatever other
/// mouse modes it has; the SGR form drops such a report by its own button
/// code under the same condition.
pub proof fn law_released_motion_needs_any_motion_mode(
    pane_mode: u32,
    event: MouseForwardEvent,
    x: u16,
    y: u16,
)
    requires
        pane_mode & MODE_MOUSE_ALL == 0,
        if event.sgr_type == ' ' {
            event.b & 32u16 != 0u16 && event.b & 195u16 == 3u16 && event.lb & 195u16 == 3u16
        } else {
            event.sgr_b & 32u16 != 0u16 && event.sgr_b & 195u16 == 3u16
        },
    ensures
        encode_mouse_spec(pane_mode, event, x, y) is None,
{
}

/// A pane in any-motion mode (without the UTF-8 or SGR forms) gets every
/// legacy report whose button code fits in a byte, drag-releases included:
/// `ESC [ M`, the button plus 32, and the coordinates plus 33, each capped at
/// 255.
pub proof fn law_any_motion_pane_gets_legacy_reports(
    pane_mode: u32,
    event: MouseForwardEvent,
    x: u16,
    y: u16,
)
    requires
        pane_mode & MODE_MOUSE_ALL != 0,
        pane_mode & MODE_MOUSE_UTF8 == 0,
        pane_mode & MODE_MOUSE_SGR == 0 || event.sgr_type == ' ',
        !event.ignore,
        event.b + 32 <= 255,
    ensures
        encode_mouse_spec(pane_mode, event, x, y) == Some(
            seq![
                0x1bu8,
                0x5bu8,
                0x4du8,
                (event.b + 32) as u8,
                (if x + 33 > 255 { 255 } else { x + 33 }) as u8,
                (if y + 33 > 255 { 255 } else { y + 33 }) as u8,
            ],
        ),
{
    assert(pane_mode & 0x1000u32 != 0u32 ==> pane_mode & 0x1060u32 != 0u32) by (bit_vector);
    assert(pane_mode & 0x1000u32 != 0u32 ==> pane_mode & (0x40u32 | 0x1000u32) != 0u32) by (bit_vector);
}

} // verus!
