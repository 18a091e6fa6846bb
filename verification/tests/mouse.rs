use rmux_server::mode;
use rmux_server::mouse::{decode_mouse, encode_mouse_event, MouseDecode, MouseForwardEvent};

#[test]
fn mouse_decode_supports_standard_and_sgr_sequences() {
    let old = decode_mouse(b"\x1b[M !!", None);
    assert_eq!(
        old,
        MouseDecode::Matched {
            size: 6,
            event: MouseForwardEvent {
                b: 0,
                lb: 0,
                x: 0,
                y: 0,
                lx: 0,
                ly: 0,
                sgr_b: 0,
                sgr_type: ' ',
                ignore: false,
            }
        }
    );

    let sgr = decode_mouse(b"\x1b[<35;12;7M", None);
    assert_eq!(
        sgr,
        MouseDecode::Matched {
            size: 11,
            event: MouseForwardEvent {
                b: 35,
                lb: 0,
                x: 11,
                y: 6,
                lx: 0,
                ly: 0,
                sgr_b: 35,
                sgr_type: 'M',
                ignore: false,
            }
        }
    );
}

#[test]
fn mouse_decode_discards_putty_release_wheel_sequences() {
    assert_eq!(
        decode_mouse(b"\x1b[<64;10;4m", None),
        MouseDecode::Discard { size: 11 }
    );
}

#[test]
fn mouse_output_encodes_all_three_formats() {
    let event = MouseForwardEvent::button_event(0, 0, 0);
    assert_eq!(
        encode_mouse_event(mode::MODE_MOUSE_STANDARD, &event, 1, 2).expect("legacy"),
        b"\x1b[M \"#"
    );
    assert_eq!(
        encode_mouse_event(
            mode::MODE_MOUSE_STANDARD | mode::MODE_MOUSE_UTF8,
            &event,
            1,
            2
        )
        .expect("utf8"),
        b"\x1b[M \"#"
    );
    assert_eq!(
        encode_mouse_event(
            mode::MODE_MOUSE_STANDARD | mode::MODE_MOUSE_SGR,
            &MouseForwardEvent {
                sgr_b: 0,
                sgr_type: 'M',
                ..event
            },
            1,
            2
        )
        .expect("sgr"),
        b"\x1b[<0;2;3M"
    );
}

#[test]
fn mouse_output_respects_motion_and_release_filters() {
    let drag = MouseForwardEvent {
        b: 32,
        lb: 0,
        x: 5,
        y: 6,
        lx: 4,
        ly: 5,
        sgr_b: 32,
        sgr_type: ' ',
        ignore: false,
    };
    assert!(
        encode_mouse_event(mode::MODE_MOUSE_STANDARD, &drag, 5, 6).is_none(),
        "drag events need motion mode"
    );
    assert!(
        encode_mouse_event(mode::MODE_MOUSE_BUTTON, &drag, 5, 6).is_some(),
        "button mode accepts drag motion"
    );

    let release = MouseForwardEvent {
        b: 35,
        lb: 35,
        x: 5,
        y: 6,
        lx: 5,
        ly: 6,
        sgr_b: 35,
        sgr_type: 'm',
        ignore: false,
    };
    assert!(
        encode_mouse_event(
            mode::MODE_MOUSE_STANDARD | mode::MODE_MOUSE_SGR,
            &release,
            5,
            6
        )
        .is_none(),
        "SGR releases need all-motion mode"
    );
    assert!(
        encode_mouse_event(mode::MODE_MOUSE_ALL | mode::MODE_MOUSE_SGR, &release, 5, 6).is_some(),
        "all mode forwards SGR releases"
    );
}

#[test]
fn legacy_mouse_output_clamps_large_coordinates() {
    let event = MouseForwardEvent::button_event(0, 0, 0);
    let encoded = encode_mouse_event(mode::MODE_MOUSE_STANDARD, &event, 500, 700).expect("legacy");
    assert_eq!(encoded, [0x1b, b'[', b'M', b' ', 0xff, 0xff]);
}

#[test]
fn utf8_mouse_output_rejects_out_of_range_button_values() {
    let event = MouseForwardEvent::button_event(0x900, 0, 0);
    assert!(encode_mouse_event(
        mode::MODE_MOUSE_STANDARD | mode::MODE_MOUSE_UTF8,
        &event,
        0,
        0
    )
    .is_none());
}

#[test]
fn mouse_decode_rejects_non_esc_start() {
    assert_eq!(decode_mouse(b"X", None), MouseDecode::Invalid);
}

#[test]
fn mouse_decode_partial_on_short_legacy() {
    assert_eq!(decode_mouse(b"\x1b[M!!", None), MouseDecode::Partial);
}

#[test]
fn mouse_decode_sgr_partial_on_incomplete() {
    assert_eq!(decode_mouse(b"\x1b[<0;1;", None), MouseDecode::Partial);
}

#[test]
fn mouse_decode_sgr_rejects_zero_coordinates() {
    assert_eq!(
        decode_mouse(b"\x1b[<0;0;1M", None),
        MouseDecode::Discard { size: 9 }
    );
    assert_eq!(
        decode_mouse(b"\x1b[<0;1;0M", None),
        MouseDecode::Discard { size: 9 }
    );
}

#[test]
fn mouse_decode_legacy_discards_underflow() {
    // b < MOUSE_PARAM_BTN_OFF
    assert_eq!(
        decode_mouse(b"\x1b[M\x10!!", None),
        MouseDecode::Discard { size: 6 }
    );
}

#[test]
fn mouse_decode_preserves_last_event_positions() {
    let last = MouseForwardEvent {
        b: 0,
        lb: 0,
        x: 10,
        y: 20,
        lx: 5,
        ly: 15,
        sgr_b: 0,
        sgr_type: ' ',
        ignore: false,
    };
    let result = decode_mouse(b"\x1b[<0;5;8M", Some(last));
    if let MouseDecode::Matched { event, .. } = result {
        assert_eq!(event.lx, 10, "lx from previous event's x");
        assert_eq!(event.ly, 20, "ly from previous event's y");
        assert_eq!(event.lb, 0, "lb from previous event's b");
    } else {
        panic!("expected matched");
    }
}

#[test]
fn mouse_output_ignores_ignored_events() {
    let event = MouseForwardEvent {
        b: 0,
        lb: 0,
        x: 0,
        y: 0,
        lx: 0,
        ly: 0,
        sgr_b: 0,
        sgr_type: ' ',
        ignore: true,
    };
    assert!(encode_mouse_event(mode::MODE_MOUSE_STANDARD, &event, 0, 0).is_none());
}

#[test]
fn mouse_output_requires_mouse_mode_enabled() {
    let event = MouseForwardEvent::button_event(0, 0, 0);
    assert!(
        encode_mouse_event(0, &event, 0, 0).is_none(),
        "no mouse mode means no output"
    );
}

#[test]
fn mouse_decode_overflowing_decimal_returns_partial() {
    // 70000 overflows u16::MAX (65535), checked_mul/checked_add returns None
    // which makes parse_mouse_decimal return None, treated as Partial
    let result = decode_mouse(b"\x1b[<70000;1;1M", None);
    assert_eq!(
        result,
        MouseDecode::Partial,
        "overflow in decimal parse returns Partial"
    );
}

#[test]
fn sgr_mouse_release_falls_through_to_legacy_when_no_sgr_type() {
    let event = MouseForwardEvent {
        b: 3, // release
        lb: 0,
        x: 0,
        y: 0,
        lx: 0,
        ly: 0,
        sgr_b: 0,
        sgr_type: ' ', // non-SGR source
        ignore: false,
    };
    // SGR mode is set but event is from non-SGR terminal
    let result = encode_mouse_event(
        mode::MODE_MOUSE_STANDARD | mode::MODE_MOUSE_SGR,
        &event,
        0,
        0,
    );
    // Should fall through to legacy format since we can't convert
    // a legacy release to SGR format (button identity unknown)
    assert!(result.is_some());
    assert_eq!(result.unwrap(), b"\x1b[M#!!");
}

#[test]
fn non_sgr_source_with_sgr_mode_falls_through_to_legacy() {
    // When the terminal sent a non-SGR event but the application wants SGR,
    // we must fall through to legacy format (tmux behavior: can't convert
    // legacy button encoding to SGR).
    let event = MouseForwardEvent::button_event(0, 0, 0);
    assert_eq!(event.sgr_type, ' ', "source is non-SGR");
    let result = encode_mouse_event(
        mode::MODE_MOUSE_STANDARD | mode::MODE_MOUSE_SGR,
        &event,
        5,
        3,
    );
    assert!(result.is_some());
    assert_eq!(result.unwrap(), b"\x1b[M &$");
}

#[test]
fn legacy_report_round_trips_through_decoder() {
    let event = MouseForwardEvent::button_event(2, 0, 0);
    let bytes = encode_mouse_event(mode::MODE_MOUSE_STANDARD, &event, 10, 20).expect("legacy");
    assert_eq!(bytes, b"\x1b[M\"+5");
    match decode_mouse(&bytes, None) {
        MouseDecode::Matched { size, event } => {
            assert_eq!(size, 6);
            assert_eq!((event.b, event.x, event.y), (2, 10, 20));
        }
        other => panic!("unexpected {other:?}"),
    }
}

#[test]
fn sgr_report_round_trips_through_decoder() {
    let event = MouseForwardEvent {
        sgr_b: 4,
        sgr_type: 'M',
        ..MouseForwardEvent::button_event(4, 0, 0)
    };
    let bytes = encode_mouse_event(
        mode::MODE_MOUSE_STANDARD | mode::MODE_MOUSE_SGR,
        &event,
        122,
        9,
    )
    .expect("sgr");
    assert_eq!(bytes, b"\x1b[<4;123;10M");
    match decode_mouse(&bytes, Some(event)) {
        MouseDecode::Matched { size, event: decoded } => {
            assert_eq!(size, bytes.len());
            assert_eq!((decoded.b, decoded.x, decoded.y), (4, 122, 9));
            assert_eq!(decoded.sgr_type, 'M');
        }
        other => panic!("unexpected {other:?}"),
    }
}

#[test]
fn sgr_release_decodes_as_button_three() {
    assert_eq!(
        decode_mouse(b"\x1b[<0;3;4m", None),
        MouseDecode::Matched {
            size: 9,
            event: MouseForwardEvent {
                b: 3,
                lb: 0,
                x: 2,
                y: 3,
                lx: 0,
                ly: 0,
                sgr_b: 0,
                sgr_type: 'm',
                ignore: false,
            }
        }
    );
}

#[test]
fn mouse_decode_rejects_unknown_csi_and_bad_terminators() {
    assert_eq!(decode_mouse(b"\x1b", None), MouseDecode::Partial);
    assert_eq!(decode_mouse(b"\x1b[", None), MouseDecode::Partial);
    assert_eq!(decode_mouse(b"\x1bO", None), MouseDecode::Invalid);
    assert_eq!(decode_mouse(b"\x1b[A", None), MouseDecode::Invalid);
    assert_eq!(decode_mouse(b"\x1b[<1;2;3;", None), MouseDecode::Invalid);
    assert_eq!(decode_mouse(b"\x1b[<1x", None), MouseDecode::Partial);
}

#[test]
fn utf8_mouse_output_uses_two_byte_values() {
    let event = MouseForwardEvent::button_event(0, 0, 0);
    let bytes = encode_mouse_event(
        mode::MODE_MOUSE_STANDARD | mode::MODE_MOUSE_UTF8,
        &event,
        200,
        0,
    )
    .expect("utf8");
    // 200 + 0x21 = 0xe9 is sent as the two bytes 0xc3 0xa9.
    assert_eq!(bytes, [0x1b, b'[', b'M', b' ', 0xc3, 0xa9, b'!']);
}

#[test]
fn decided_mouse_decodes_ignore_bytes_that_follow() {
    for input in [&b"\x1b[M !!"[..], b"\x1b[<35;12;7M", b"\x1b[<64;10;4m", b"X", b"\x1b[<1;2;3;"] {
        let decided = decode_mouse(input, None);
        assert_ne!(decided, MouseDecode::Partial);
        let mut longer = input.to_vec();
        longer.extend_from_slice(b"\x1b[<0;1;1Mtail");
        assert_eq!(decode_mouse(&longer, None), decided);
    }
}
