use rmux_server::waits::observe_bytes;

#[test]
fn byte_observer_matches_across_event_boundaries_without_unbounded_tail() {
    let mut tail = Vec::new();
    assert!(!observe_bytes(&mut tail, b"needle", b"xxnee"));
    assert_eq!(tail, b"xxnee");
    assert!(observe_bytes(&mut tail, b"needle", b"dleyy"));
    assert_eq!(tail, b"dleyy");
}

#[test]
fn byte_observer_keeps_only_needle_length_minus_one() {
    let mut tail = Vec::new();
    assert!(!observe_bytes(&mut tail, b"abc", b"0123456789"));
    assert_eq!(tail, b"89");
    assert!(observe_bytes(&mut tail, b"abc", b"9abc"));
    assert_eq!(tail, b"bc");
}

#[test]
fn byte_observer_ignores_empty_chunks() {
    let mut tail = b"ne".to_vec();
    assert!(!observe_bytes(&mut tail, b"needle", b""));
    assert_eq!(tail, b"ne");
}

#[test]
fn byte_observer_single_byte_needle_keeps_no_tail() {
    let mut tail = b"zz".to_vec();
    assert!(observe_bytes(&mut tail, b"x", b"axb"));
    assert!(tail.is_empty());
    assert!(!observe_bytes(&mut tail, b"x", b"ab"));
}

#[test]
fn byte_observer_stream_cut_one_byte_at_a_time_finds_the_needle() {
    let stream = b"xxneedleyy";
    let mut tail = Vec::new();
    let mut any = false;
    for b in stream.iter() {
        any = observe_bytes(&mut tail, b"needle", &[*b]) || any;
    }
    assert!(any);
    assert_eq!(tail, b"dleyy");

    let mut tail = Vec::new();
    let mut any = false;
    for chunk in [&b"nee"[..], &b""[..], &b"dl"[..], &b"x"[..]] {
        any = observe_bytes(&mut tail, b"needle", chunk) || any;
    }
    assert!(!any);
    assert_eq!(tail, b"eedlx");
}
