use rmux_server::keys::resolve_hex_key;

#[test]
fn hex_keys_accept_optional_prefix() {
    assert_eq!(resolve_hex_key("41"), Some(b'A'));
    assert_eq!(resolve_hex_key("0x0d"), Some(0x0d));
}

#[test]
fn hex_keys_follow_from_str_radix() {
    assert_eq!(resolve_hex_key("FF"), Some(0xff));
    assert_eq!(resolve_hex_key("0x00ff"), Some(0xff));
    assert_eq!(resolve_hex_key("+7f"), Some(0x7f));
    assert_eq!(resolve_hex_key("0x+a"), Some(0x0a));
    assert_eq!(resolve_hex_key("100"), None);
    assert_eq!(resolve_hex_key(""), None);
    assert_eq!(resolve_hex_key("0x"), None);
    assert_eq!(resolve_hex_key("+"), None);
    assert_eq!(resolve_hex_key("-1"), None);
    assert_eq!(resolve_hex_key("0X41"), None);
    assert_eq!(resolve_hex_key("g1"), None);
}
