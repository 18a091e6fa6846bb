use rmux_server::host_name::hostname_from_sources;

#[test]
fn hostname_prefers_hostname_env() {
    assert_eq!(
        hostname_from_sources(
            Some(" unix-host ".to_owned()),
            Some("WIN-HOST".to_owned()),
            Some("etc-host".to_owned()),
        ),
        Some("unix-host".to_owned())
    );
}

#[test]
fn hostname_uses_windows_computername_when_hostname_is_missing() {
    assert_eq!(
        hostname_from_sources(None, Some(" WIN-HOST ".to_owned()), None),
        Some("WIN-HOST".to_owned())
    );
}

#[test]
fn hostname_falls_back_to_etc_hostname() {
    assert_eq!(
        hostname_from_sources(None, None, Some(" etc-host\n".to_owned())),
        Some("etc-host".to_owned())
    );
}

#[test]
fn hostname_ignores_empty_sources() {
    assert_eq!(
        hostname_from_sources(Some(" ".to_owned()), Some("\t".to_owned()), None),
        None
    );
}

#[test]
fn hostname_trims_unicode_whitespace() {
    assert_eq!(
        hostname_from_sources(Some("\u{3000}box\u{a0}".to_owned()), None, None),
        Some("box".to_owned())
    );
    assert_eq!(
        hostname_from_sources(Some("\u{2003}".to_owned()), None, Some("x".to_owned())),
        Some("x".to_owned())
    );
}
