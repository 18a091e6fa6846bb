use rmux_server::shell_text::{
    cmd_quote, hex_dump, sh_single_quote, shell_env_or_default_command, shell_quote,
    shell_success_command,
};

#[test]
fn posix_quoting_escapes_single_quotes() {
    assert_eq!(shell_quote("/tmp/a b"), "'/tmp/a b'");
    assert_eq!(shell_quote("it's"), "'it'\\''s'");
    assert_eq!(shell_quote(""), "''");
    assert_eq!(sh_single_quote("/tmp/o'k"), "'/tmp/o'\\''k'");
}

#[test]
fn cmd_quoting_wraps_in_double_quotes() {
    assert_eq!(cmd_quote(r"C:\tmp\out file"), "\"C:\\tmp\\out file\"");
}

#[test]
fn shell_commands_for_tests() {
    assert_eq!(shell_success_command(), "true");
    assert_eq!(shell_env_or_default_command("FOO", "none"), "printf %s \"${FOO-none}\"");
}

#[test]
fn hex_dump_formats_upper_case_pairs() {
    assert_eq!(hex_dump(&[]), "");
    assert_eq!(hex_dump(&[0x0d]), "0D");
    assert_eq!(hex_dump(&[0x00, 0xff, 0x1b, 0x5b]), "00-FF-1B-5B");
}
