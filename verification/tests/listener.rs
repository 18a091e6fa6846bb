use rmux_server::listener::startup_lock_paths;

#[test]
fn startup_lock_paths_sit_beside_the_socket() {
    assert_eq!(
        startup_lock_paths("/tmp/rmux-1000/default"),
        vec![
            "/tmp/rmux-1000/default.startup-lock".to_owned(),
            "/tmp/rmux-1000/default.lock".to_owned(),
        ]
    );
}

#[test]
fn relative_socket_names_get_relative_lock_paths() {
    assert_eq!(
        startup_lock_paths("sock"),
        vec!["sock.startup-lock".to_owned(), "sock.lock".to_owned()]
    );
}

#[test]
fn root_and_parent_paths_have_no_lock_files() {
    assert!(startup_lock_paths("/").is_empty());
    assert!(startup_lock_paths("/tmp/..").is_empty());
}
