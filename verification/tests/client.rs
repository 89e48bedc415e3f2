//! Client configuration and targets.

use clux::client::target::{default_socket_path, ClientConfig, ClientTarget};

#[test]
fn test_client_config_default() {
    let config = ClientConfig::from_environment(None, None, "/tmp/clux.sock".to_string());
    assert!(!config.term_type.is_empty());
    assert!(config.term_cols > 0);
    assert!(config.term_rows > 0);
}

#[test]
fn test_remote_target_accessors() {
    let target = ClientTarget::RemoteSsh {
        destination: "devbox".to_string(),
        socket_path: "/tmp/clux.sock".to_string(),
    };

    assert_eq!(target.remote_destination(), Some("devbox"));
    assert_eq!(target.socket_path(), "/tmp/clux.sock");
}

#[test]
fn config_keeps_the_given_size_and_term() {
    let config = ClientConfig::from_environment(Some((120, 40)), Some("screen".to_string()), "/s".to_string());
    assert_eq!(config.term_cols, 120);
    assert_eq!(config.term_rows, 40);
    assert_eq!(config.term_type, "screen");
    assert_eq!(config.target.socket_path(), "/s");
    assert_eq!(config.target.remote_destination(), None);
}

#[test]
fn test_socket_path_default() {
    let config = ClientConfig::from_environment(None, None, default_socket_path("/run/user/1000"));
    assert!(config.target.socket_path().contains("clux"));
    assert_eq!(config.target.socket_path(), "/run/user/1000/clux/default.sock");
    assert_eq!(default_socket_path("/tmp/"), "/tmp/clux/default.sock");
}
