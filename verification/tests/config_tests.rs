use giralnet::config::{build_setup_config, secret_is_long_enough, Mode};

#[test]
fn setup_config_keeps_choices_and_defaults() {
    let cfg = build_setup_config(
        Mode::Node,
        "localhost:8000".to_string(),
        "correct horse".to_string(),
        "127.0.0.1:9001".to_string(),
    );
    assert_eq!(cfg.mode, Mode::Node);
    assert_eq!(cfg.directory.listen_addr, "localhost:8000");
    assert_eq!(cfg.directory.secret, "correct horse");
    assert_eq!(cfg.node.listen_addr, "127.0.0.1:9001");
    assert_eq!(cfg.node.key_file, "node_key");
    assert_eq!(cfg.proxy.listen_addr, "127.0.0.1:9050");
    assert_eq!(cfg.tls.ca_cert_path, "cert.pem");
    assert_eq!(cfg.tls.cert_path, "cert.pem");
    assert_eq!(cfg.tls.key_path, "key.pem");
}

#[test]
fn short_secrets_are_rejected_at_setup() {
    assert!(!secret_is_long_enough(b"seven77"));
    assert!(secret_is_long_enough(b"eight888"));
}
