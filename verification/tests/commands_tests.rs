use rshell_core::commands::{
    auth_method_from_request, get_command_name, is_interactive_command,
    transform_interactive_command, ConnectRequest,
};
use rshell_core::config::AuthMethod;

fn request(auth: &str) -> ConnectRequest {
    ConnectRequest {
        session_id: "s1".to_string(),
        host: "example.net".to_string(),
        port: 22,
        username: "admin".to_string(),
        auth_method: auth.to_string(),
        password: None,
        key_path: None,
        passphrase: None,
    }
}

#[test]
fn test_transform_top_gains_batch_flags() {
    assert_eq!(transform_interactive_command("top"), "top -bn1");
    assert_eq!(transform_interactive_command("top -u root"), "top -u root -bn1");
    assert_eq!(transform_interactive_command("  top  "), "top -bn1");
}

#[test]
fn test_transform_htop_becomes_batch_top() {
    assert_eq!(transform_interactive_command("htop"), "top -bn1");
    assert_eq!(transform_interactive_command("htop -d 5"), "top -bn1");
}

#[test]
fn test_transform_leaves_other_commands_alone() {
    assert_eq!(transform_interactive_command("ls -la"), "ls -la");
    assert_eq!(transform_interactive_command("  df -h "), "  df -h ");
    assert_eq!(transform_interactive_command("topology"), "topology");
}

#[test]
fn test_is_interactive_command_known_names() {
    assert!(is_interactive_command("vim notes.txt"));
    assert!(is_interactive_command("  htop"));
    assert!(is_interactive_command("less /var/log/syslog"));
    assert!(!is_interactive_command("ls -la"));
    assert!(!is_interactive_command("vimdiff a b"));
    assert!(!is_interactive_command(""));
}

#[test]
fn test_get_command_name_takes_first_word() {
    assert_eq!(get_command_name("ls -la"), "ls");
    assert_eq!(get_command_name("   tail -f log"), "tail");
    assert_eq!(get_command_name(""), "");
    assert_eq!(get_command_name("   "), "");
}

#[test]
fn test_auth_method_password() {
    let mut req = request("password");
    req.password = Some("secret".to_string());
    match auth_method_from_request(&req) {
        Ok(AuthMethod::Password { password }) => assert_eq!(password, "secret"),
        other => panic!("expected password method, got {:?}", other),
    }
}

#[test]
fn test_auth_method_password_missing() {
    let req = request("password");
    let resp = auth_method_from_request(&req).expect_err("must fail");
    assert!(!resp.success);
    assert_eq!(resp.error.as_deref(), Some("password required"));
}

#[test]
fn test_auth_method_publickey() {
    let mut req = request("publickey");
    req.key_path = Some("/home/user/.ssh/id_ed25519".to_string());
    req.passphrase = Some("pp".to_string());
    match auth_method_from_request(&req) {
        Ok(AuthMethod::PublicKey { key_path, passphrase }) => {
            assert_eq!(key_path, "/home/user/.ssh/id_ed25519");
            assert_eq!(passphrase.as_deref(), Some("pp"));
        }
        other => panic!("expected public key method, got {:?}", other),
    }
}

#[test]
fn test_auth_method_invalid() {
    let req = request("hostbased");
    let resp = auth_method_from_request(&req).expect_err("must fail");
    assert!(!resp.success);
    assert_eq!(resp.error.as_deref(), Some("invalid auth method"));
}
