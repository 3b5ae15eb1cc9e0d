use esp32s3_i2s_mic_idf::wifi::{
    backoff_ms, check_credentials, connect_wifi, format_address_line, format_banner,
    format_endpoint, has_address, is_expected_network, on_address, AuthMethod, CredentialError, JoinAction,
    JoinAttempts,
};

#[test]
fn a_network_with_a_password_is_joined_by_wpa2() {
    let config = connect_wifi("home", "secret").ok().unwrap();
    assert_eq!(config.credentials.ssid, "home");
    assert_eq!(config.credentials.password, "secret");
    assert_eq!(config.auth_method, AuthMethod::Wpa2Personal);
}

#[test]
fn a_network_without_a_password_is_open() {
    let config = connect_wifi("cafe", "").ok().unwrap();
    assert_eq!(config.credentials.password, "");
    assert_eq!(config.auth_method, AuthMethod::Open);
}

#[test]
fn credentials_have_a_longest_length_in_bytes() {
    assert!(check_credentials(&"s".repeat(32), &"p".repeat(64)).is_ok());
    assert_eq!(
        check_credentials(&"s".repeat(33), &"p".repeat(65)).err(),
        Some(CredentialError::Ssid)
    );
    assert_eq!(
        check_credentials(&"s".repeat(32), &"p".repeat(65)).err(),
        Some(CredentialError::Password)
    );
    assert_eq!(connect_wifi(&"\u{e9}".repeat(17), "").err(), Some(CredentialError::Ssid));
    assert!(connect_wifi(&"\u{e9}".repeat(16), "").is_ok());
    assert_eq!(connect_wifi("s", &"p".repeat(65)).err(), Some(CredentialError::Password));
}

#[test]
fn the_wait_doubles_up_to_64_seconds() {
    let waits: Vec<u64> = (0..10).map(backoff_ms).collect();
    assert_eq!(waits, vec![1000, 1000, 2000, 4000, 8000, 16000, 32000, 64000, 64000, 64000]);
    assert_eq!(backoff_ms(u32::MAX), 64000);
}

#[test]
fn joining_is_tried_until_it_succeeds() {
    let mut attempts = JoinAttempts::new();
    assert_eq!(attempts.on_attempt(false), JoinAction::Retry { attempt: 1, wait_ms: 1000 });
    assert_eq!(attempts.on_attempt(false), JoinAction::Retry { attempt: 2, wait_ms: 2000 });
    assert_eq!(attempts.on_attempt(true), JoinAction::Joined { attempt: 3 });
    assert_eq!(attempts.count(), 3);
}

#[test]
fn no_address_is_all_zeros() {
    assert!(!has_address([0, 0, 0, 0]));
    assert!(has_address([192, 168, 68, 122]));
    assert!(has_address([0, 0, 0, 1]));
    assert!(has_address([10, 0, 0, 0]));
    assert!(has_address([0, 1, 0, 0]));
    assert!(has_address([0, 0, 1, 0]));
}

#[test]
fn the_endpoint_names_no_port() {
    assert_eq!(format_endpoint("192.168.68.122"), "ws://192.168.68.122/audio");
    assert_eq!(format_endpoint(""), "ws:///audio");
}

#[test]
fn the_banner_tells_a_shell_the_address() {
    assert_eq!(format_address_line("192.168.68.122"), "set -gx S3_IP 192.168.68.122");
    assert_eq!(
        format_banner("10.0.0.7"),
        "\n========================================\nset -gx S3_IP 10.0.0.7\n========================================\n"
    );
}

#[test]
fn a_home_network_starts_with_192() {
    assert!(is_expected_network("192.168.0.1"));
    assert!(is_expected_network("192."));
    assert!(!is_expected_network("192"));
    assert!(!is_expected_network("10.0.0.1"));
    assert!(!is_expected_network("1192.0.0.1"));
    assert!(!is_expected_network(""));
}

#[test]
fn waiting_ends_with_the_first_address() {
    assert!(!on_address(None));
    assert!(!on_address(Some([0, 0, 0, 0])));
    assert!(on_address(Some([192, 168, 68, 122])));
    assert!(on_address(Some([0, 0, 0, 1])));
}
