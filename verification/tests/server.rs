use esp32s3_i2s_mic_idf::server::{
    broadcast_server, startup, websocket_server, Accepted, ServerAction, Startup, Upgraded,
};

#[test]
fn the_single_client_server_passes_over_failed_clients() {
    assert_eq!(websocket_server(Accepted::Client), ServerAction::Serve);
    assert_eq!(websocket_server(Accepted::Failed), ServerAction::Next);
    assert_eq!(websocket_server(Accepted::PeerUnknown), ServerAction::Stop);
}

#[test]
fn the_broadcast_server_stops_on_a_failed_client() {
    assert_eq!(broadcast_server(Upgraded::Websocket), ServerAction::Serve);
    assert_eq!(broadcast_server(Upgraded::NotWebsocket), ServerAction::Next);
    assert_eq!(broadcast_server(Upgraded::Failed), ServerAction::Stop);
}

#[test]
fn a_network_is_joined_only_with_both_credentials() {
    match startup(Some("s".to_string()), Some("p".to_string())) {
        Startup::Join(ssid, pass) => {
            assert_eq!(ssid, "s");
            assert_eq!(pass, "p");
        }
        Startup::CaptureOnly => panic!("the network is not joined"),
    }
    assert!(matches!(startup(None, Some("p".to_string())), Startup::CaptureOnly));
    assert!(matches!(startup(Some("s".to_string()), None), Startup::CaptureOnly));
    assert!(matches!(startup(None, None), Startup::CaptureOnly));
}
