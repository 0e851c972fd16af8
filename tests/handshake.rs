use peer_discovery::protocol::{
    is_peer_reply, reply_for, reply_message, request_message, ClientEvent, ClientState,
    ListenerState, PORT, READ_BUFFER_LEN,
};

#[test]
fn wire_messages() {
    assert_eq!(request_message(), b"PING_TAURI_APP\n".to_vec());
    assert_eq!(reply_message(), b"TAURI_APP_HERE\n".to_vec());
    assert_eq!(PORT, 54321);
    assert_eq!(READ_BUFFER_LEN, 100);
}

#[test]
fn listener_answers_ping_exactly() {
    assert_eq!(reply_for(b"PING_TAURI_APP\n"), Some(b"TAURI_APP_HERE\n".to_vec()));
    let mut buffer = [0u8; 100];
    buffer[..15].copy_from_slice(b"PING_TAURI_APP\n");
    assert_eq!(reply_for(&buffer), Some(b"TAURI_APP_HERE\n".to_vec()));
    assert_eq!(reply_for(b"xxPING_TAURI_APPyy"), Some(b"TAURI_APP_HERE\n".to_vec()));
}

#[test]
fn listener_ignores_other_messages() {
    assert_eq!(reply_for(b""), None);
    assert_eq!(reply_for(&[0u8; 100]), None);
    assert_eq!(reply_for(&[0xff, 0x13, 0x80, 0x50, 0x49]), None);
    assert_eq!(reply_for(b"PING_TAURI_AP"), None);
    assert_eq!(reply_for(b"ping_tauri_app\n"), None);
}

#[test]
fn reply_recognised_anywhere_in_buffer() {
    assert!(is_peer_reply(b"TAURI_APP_HERE\n"));
    let mut buffer = [0u8; 100];
    buffer[..15].copy_from_slice(b"TAURI_APP_HERE\n");
    assert!(is_peer_reply(&buffer));
    assert!(is_peer_reply(&[0xc3, b'T', b'A', b'U', b'R', b'I', b'_', b'A', b'P', b'P', b'_', b'H', b'E', b'R', b'E']));
    assert!(!is_peer_reply(b""));
    assert!(!is_peer_reply(b"TAURI_APP_HER"));
    assert!(!is_peer_reply(b"PING_TAURI_APP\n"));
}

fn run_handshake(events: Vec<ClientEvent>) -> Option<bool> {
    let mut state = ClientState::start();
    for event in &events {
        state = state.step(event);
    }
    state.outcome()
}

#[test]
fn handshake_with_live_listener_finds_peer() {
    let reply = reply_for(&request_message()).unwrap();
    let outcome = run_handshake(vec![
        ClientEvent::Connected,
        ClientEvent::Sent,
        ClientEvent::Received(reply),
    ]);
    assert_eq!(outcome, Some(true));
}

#[test]
fn handshake_against_closed_port_is_negative() {
    assert_eq!(run_handshake(vec![ClientEvent::ConnectFailed]), Some(false));
}

#[test]
fn handshake_io_failures_are_negative() {
    assert_eq!(run_handshake(vec![ClientEvent::Connected, ClientEvent::SendFailed]), Some(false));
    assert_eq!(
        run_handshake(vec![ClientEvent::Connected, ClientEvent::Sent, ClientEvent::ReceiveFailed]),
        Some(false)
    );
    assert_eq!(
        run_handshake(vec![
            ClientEvent::Connected,
            ClientEvent::Sent,
            ClientEvent::Received(b"HELLO\n".to_vec()),
        ]),
        Some(false)
    );
}

#[test]
fn handshake_in_progress_and_after_end() {
    assert_eq!(run_handshake(vec![]), None);
    assert_eq!(run_handshake(vec![ClientEvent::Connected]), None);
    assert_eq!(run_handshake(vec![ClientEvent::Connected, ClientEvent::Sent]), None);
    assert_eq!(run_handshake(vec![ClientEvent::Sent]), Some(false));
    let done = ClientState::Done(true);
    assert_eq!(done.step(&ClientEvent::ReceiveFailed), ClientState::Done(true));
}

#[test]
fn listener_states() {
    assert_eq!(ListenerState::Idle.after_bind(true), ListenerState::Listening);
    assert_eq!(ListenerState::Idle.after_bind(false), ListenerState::Idle);
    assert_eq!(ListenerState::Listening.after_bind(false), ListenerState::Listening);
    assert!(ListenerState::Listening.is_listening());
    assert!(!ListenerState::Idle.is_listening());
}
