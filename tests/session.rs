use mqtt_proxy::error::ProxyError;
use mqtt_proxy::handshake::Dialect;
use mqtt_proxy::session::{Action, Connection};

/// Feeds a client's bytes to a connection until it asks for something other
/// than client input; returns the state, the action and how much was read.
fn drive(input: &[u8]) -> (Connection, Action, usize) {
    let (mut conn, mut action) = Connection::accept();
    let mut pos = 0usize;
    loop {
        match action {
            Action::ReadByte => {
                if pos >= input.len() {
                    let (c, a) = conn.on_client_closed();
                    return (c, a, pos);
                }
                let b = input[pos];
                pos += 1;
                let (c, a) = match conn {
                    Connection::ReadingHeader => conn.on_header(b),
                    _ => conn.on_length_byte(b),
                };
                conn = c;
                action = a;
            }
            Action::ReadPayload(n) => {
                if pos + n > input.len() {
                    let (c, a) = conn.on_client_closed();
                    return (c, a, pos);
                }
                let (c, a) = conn.on_payload(&input[pos..pos + n]);
                pos += n;
                conn = c;
                action = a;
            }
            other => return (conn, other, pos),
        }
    }
}

fn standard_frame() -> Vec<u8> {
    let f = vec![0x10, 12, 0, 4, b'M', b'Q', b'T', b'T', 4, 0x02, 0x00, 0x3c, 0x00, 0x00];
    f
}

#[test]
fn standard_handshake_reaches_relay() {
    let input = standard_frame();
    let (conn, action, used) = drive(&input);
    assert!(matches!(action, Action::ConnectBackend));
    assert_eq!(used, input.len());
    let (conn, action) = conn.on_connected();
    match action {
        Action::SendFrame(frame) => assert_eq!(frame, input),
        other => panic!("unexpected {:?}", other),
    }
    let (conn, action) = conn.on_frame_sent(true);
    assert!(matches!(action, Action::Relay));
    assert!(matches!(conn, Connection::Relaying { dialect: Dialect::Standard }));
}

#[test]
fn legacy_handshake_is_sent_upgraded() {
    let mut input = vec![0x10, 14, 0, 6];
    input.extend_from_slice(b"MQIsdp");
    input.extend_from_slice(&[3, 0x02, 0x00, 0x3c, 0x00, 0x00]);
    let (conn, action, _) = drive(&input);
    assert!(matches!(action, Action::ConnectBackend));
    let (_, action) = conn.on_connected();
    match action {
        Action::SendFrame(frame) => assert_eq!(
            frame,
            vec![0x10, 12, 0, 4, b'M', b'Q', b'T', b'T', 4, 0x02, 0x00, 0x3c, 0x00, 0x00]
        ),
        other => panic!("unexpected {:?}", other),
    }
}

#[test]
fn publish_as_first_frame_is_refused() {
    let mut input = standard_frame();
    input[0] = 0x30;
    let (conn, action, used) = drive(&input);
    assert!(matches!(action, Action::Close(ProxyError::UnexpectedFrame)));
    assert!(matches!(conn, Connection::Closed));
    assert_eq!(used, 1);
}

#[test]
fn overlong_length_field_is_refused() {
    let input = vec![0x10, 0x80, 0x80, 0x80, 0x80, 0x01];
    let (_, action, used) = drive(&input);
    assert!(matches!(action, Action::Close(ProxyError::MalformedLength)));
    assert_eq!(used, 5);
}

#[test]
fn client_leaving_mid_payload() {
    let input = vec![0x10, 12, 0, 4, b'M'];
    let (_, action, _) = drive(&input);
    assert!(matches!(action, Action::Close(ProxyError::ConnectionClosed)));
}

#[test]
fn short_declared_payload_is_truncated() {
    // the frame declares 4 payload bytes, too few for the name it announces
    let input = vec![0x10, 4, 0, 4, b'M', b'Q'];
    let (_, action, _) = drive(&input);
    assert!(matches!(action, Action::Close(ProxyError::TruncatedHandshake)));
}

#[test]
fn backend_down() {
    let (conn, action, _) = drive(&standard_frame());
    assert!(matches!(action, Action::ConnectBackend));
    let (conn, action) = conn.on_connect_failed();
    assert!(matches!(action, Action::Close(ProxyError::BackendUnreachable)));
    assert!(matches!(conn, Connection::Closed));
}

#[test]
fn backend_write_failure_closes() {
    let (conn, _, _) = drive(&standard_frame());
    let (conn, _) = conn.on_connected();
    let (conn, action) = conn.on_frame_sent(false);
    assert!(matches!(action, Action::Close(ProxyError::ConnectionClosed)));
    assert!(matches!(conn, Connection::Closed));
}

#[test]
fn two_connections_do_not_affect_each_other() {
    let (mut bad, _) = Connection::accept();
    let (mut good, _) = Connection::accept();
    // interleave the two handshakes byte by byte
    let (b, _) = bad.on_header(0x10);
    bad = b;
    let (g, _) = good.on_header(0x10);
    good = g;
    let (b, a) = bad.on_length_byte(3);
    bad = b;
    assert!(matches!(a, Action::ReadPayload(3)));
    let (g, a) = good.on_length_byte(12);
    good = g;
    assert!(matches!(a, Action::ReadPayload(12)));
    let (bad, bad_action) = bad.on_payload(&[0, 4, b'M']);
    let good_payload = &standard_frame()[2..];
    let (good, good_action) = good.on_payload(good_payload);
    assert!(matches!(bad_action, Action::Close(ProxyError::TruncatedHandshake)));
    assert!(matches!(bad, Connection::Closed));
    assert!(matches!(good_action, Action::ConnectBackend));
    let (good, _) = good.on_connected();
    let (good, action) = good.on_frame_sent(true);
    assert!(matches!(action, Action::Relay));
    assert!(matches!(good, Connection::Relaying { dialect: Dialect::Standard }));
}
