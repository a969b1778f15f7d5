use mqtt_proxy::error::ProxyError;
use mqtt_proxy::handshake::{classify_and_rewrite, detect_and_convert_protocol, forward_frame, Dialect};

fn legacy_payload() -> Vec<u8> {
    let mut p = vec![0, 6];
    p.extend_from_slice(b"MQIsdp");
    p.push(3);
    // connect flags, keep-alive 60, client id "abc"
    p.extend_from_slice(&[0x02, 0x00, 0x3c, 0x00, 0x03, b'a', b'b', b'c']);
    p
}

fn standard_payload(level: u8) -> Vec<u8> {
    let mut p = vec![0, 4];
    p.extend_from_slice(b"MQTT");
    p.push(level);
    p.extend_from_slice(&[0x02, 0x00, 0x3c, 0x00, 0x03, b'x', b'y', b'z']);
    p
}

#[test]
fn legacy_is_upgraded() {
    let p = legacy_payload();
    let (d, out) = detect_and_convert_protocol(&p).unwrap();
    assert_eq!(d, Dialect::LegacyV1);
    assert_eq!(&out[..7], &[0, 4, b'M', b'Q', b'T', b'T', 4]);
    assert_eq!(out.len(), p.len() - 2);
}

#[test]
fn legacy_suffix_is_kept() {
    let p = legacy_payload();
    let (_, out) = detect_and_convert_protocol(&p).unwrap();
    assert_eq!(&out[7..], &p[9..]);
    assert_eq!(&out[7..], &[0x02, 0x00, 0x3c, 0x00, 0x03, b'a', b'b', b'c']);
}

#[test]
fn legacy_with_no_fields_after_level() {
    let mut p = vec![0, 6];
    p.extend_from_slice(b"MQIsdp");
    p.push(3);
    let (d, out) = detect_and_convert_protocol(&p).unwrap();
    assert_eq!(d, Dialect::LegacyV1);
    assert_eq!(out, vec![0, 4, b'M', b'Q', b'T', b'T', 4]);
}

#[test]
fn standard_passes_through() {
    let p = standard_payload(4);
    assert_eq!(detect_and_convert_protocol(&p), Ok((Dialect::Standard, p.clone())));
}

#[test]
fn extended_passes_through() {
    let p = standard_payload(5);
    assert_eq!(detect_and_convert_protocol(&p), Ok((Dialect::Extended, p.clone())));
}

#[test]
fn unknown_name_is_refused() {
    for level in [3u8, 4, 5, 0, 255] {
        let p = vec![0, 3, b'F', b'O', b'O', level, 0x02];
        assert_eq!(
            detect_and_convert_protocol(&p),
            Err(ProxyError::UnknownDialect { name: b"FOO".to_vec(), level })
        );
    }
    let p = vec![0, 3, b'F', b'O', b'O', 4];
    assert_eq!(
        detect_and_convert_protocol(&p),
        Err(ProxyError::UnknownDialect { name: b"FOO".to_vec(), level: 4 })
    );
}

#[test]
fn wrong_level_is_refused() {
    let mut p = vec![0, 6];
    p.extend_from_slice(b"MQIsdp");
    p.push(4);
    assert_eq!(
        detect_and_convert_protocol(&p),
        Err(ProxyError::UnknownDialect { name: b"MQIsdp".to_vec(), level: 4 })
    );
    let p = standard_payload(3);
    assert_eq!(
        detect_and_convert_protocol(&p),
        Err(ProxyError::UnknownDialect { name: b"MQTT".to_vec(), level: 3 })
    );
}

#[test]
fn truncated_payloads() {
    assert_eq!(detect_and_convert_protocol(&[]), Err(ProxyError::TruncatedHandshake));
    assert_eq!(detect_and_convert_protocol(&[0]), Err(ProxyError::TruncatedHandshake));
    // name of 4 bytes, but no level byte
    assert_eq!(
        detect_and_convert_protocol(&[0, 4, b'M', b'Q', b'T', b'T']),
        Err(ProxyError::TruncatedHandshake)
    );
    // name length far beyond the payload
    assert_eq!(
        detect_and_convert_protocol(&[0xff, 0xff, b'M']),
        Err(ProxyError::TruncatedHandshake)
    );
}

#[test]
fn non_connect_header_is_refused() {
    let p = standard_payload(4);
    assert_eq!(classify_and_rewrite(0x20, &p), Err(ProxyError::UnexpectedFrame));
    assert_eq!(classify_and_rewrite(0x00, &p), Err(ProxyError::UnexpectedFrame));
    assert_eq!(classify_and_rewrite(0x30, &p), Err(ProxyError::UnexpectedFrame));
    assert_eq!(classify_and_rewrite(0x10, &p), Ok((Dialect::Standard, p.clone())));
}

#[test]
fn forwarded_frame_of_legacy_client() {
    let p = legacy_payload();
    let (d, frame) = forward_frame(0x10, &p).unwrap();
    assert_eq!(d, Dialect::LegacyV1);
    let mut expected = vec![0x10, 15, 0, 4, b'M', b'Q', b'T', b'T', 4];
    expected.extend_from_slice(&[0x02, 0x00, 0x3c, 0x00, 0x03, b'a', b'b', b'c']);
    assert_eq!(frame, expected);
}

#[test]
fn forwarded_frame_of_standard_client() {
    let p = standard_payload(4);
    let (d, frame) = forward_frame(0x10, &p).unwrap();
    assert_eq!(d, Dialect::Standard);
    let mut expected = vec![0x10, p.len() as u8];
    expected.extend_from_slice(&p);
    assert_eq!(frame, expected);
}

#[test]
fn forwarded_frame_with_two_byte_length() {
    let mut p = standard_payload(5);
    p.resize(200, 7);
    let (_, frame) = forward_frame(0x10, &p).unwrap();
    assert_eq!(&frame[..3], &[0x10, 0xc8, 0x01]);
    assert_eq!(&frame[3..], &p[..]);
}
