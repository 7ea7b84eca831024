use tcp_tunnel::engine::FlowKey;
use tcp_tunnel::proxy::{
    auth_request, check_auth_reply, check_connect_header, check_connect_reply, check_method_reply,
    connect_request, connect_success_reply, default_password, default_username, method_request,
    parse_connect_addr, AuthEvent, AuthState, GatewayAuth, GatewayError, UpstreamError,
};

#[test]
fn connect_request_on_the_wire() {
    // CONNECT to 10.11.12.13:80 is exactly these ten bytes.
    let key = FlowKey {
        remote_ip: u32::from_be_bytes([10, 11, 12, 13]),
        remote_port: 80,
        local_port: 50000,
    };
    let req = connect_request(&key);
    assert_eq!(req, [0x05, 0x01, 0x00, 0x01, 0x0a, 0x0b, 0x0c, 0x0d, 0x00, 0x50]);
}

#[test]
fn connect_reply_is_checked() {
    // The expected reply begins 05 00 00 01.
    let ok = [0x05, 0x00, 0x00, 0x01, 0, 0, 0, 0, 0, 0];
    assert_eq!(check_connect_reply(&ok), Ok(()));
    let mut bad_version = ok;
    bad_version[0] = 4;
    assert_eq!(check_connect_reply(&bad_version), Err(UpstreamError::BadVersion));
    let mut rejected = ok;
    rejected[1] = 5;
    assert_eq!(check_connect_reply(&rejected), Err(UpstreamError::ConnectRejected(5)));
}

#[test]
fn method_negotiation_messages() {
    assert_eq!(method_request(), [0x05, 0x01, 0x02]);
    assert_eq!(check_method_reply(&[0x05, 0x02]), Ok(()));
    assert_eq!(check_method_reply(&[0x04, 0x02]), Err(UpstreamError::BadVersion));
    assert_eq!(check_method_reply(&[0x05, 0xff]), Err(UpstreamError::AuthUnsupported));
}

#[test]
fn auth_messages() {
    let req = auth_request(&default_username(), &default_password());
    let mut expected = vec![0x01, 8];
    expected.extend_from_slice(b"testuser");
    expected.push(8);
    expected.extend_from_slice(b"testpass");
    assert_eq!(req, expected);

    assert_eq!(check_auth_reply(&[0x01, 0x00]), Ok(()));
    assert_eq!(check_auth_reply(&[0x02, 0x00]), Err(UpstreamError::BadAuthVersion));
    assert_eq!(check_auth_reply(&[0x01, 0x01]), Err(UpstreamError::AuthFailed));
}

#[test]
fn gateway_accepts_configured_credentials() {
    let mut auth = GatewayAuth::new();
    assert_eq!(auth.needed(), 2);
    assert!(matches!(auth.advance(&[5, 1]), AuthEvent::Continue));
    assert_eq!(auth.needed(), 1);
    match auth.advance(&[2]) {
        AuthEvent::Reply(v) => assert_eq!(v, [0x05, 0x02]),
        _ => panic!("username/password method was not selected"),
    }
    assert!(matches!(auth.advance(&[1]), AuthEvent::Continue));
    assert!(matches!(auth.advance(&[8]), AuthEvent::Continue));
    assert_eq!(auth.needed(), 8);
    assert!(matches!(auth.advance(b"testuser"), AuthEvent::Continue));
    assert!(matches!(auth.advance(&[8]), AuthEvent::Continue));
    match auth.advance(b"testpass") {
        AuthEvent::Accept(v) => assert_eq!(v, [0x01, 0x00]),
        _ => panic!("configured credentials were rejected"),
    }
    assert_eq!(auth.state(), AuthState::Accepted);
}

#[test]
fn gateway_rejects_wrong_password() {
    let mut auth = GatewayAuth::new();
    auth.advance(&[5, 2]);
    auth.advance(&[0, 2]);
    auth.advance(&[1]);
    auth.advance(&[8]);
    auth.advance(b"testuser");
    auth.advance(&[8]);
    match auth.advance(b"wrongpwd") {
        AuthEvent::Reject(v) => assert_eq!(v, [0x01, 0x01]),
        _ => panic!("wrong password was not rejected"),
    }
    assert_eq!(auth.state(), AuthState::Rejected);
}

#[test]
fn gateway_rejects_missing_userpass_method() {
    let mut auth = GatewayAuth::new();
    assert!(matches!(auth.advance(&[5, 2]), AuthEvent::Continue));
    assert_eq!(auth.needed(), 2);
    match auth.advance(&[0, 1]) {
        AuthEvent::Reject(v) => assert_eq!(v, [0x05, 0xff]),
        _ => panic!("missing method was not rejected"),
    }
    assert_eq!(auth.state(), AuthState::Rejected);
}

#[test]
fn gateway_fails_on_bad_auth_version() {
    let mut auth = GatewayAuth::new();
    auth.advance(&[5, 1]);
    auth.advance(&[2]);
    assert!(matches!(auth.advance(&[9]), AuthEvent::Fail));
    assert_eq!(auth.state(), AuthState::Rejected);
}

#[test]
fn gateway_connect_parsing() {
    assert_eq!(check_connect_header(&[5, 1, 0, 1]), Ok(()));
    assert_eq!(check_connect_header(&[4, 1, 0, 1]), Err(GatewayError::OnlyConnectSupported));
    assert_eq!(check_connect_header(&[5, 2, 0, 1]), Err(GatewayError::OnlyConnectSupported));
    assert_eq!(check_connect_header(&[5, 1, 0, 3]), Err(GatewayError::AddrTypeUnsupported));

    let addr = parse_connect_addr(&[10, 11, 12, 13, 0x1f, 0x90]);
    assert_eq!(addr.ip, u32::from_be_bytes([10, 11, 12, 13]));
    assert_eq!(addr.port, 8080);

    assert_eq!(connect_success_reply(), [0x05, 0, 0, 0x01, 0, 0, 0, 0, 0, 0]);
}
