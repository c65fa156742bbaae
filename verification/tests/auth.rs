use rethink_driver::auth::{
    concat_into, gen_client_nonce, gen_client_proof, recv_msg, sasl_get, send_msg, AuthError, Handshake,
    RecvProgress, ServerMessage, ServerVersionMessage, MIN_ITERATIONS,
};
use rethink_driver::Error;

const NONCE: [u8; 32] = *b"0123456789ABCDEFGHIJKLMNOPQRSTUV";

fn server_msg(auth: &str) -> ServerMessage {
    ServerMessage { success: true, authentication: Some(auth.to_string()), error: None, error_code: None }
}

fn version_ok() -> ServerVersionMessage {
    ServerVersionMessage {
        success: true,
        min_protocol_version: 0,
        max_protocol_version: 0,
        server_version: "2.4.1".to_string(),
    }
}

fn auth_err(r: Result<impl Sized, Error>) -> AuthError {
    match r {
        Err(Error::Auth(e)) => e,
        Err(e) => panic!("unexpected error {:?}", e),
        Ok(_) => panic!("unexpected success"),
    }
}

#[test]
fn sasl_get_finds_attributes() {
    let msg = b"r=abc,s=c2FsdA==,i=4096";
    assert_eq!(sasl_get(msg, b"r="), Some(b"abc".to_vec()));
    assert_eq!(sasl_get(msg, b"s="), Some(b"c2FsdA==".to_vec()));
    assert_eq!(sasl_get(msg, b"i="), Some(b"4096".to_vec()));
    assert_eq!(sasl_get(msg, b"v="), None);
    // the first occurrence counts, and an empty value is a value
    assert_eq!(sasl_get(b"x=1,r=,r=2", b"r="), Some(Vec::new()));
    assert_eq!(sasl_get(b"ar=5", b"r="), Some(b"5".to_vec()));
}

#[test]
fn concat_into_writes_parts_in_order() {
    let mut buf = [9u8; 8];
    let len = concat_into(&mut buf, &[b"ab", b"", b"cde"]);
    assert_eq!(len, 5);
    assert_eq!(&buf, b"abcde\x09\x09\x09");
    let mut buf2 = [0u8; 8];
    assert_eq!(send_msg(&mut buf2, &[b"{\"a\":1}", b"\0"]), b"{\"a\":1}\0".to_vec());
}

#[test]
fn send_msg_leaves_the_rest_of_the_buffer() {
    let mut buf = [0u8; 8];
    let out = send_msg(&mut buf, &[&b"ab"[..], b"", b"c"]);
    assert_eq!(out, b"abc".to_vec());
    assert_eq!(buf, [b'a', b'b', b'c', 0, 0, 0, 0, 0]);
}

#[test]
fn recv_msg_steps() {
    let buf = *b"ab\0xy";
    assert_eq!(recv_msg(&buf, 0, 2).unwrap(), RecvProgress::More(2));
    assert_eq!(recv_msg(&buf, 2, 1).unwrap(), RecvProgress::Complete(2));
    assert!(matches!(recv_msg(&buf, 3, 0), Err(Error::Io(_))));
}

#[test]
fn server_version_message_checks() {
    assert!(ServerVersionMessage::recv(b"{}", Some(version_ok())).is_ok());
    let mut failed = version_ok();
    failed.success = false;
    assert_eq!(auth_err(ServerVersionMessage::recv(b"{}", Some(failed))), AuthError::InvalidReply);
    assert_eq!(
        auth_err(ServerVersionMessage::recv(b"ERROR: received an unsupported protocol version", None)),
        AuthError::ServerError { code: None, msg: "ERROR: received an unsupported protocol version".to_string() }
    );
    assert_eq!(auth_err(ServerVersionMessage::recv(&[0xff, 0xfe], None)), AuthError::InvalidReply);
}

#[test]
fn server_message_checks() {
    assert_eq!(auth_err(ServerMessage::recv(None)), AuthError::InvalidReply);
    let refused = ServerMessage {
        success: false,
        authentication: None,
        error: Some("Wrong password".to_string()),
        error_code: Some(12),
    };
    assert_eq!(
        auth_err(ServerMessage::recv(Some(refused))),
        AuthError::ServerError { code: Some(12), msg: "Wrong password".to_string() }
    );
    let bare = ServerMessage { success: false, authentication: None, error: None, error_code: None };
    assert_eq!(auth_err(ServerMessage::recv(Some(bare))), AuthError::ServerError { code: None, msg: String::new() });
    assert!(ServerMessage::recv(Some(server_msg("r=x"))).is_ok());
}

#[test]
fn client_nonce_is_printable() {
    let a = gen_client_nonce();
    assert!(a.iter().all(|b| (0x30..0x5b).contains(b)));
}

fn b64(bytes: &[u8]) -> String {
    base64::encode_config(bytes, base64::STANDARD)
}

fn unb64(text: &str) -> Vec<u8> {
    base64::decode_config(text, base64::STANDARD).unwrap()
}

/// The example exchange of RFC 7677, section 3.
#[test]
fn client_proof_matches_rfc_7677() {
    let salt = unb64("W22ZaJ0SNY7soEsUEjb6gQ==");
    let auth_msg = "n=user,r=rOprNGfwEbeRWgbNEkqO,\
r=rOprNGfwEbeRWgbNEkqO%hvYDpWUa2RaTCAfuxFIlj)hNlF$k0,s=W22ZaJ0SNY7soEsUEjb6gQ==,i=4096,\
c=biws,r=rOprNGfwEbeRWgbNEkqO%hvYDpWUa2RaTCAfuxFIlj)hNlF$k0";
    let (proof, server_signature) = gen_client_proof(b"pencil", &salt, 4096, auth_msg.as_bytes());
    assert_eq!(b64(&proof), "dHzbZapWIk4jUhN+Ute9ytag9zjfMHgsqmmiz7AndVQ=");
    assert_eq!(b64(&server_signature), "6rriTRBi23WpRR/wtup+mMhUZUn/dB5nLTJRsjl95G4=");
}

fn first_stage(password: &str) -> rethink_driver::auth::AwaitServerFirst {
    let hs = Handshake::with_nonce("user", password, NONCE).unwrap();
    assert_eq!(hs.opening_message(), 0x34c2bdc3u32.to_le_bytes().to_vec());
    let (first, msg) = hs.on_server_version(b"{}", Some(version_ok())).unwrap();
    assert_eq!(
        msg,
        b"{\"protocol_version\":0, \"authentication_method\": \"SCRAM-SHA-256\",\"authentication\":\"n,,n=user,r=0123456789ABCDEFGHIJKLMNOPQRSTUV\"}\0"
            .to_vec()
    );
    first
}

#[test]
fn handshake_succeeds_with_a_server_that_knows_the_password() {
    let combined = "0123456789ABCDEFGHIJKLMNOPQRSTUVserverpart";
    let salt = b"some salt";
    let auth = format!("r={},s={},i=4096", combined, b64(salt));
    let (last, msg) = first_stage("pencil").on_server_first(Some(server_msg(&auth))).unwrap();
    let auth_msg = format!("n=user,r=0123456789ABCDEFGHIJKLMNOPQRSTUV,{},c=biws,r={}", auth, combined);
    let (proof, server_signature) = gen_client_proof(b"pencil", salt, 4096, auth_msg.as_bytes());
    assert_eq!(
        msg,
        format!("{{\"authentication\":\"c=biws,r={},p={}\"}}\0", combined, b64(&proof)).into_bytes()
    );
    let reply = format!("v={}", b64(&server_signature));
    assert!(last.on_server_final(Some(server_msg(&reply))).is_ok());
}

#[test]
fn handshake_refuses_a_wrong_server_signature() {
    let auth = format!("r={}X,s={},i=4096", std::str::from_utf8(&NONCE).unwrap(), b64(b"salt"));
    let (last, _) = first_stage("pencil").on_server_first(Some(server_msg(&auth))).unwrap();
    let reply = format!("v={}", b64(&[0u8; 32]));
    assert_eq!(auth_err(last.on_server_final(Some(server_msg(&reply)))), AuthError::InvalidServerSignature);
}

#[test]
fn handshake_final_needs_a_signature() {
    let auth = format!("r={}X,s={},i=4096", std::str::from_utf8(&NONCE).unwrap(), b64(b"salt"));
    let (last, _) = first_stage("pencil").on_server_first(Some(server_msg(&auth))).unwrap();
    assert_eq!(auth_err(last.on_server_final(Some(server_msg("x=1")))), AuthError::InvalidReply);
    let (last, _) = first_stage("pencil").on_server_first(Some(server_msg(&auth))).unwrap();
    assert_eq!(auth_err(last.on_server_final(Some(server_msg("v=!!!")))), AuthError::InvalidReply);
}

#[test]
fn handshake_refuses_a_foreign_nonce() {
    let auth = format!("r=somebodyelse,s={},i=4096", b64(b"salt"));
    assert_eq!(auth_err(first_stage("pencil").on_server_first(Some(server_msg(&auth)))), AuthError::InvalidServerNonce);
}

#[test]
fn handshake_refuses_few_iterations_for_a_password() {
    let few = MIN_ITERATIONS - 1;
    let auth = format!("r={}X,s={},i={}", std::str::from_utf8(&NONCE).unwrap(), b64(b"salt"), few);
    assert_eq!(
        auth_err(first_stage("pencil").on_server_first(Some(server_msg(&auth)))),
        AuthError::InvalidIterationCount
    );
    // with the empty password the count is not checked
    assert!(first_stage("").on_server_first(Some(server_msg(&auth))).is_ok());
}

#[test]
fn handshake_needs_all_parameters() {
    let n = std::str::from_utf8(&NONCE).unwrap();
    for auth in [
        format!("s={},i=4096", b64(b"salt")),
        format!("r={},i=4096", n),
        format!("r={},s={}", n, b64(b"salt")),
        format!("r={},s=***,i=4096", n),
        format!("r={},s={},i=many", n, b64(b"salt")),
        format!("r={},s={},i=4294967296", n, b64(b"salt")),
    ] {
        assert_eq!(auth_err(first_stage("pencil").on_server_first(Some(server_msg(&auth)))), AuthError::InvalidReply);
    }
    let auth = format!("r={},s={},i=+4096", n, b64(b"salt"));
    assert!(first_stage("pencil").on_server_first(Some(server_msg(&auth))).is_ok());
}

#[test]
fn handshake_reports_server_errors() {
    let refused = ServerMessage {
        success: false,
        authentication: None,
        error: Some("Unknown user".to_string()),
        error_code: Some(17),
    };
    assert_eq!(
        auth_err(first_stage("pencil").on_server_first(Some(refused))),
        AuthError::ServerError { code: Some(17), msg: "Unknown user".to_string() }
    );
    assert_eq!(auth_err(first_stage("pencil").on_server_first(None)), AuthError::InvalidReply);
}

#[test]
fn handshake_defaults_and_preparation() {
    let hs = Handshake::new(None, None);
    assert!(hs.is_some());
    // a prohibited character makes the credentials unusable
    assert!(Handshake::with_nonce("bad\u{0007}user", "", NONCE).is_none());
    // a non-ASCII space is mapped to a space
    let hs = Handshake::with_nonce("a\u{00A0}b", "", NONCE).unwrap();
    let (_, msg) = hs.on_server_version(b"{}", Some(version_ok())).unwrap();
    let text = String::from_utf8(msg).unwrap();
    assert!(text.contains("n=a b,r="));
}
