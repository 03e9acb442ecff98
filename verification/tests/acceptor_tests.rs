use argon2::password_hash::PasswordHasher;
use ghostwriter::acceptor::{Acceptor, ConnAction};
use ghostwriter::proto::ErrorCode;

fn hash_of(secret: &str) -> String {
    let hash: argon2::password_hash::phc::PasswordHash =
        argon2::Argon2::default()
            .hash_password_with_salt(secret.as_bytes(), b"somesaltsomesalt")
            .unwrap();
    hash.to_string()
}

#[test]
fn busy_server_sends_one_busy_error_then_close() {
    let mut acc = Acceptor::new(10, 5000, None);
    let first = acc.decide(0, true, None);
    assert_eq!(first, vec![ConnAction::RunSession]);
    let second = acc.decide(1, true, None);
    assert_eq!(
        second,
        vec![ConnAction::SendError(ErrorCode::Busy), ConnAction::Close]
    );
}

#[test]
fn rate_limited_connection_is_rejected() {
    let mut acc = Acceptor::new(3, 5000, None);
    for t in [0u64, 10, 20] {
        let actions = acc.decide(t, true, None);
        assert_eq!(actions, vec![ConnAction::RunSession]);
        acc.end_session();
    }
    let actions = acc.decide(30, true, None);
    assert_eq!(
        actions,
        vec![ConnAction::SendError(ErrorCode::RateLimit), ConnAction::Close]
    );
    // after the window passes, connections are admitted again
    let actions = acc.decide(30 + 5001, true, None);
    assert_eq!(actions, vec![ConnAction::RunSession]);
}

#[test]
fn bad_secret_gets_unauthorized_then_close() {
    let mut acc = Acceptor::new(10, 5000, Some(hash_of("s3cr3t")));
    let actions = acc.decide(0, true, Some(&"bad".to_string()));
    assert_eq!(
        actions,
        vec![ConnAction::SendError(ErrorCode::Unauthorized), ConnAction::Close]
    );
    let actions = acc.decide(1, true, Some(&"s3cr3t".to_string()));
    assert_eq!(actions, vec![ConnAction::RunSession]);
}

#[test]
fn missing_hello_or_secret_closes_without_error_envelope() {
    let mut acc = Acceptor::new(10, 5000, Some(hash_of("pw")));
    assert_eq!(acc.decide(0, false, None), vec![ConnAction::Close]);
    assert_eq!(acc.decide(1, true, None), vec![ConnAction::Close]);
}

#[test]
fn gate_clears_when_a_session_ends() {
    let mut acc = Acceptor::new(10, 60_000, None);
    assert_eq!(acc.decide(0, true, None), vec![ConnAction::RunSession]);
    assert_eq!(
        acc.decide(5, true, None),
        vec![ConnAction::SendError(ErrorCode::Busy), ConnAction::Close]
    );
    acc.end_session();
    assert_eq!(acc.decide(10, true, None), vec![ConnAction::RunSession]);
}
