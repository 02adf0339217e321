use imap::client_builder::{
    connect_plan, greeting_after, upgrade_decision, ClientBuilder, ConnectPlan, ConnectionMode,
    TlsKind,
};
use imap::error::Error;
use imap::types::Capabilities;
use std::collections::VecDeque;

#[test]
fn connection_mode_eq() {
    assert_eq!(ConnectionMode::Auto, ConnectionMode::Auto);
}

#[test]
fn client_builder_connection_mode_eq() {
    assert_eq!(TlsKind::Any, TlsKind::Any);
}

#[test]
fn connection_mode_ne() {
    assert_ne!(ConnectionMode::Auto, ConnectionMode::AutoTls);
}

#[test]
fn connection_mode_ne_native() {
    assert_ne!(TlsKind::Any, TlsKind::Native);
}

#[test]
fn connection_mode_ne_rust() {
    assert_ne!(TlsKind::Any, TlsKind::Rust);
}

#[test]
fn can_clone() {
    let builder = ClientBuilder::new("imap.example.com", 143);

    let clone = builder.clone();
    assert_eq!(clone.domain(), builder.domain());
    assert_eq!(clone.port(), builder.port());
}

#[test]
fn connection_plans() {
    let b = ClientBuilder::new("imap.example.com", 993);
    assert_eq!(b.plan(), ConnectPlan::Tls);
    let b = ClientBuilder::new("imap.example.com", 143);
    assert_eq!(b.plan(), ConnectPlan::StartTls { required: true });
    let b = b.mode(ConnectionMode::Auto);
    assert_eq!(b.plan(), ConnectPlan::StartTls { required: false });
    let b = b.mode(ConnectionMode::Plaintext);
    assert_eq!(b.plan(), ConnectPlan::Plaintext);
    let b = ClientBuilder::new("imap.example.com", 993).mode(ConnectionMode::StartTls);
    assert_eq!(b.plan(), ConnectPlan::StartTls { required: true });
    let b = ClientBuilder::new("imap.example.com", 143)
        .mode(ConnectionMode::Tls)
        .tls_kind(TlsKind::Rust)
        .danger_skip_tls_verify(true);
    assert_eq!(b.plan(), ConnectPlan::Tls);
    assert_eq!(b.tls(), &TlsKind::Rust);
    assert!(b.skips_tls_verify());
    assert!(greeting_after(ConnectPlan::Tls));
    assert!(!greeting_after(ConnectPlan::StartTls { required: false }));
    let _ = connect_plan;
}

#[test]
fn starttls_upgrade() {
    let mut q = VecDeque::new();
    let with = Capabilities::parse(b"* CAPABILITY IMAP4rev1 STARTTLS\r\n".to_vec(), &mut q).unwrap();
    let without = Capabilities::parse(b"* CAPABILITY IMAP4rev1\r\n".to_vec(), &mut q).unwrap();
    assert_eq!(upgrade_decision(true, &with).unwrap(), true);
    assert_eq!(upgrade_decision(false, &with).unwrap(), true);
    assert_eq!(upgrade_decision(false, &without).unwrap(), false);
    assert!(matches!(upgrade_decision(true, &without), Err(Error::StartTlsNotAvailable)));
}
