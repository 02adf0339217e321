//! How a [`ClientBuilder`] connects: the decisions between TLS, `STARTTLS` and plain text.

use crate::error::{Error, Result};
use crate::response::ServerCapability;
use crate::types::capabilities::{capability_name, CapabilityName};
use crate::types::Capabilities;
use vstd::prelude::*;

verus! {

/// The connection mode we are going to use
#[derive(Clone, Debug, PartialEq, Eq)]
#[non_exhaustive]
pub enum ConnectionMode {
    /// Automatically detect what connection mode should be used.
    ///
    /// This will use TLS if the port is 993, and otherwise STARTTLS if available.
    /// If no TLS communication mechanism is available, the connection will fail.
    AutoTls,
    /// Automatically detect what connection mode should be used.
    ///
    /// This will use TLS if the port is 993, and otherwise STARTTLS if available.
    /// It will fallback to a plaintext connection if no TLS option can be used.
    Auto,
    /// A plain unencrypted TCP connection
    Plaintext,
    /// An encrypted TLS connection
    Tls,
    /// An eventually-encrypted (i.e., STARTTLS) connection
    StartTls,
}

/// A selection for TLS implementation
#[derive(Clone, Debug, Eq, PartialEq)]
#[non_exhaustive]
pub enum TlsKind {
    /// Use the NativeTLS backend
    Native,
    /// Use the Rustls backend
    Rust,
    /// Use whatever backend is available (uses rustls if both are available)
    Any,
}

/// How a connection is set up.
#[derive(Clone, Copy, Debug, PartialEq, Eq)]
pub enum ConnectPlan {
    /// TLS from the start; the greeting is read over TLS.
    Tls,
    /// The greeting and the capabilities are read in plain text, and the connection is upgraded
    /// with `STARTTLS` if the server offers it; where it does not, the connection fails if
    /// `required`, and goes on in plain text otherwise.
    StartTls { required: bool },
    /// Plain text; the greeting is read in plain text.
    Plaintext,
}

/// The plan for a connection mode and a port: the automatic modes use TLS on port 993 and
/// `STARTTLS` elsewhere (required for [`ConnectionMode::AutoTls`]).
pub open spec fn connect_plan(mode: ConnectionMode, port: u16) -> ConnectPlan {
    match mode {
        ConnectionMode::AutoTls => if port == 993 {
            ConnectPlan::Tls
        } else {
            ConnectPlan::StartTls { required: true }
        },
        ConnectionMode::Auto => if port == 993 {
            ConnectPlan::Tls
        } else {
            ConnectPlan::StartTls { required: false }
        },
        ConnectionMode::Plaintext => ConnectPlan::Plaintext,
        ConnectionMode::Tls => ConnectPlan::Tls,
        ConnectionMode::StartTls => ConnectPlan::StartTls { required: true },
    }
}

/// How each mode connects: the two automatic modes make a direct TLS connection on port 993
/// and elsewhere upgrade with `STARTTLS`, which `AutoTls` requires and `Auto` does not; `Tls`
/// always makes a direct TLS connection, `StartTls` always requires the upgrade, and
/// `Plaintext` never encrypts.
pub proof fn lemma_connect_plans(port: u16)
    ensures
        connect_plan(ConnectionMode::AutoTls, 993) == ConnectPlan::Tls,
        connect_plan(ConnectionMode::Auto, 993) == ConnectPlan::Tls,
        port != 993 ==> connect_plan(ConnectionMode::AutoTls, port) == (ConnectPlan::StartTls { required: true }),
        port != 993 ==> connect_plan(ConnectionMode::Auto, port) == (ConnectPlan::StartTls { required: false }),
        connect_plan(ConnectionMode::Tls, port) == ConnectPlan::Tls,
        connect_plan(ConnectionMode::StartTls, port) == (ConnectPlan::StartTls { required: true }),
        connect_plan(ConnectionMode::Plaintext, port) == ConnectPlan::Plaintext,
{
}

/// A convenience builder for clients over various encrypted transports.
///
/// By default it uses TLS on port 993 and detects and uses `STARTTLS` elsewhere; `mode()` forces
/// a connection mode, and `tls_kind()` a TLS implementation.
#[derive(Clone)]
pub struct ClientBuilder<D> {
    domain: D,
    port: u16,
    mode: ConnectionMode,
    tls_kind: TlsKind,
    skip_tls_verify: bool,
}

impl<D> ClientBuilder<D> {
    /// The domain to connect to.
    pub closed spec fn spec_domain(&self) -> D {
        self.domain
    }

    /// The port to connect to.
    pub closed spec fn spec_port(&self) -> u16 {
        self.port
    }

    /// The connection mode.
    pub closed spec fn spec_mode(&self) -> ConnectionMode {
        self.mode
    }

    /// The TLS implementation.
    pub closed spec fn spec_tls_kind(&self) -> TlsKind {
        self.tls_kind
    }

    /// Whether certificates go unchecked.
    pub closed spec fn spec_skip_tls_verify(&self) -> bool {
        self.skip_tls_verify
    }

    /// Make a new `ClientBuilder` using the given domain and port: automatic TLS, with any TLS
    /// implementation, and certificates checked.
    pub fn new(domain: D, port: u16) -> (b: Self)
        ensures
            b.spec_domain() == domain,
            b.spec_port() == port,
            b.spec_mode() == ConnectionMode::AutoTls,
            b.spec_tls_kind() == TlsKind::Any,
            !b.spec_skip_tls_verify(),
    {
        ClientBuilder {
            domain,
            port,
            mode: ConnectionMode::AutoTls,
            tls_kind: TlsKind::Any,
            skip_tls_verify: false,
        }
    }

    /// Sets the Connection mode to use for this connection
    pub fn mode(self, mode: ConnectionMode) -> (b: Self)
        ensures
            b.spec_mode() == mode,
            b.spec_domain() == self.spec_domain(),
            b.spec_port() == self.spec_port(),
            b.spec_tls_kind() == self.spec_tls_kind(),
            b.spec_skip_tls_verify() == self.spec_skip_tls_verify(),
    {
        let mut b = self;
        b.mode = mode;
        b
    }

    /// Sets the TLS backend to use for this connection.
    pub fn tls_kind(self, kind: TlsKind) -> (b: Self)
        ensures
            b.spec_tls_kind() == kind,
            b.spec_domain() == self.spec_domain(),
            b.spec_port() == self.spec_port(),
            b.spec_mode() == self.spec_mode(),
            b.spec_skip_tls_verify() == self.spec_skip_tls_verify(),
    {
        let mut b = self;
        b.tls_kind = kind;
        b
    }

    /// Controls the use of certificate validation.
    ///
    /// Defaults to `false`.
    ///
    /// # Warning
    ///
    /// You should only use this as a last resort as it allows another server to impersonate the
    /// server you think you're talking to, which would include being able to receive your
    /// credentials.
    pub fn danger_skip_tls_verify(self, skip_tls_verify: bool) -> (b: Self)
        ensures
            b.spec_skip_tls_verify() == skip_tls_verify,
            b.spec_domain() == self.spec_domain(),
            b.spec_port() == self.spec_port(),
            b.spec_mode() == self.spec_mode(),
            b.spec_tls_kind() == self.spec_tls_kind(),
    {
        let mut b = self;
        b.skip_tls_verify = skip_tls_verify;
        b
    }

    /// The domain to connect to.
    pub fn domain(&self) -> (d: &D)
        ensures
            *d == self.spec_domain(),
    {
        &self.domain
    }

    /// The port to connect to.
    pub fn port(&self) -> (p: u16)
        ensures
            p == self.spec_port(),
    {
        self.port
    }

    /// The TLS implementation to use.
    pub fn tls(&self) -> (k: &TlsKind)
        ensures
            *k == self.spec_tls_kind(),
    {
        &self.tls_kind
    }

    /// Whether certificates go unchecked.
    pub fn skips_tls_verify(&self) -> (b: bool)
        ensures
            b == self.spec_skip_tls_verify(),
    {
        self.skip_tls_verify
    }

    /// How [`ClientBuilder::connect`]-style connection proceeds for this configuration
    /// ([`connect_plan`]).
    pub fn plan(&self) -> (p: ConnectPlan)
        ensures
            p == connect_plan(self.spec_mode(), self.spec_port()),
    {
        match self.mode {
            ConnectionMode::AutoTls => if self.port == 993 {
                ConnectPlan::Tls
            } else {
                ConnectPlan::StartTls { required: true }
            },
            ConnectionMode::Auto => if self.port == 993 {
                ConnectPlan::Tls
            } else {
                ConnectPlan::StartTls { required: false }
            },
            ConnectionMode::Plaintext => ConnectPlan::Plaintext,
            ConnectionMode::Tls => ConnectPlan::Tls,
            ConnectionMode::StartTls => ConnectPlan::StartTls { required: true },
        }
    }
}

/// Whether a plan reads the greeting once the connection is set up (rather than before an
/// upgrade).
pub open spec fn reads_greeting_after(p: ConnectPlan) -> bool {
    !(p is StartTls)
}

/// Whether the connection made by a plan reads the server's greeting after it is set up.
pub fn greeting_after(p: ConnectPlan) -> (b: bool)
    ensures
        b == reads_greeting_after(p),
{
    match p {
        ConnectPlan::StartTls { .. } => false,
        _ => true,
    }
}

/// What a `STARTTLS` plan does once the capabilities are known: upgrade where the server offers
/// `STARTTLS`; otherwise fail with [`Error::StartTlsNotAvailable`] where the upgrade is required,
/// and go on in plain text where it is not.
pub fn upgrade_decision(required: bool, capabilities: &Capabilities) -> (res: Result<bool>)
    ensures
        ({
            let offered = capabilities@.contains(CapabilityName::Atom("STARTTLS"@));
            match res {
                Ok(b) => b == offered && (required ==> offered),
                Err(Error::StartTlsNotAvailable) => required && !offered,
                Err(_) => false,
            }
        }),
{
    let starttls = ServerCapability::Atom("STARTTLS".to_owned());
    assert(capability_name(starttls) == CapabilityName::Atom("STARTTLS"@));
    if capabilities.has(&starttls) {
        Ok(true)
    } else if required {
        Err(Error::StartTlsNotAvailable)
    } else {
        Ok(false)
    }
}

} // verus!
