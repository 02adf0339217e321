//! A client for servers that implement the IMAP protocol (RFC 3501 and various extensions).

pub mod authenticator;
pub mod client;
pub mod client_builder;
pub mod error;
pub mod extensions;
pub mod proto;
pub mod parse;
pub mod response;
pub mod testing;
pub mod types;
pub mod utils;

pub use authenticator::Authenticator;
pub use client_builder::{ClientBuilder, ConnectionMode, TlsKind};
pub use error::{Error, Result};
