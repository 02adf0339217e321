//! Implementations of various IMAP extensions.

pub mod list_status;
pub mod metadata;
pub mod sort;
pub mod idle;
