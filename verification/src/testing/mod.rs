//! Helpers that build response objects from the text of server replies, for testing code that
//! uses this crate.

pub mod acl_response;
pub mod capabilities;
pub mod extended_names;
pub mod fetches;
pub mod list_rights_response;
pub mod my_rights_response;
pub mod names;
pub mod quota_response;
pub mod quota_root_response;
