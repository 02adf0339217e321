//! Builds a [`AclResponse`] from the text of a reply.

use crate::error::Error;
use crate::parse::{split_spec, unilateral};
use crate::parse::reads_one_ok;
use crate::types::acls::{is_acl_of, takes_acl};
use crate::response::{AclData, ServerResponse};
use crate::parse::reads_one;
use crate::types::AclResponse;
use std::collections::VecDeque;
use vstd::prelude::*;

verus! {

/// Builds a [`AclResponse`] from the text of a reply, such as `* ACL INBOX user1 lr user2 lrx` and CRLF; the reply must
/// read without error, and its unsolicited responses are dropped.
pub fn parse(input: Vec<u8>) -> (r: AclResponse)
    requires
        reads_one_ok(input@, takes_acl()),
    ensures
        exists|d: AclData| #[trigger] reads_one(Ok(ServerResponse::Acl(d)), input@, takes_acl()) && is_acl_of(r.parsed_spec(), d),
{
    let mut unsolicited: VecDeque<crate::types::UnsolicitedResponse> = VecDeque::new();
    match AclResponse::parse(input, &mut unsolicited) {
        Ok(r) => r,
        Err(e) => {
            vstd::pervasive::unreached()
        },
    }
}

/// Builds a [`AclResponse`] from the text of a reply where [`parse`] can, and returns `None` where the
/// reply does not read without error.
pub fn parse_checked(input: Vec<u8>) -> (r: Option<AclResponse>)
    ensures
        r is Some <==> reads_one_ok(input@, takes_acl()),
        r matches Some(r) ==> exists|d: AclData| #[trigger] reads_one(Ok(ServerResponse::Acl(d)), input@, takes_acl()) && is_acl_of(r.parsed_spec(), d),
{
    let copy = vstd::slice::slice_to_vec(input.as_slice());
    let mut unsolicited: VecDeque<crate::types::UnsolicitedResponse> = VecDeque::new();
    match AclResponse::parse(copy, &mut unsolicited) {
        Ok(_) => Some(parse(input)),
        Err(e) => {
            None
        },
    }
}

} // verus!
