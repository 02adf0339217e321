//! Builds a [`ListRightsResponse`] from the text of a reply.

use crate::error::Error;
use crate::parse::{split_spec, unilateral};
use crate::parse::reads_one_ok;
use crate::types::acls::{is_list_rights_of, takes_list_rights};
use crate::response::{ListRightsData, ServerResponse};
use crate::parse::reads_one;
use crate::types::ListRightsResponse;
use std::collections::VecDeque;
use vstd::prelude::*;

verus! {

/// Builds a [`ListRightsResponse`] from the text of a reply, such as `* LISTRIGHTS INBOX myuser lr x k` and CRLF; the reply must
/// read without error, and its unsolicited responses are dropped.
pub fn parse(input: Vec<u8>) -> (r: ListRightsResponse)
    requires
        reads_one_ok(input@, takes_list_rights()),
    ensures
        exists|d: ListRightsData| #[trigger] reads_one(Ok(ServerResponse::ListRights(d)), input@, takes_list_rights()) && is_list_rights_of(r.parsed_spec(), d),
{
    let mut unsolicited: VecDeque<crate::types::UnsolicitedResponse> = VecDeque::new();
    match ListRightsResponse::parse(input, &mut unsolicited) {
        Ok(r) => r,
        Err(e) => {
            vstd::pervasive::unreached()
        },
    }
}

/// Builds a [`ListRightsResponse`] from the text of a reply where [`parse`] can, and returns `None` where the
/// reply does not read without error.
pub fn parse_checked(input: Vec<u8>) -> (r: Option<ListRightsResponse>)
    ensures
        r is Some <==> reads_one_ok(input@, takes_list_rights()),
        r matches Some(r) ==> exists|d: ListRightsData| #[trigger] reads_one(Ok(ServerResponse::ListRights(d)), input@, takes_list_rights()) && is_list_rights_of(r.parsed_spec(), d),
{
    let copy = vstd::slice::slice_to_vec(input.as_slice());
    let mut unsolicited: VecDeque<crate::types::UnsolicitedResponse> = VecDeque::new();
    match ListRightsResponse::parse(copy, &mut unsolicited) {
        Ok(_) => Some(parse(input)),
        Err(e) => {
            None
        },
    }
}

} // verus!
