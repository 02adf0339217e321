//! Builds a [`MyRightsResponse`] from the text of a reply.

use crate::error::Error;
use crate::parse::{split_spec, unilateral};
use crate::parse::reads_one_ok;
use crate::types::acls::{is_my_rights_of, takes_my_rights};
use crate::response::{MyRightsData, ServerResponse};
use crate::parse::reads_one;
use crate::types::MyRightsResponse;
use std::collections::VecDeque;
use vstd::prelude::*;

verus! {

/// Builds a [`MyRightsResponse`] from the text of a reply, such as `* MYRIGHTS INBOX lrxk` and CRLF; the reply must
/// read without error, and its unsolicited responses are dropped.
pub fn parse(input: Vec<u8>) -> (r: MyRightsResponse)
    requires
        reads_one_ok(input@, takes_my_rights()),
    ensures
        exists|d: MyRightsData| #[trigger] reads_one(Ok(ServerResponse::MyRights(d)), input@, takes_my_rights()) && is_my_rights_of(r.parsed_spec(), d),
{
    let mut unsolicited: VecDeque<crate::types::UnsolicitedResponse> = VecDeque::new();
    match MyRightsResponse::parse(input, &mut unsolicited) {
        Ok(r) => r,
        Err(e) => {
            vstd::pervasive::unreached()
        },
    }
}

/// Builds a [`MyRightsResponse`] from the text of a reply where [`parse`] can, and returns `None` where the
/// reply does not read without error.
pub fn parse_checked(input: Vec<u8>) -> (r: Option<MyRightsResponse>)
    ensures
        r is Some <==> reads_one_ok(input@, takes_my_rights()),
        r matches Some(r) ==> exists|d: MyRightsData| #[trigger] reads_one(Ok(ServerResponse::MyRights(d)), input@, takes_my_rights()) && is_my_rights_of(r.parsed_spec(), d),
{
    let copy = vstd::slice::slice_to_vec(input.as_slice());
    let mut unsolicited: VecDeque<crate::types::UnsolicitedResponse> = VecDeque::new();
    match MyRightsResponse::parse(copy, &mut unsolicited) {
        Ok(_) => Some(parse(input)),
        Err(e) => {
            None
        },
    }
}

} // verus!
