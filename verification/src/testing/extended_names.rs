//! Builds a [`ExtendedNames`] from the text of a reply.

use crate::error::Error;
use crate::parse::{first_unexpected_at, is_unexpected, read_result, split_spec, unilateral};
use crate::extensions::list_status::{are_pairs_of, list_status_pairs, takes_list_status};
use crate::extensions::list_status::ExtendedNames;
use std::collections::VecDeque;
use vstd::prelude::*;

verus! {

/// Builds a [`ExtendedNames`] from the text of a reply, such as `* LIST () "." foo` and CRLF; the reply must
/// read without error, and its unsolicited responses are dropped.
pub fn parse(input: Vec<u8>) -> (r: ExtendedNames)
    requires
        read_result(Ok::<(), Error>(()), input@, takes_list_status(), unilateral()),
    ensures
        are_pairs_of(r@, list_status_pairs(split_spec(input@).0)),
{
    let mut unsolicited: VecDeque<crate::types::UnsolicitedResponse> = VecDeque::new();
    match ExtendedNames::parse(input, &mut unsolicited) {
        Ok(r) => r,
        Err(e) => {
            proof {
                let rs = split_spec(input@).0;
                if e matches Error::Unexpected(_) {
                    let k = choose|k: int| first_unexpected_at(rs, takes_list_status(), unilateral(), k) && Error::Unexpected(rs[k]) == e;
                    assert(is_unexpected(rs[k], takes_list_status(), unilateral()));
                }
            }
            vstd::pervasive::unreached()
        },
    }
}

/// Builds a [`ExtendedNames`] from the text of a reply where [`parse`] can, and returns `None` where the
/// reply does not read without error.
pub fn parse_checked(input: Vec<u8>) -> (r: Option<ExtendedNames>)
    ensures
        r is Some <==> read_result(Ok::<(), Error>(()), input@, takes_list_status(), unilateral()),
        r matches Some(r) ==> are_pairs_of(r@, list_status_pairs(split_spec(input@).0)),
{
    let copy = vstd::slice::slice_to_vec(input.as_slice());
    let mut unsolicited: VecDeque<crate::types::UnsolicitedResponse> = VecDeque::new();
    match ExtendedNames::parse(copy, &mut unsolicited) {
        Ok(_) => Some(parse(input)),
        Err(e) => {
            proof {
                let rs = split_spec(input@).0;
                if e matches Error::Unexpected(_) {
                    let k = choose|k: int| first_unexpected_at(rs, takes_list_status(), unilateral(), k) && Error::Unexpected(rs[k]) == e;
                    assert(is_unexpected(rs[k], takes_list_status(), unilateral()));
                }
            }
            None
        },
    }
}

} // verus!
