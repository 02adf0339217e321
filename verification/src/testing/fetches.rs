//! Builds a [`Fetches`] from the text of a reply.

use crate::error::Error;
use crate::parse::{first_unexpected_at, is_unexpected, read_result, split_spec, unilateral};
use crate::types::fetch::{are_fetches_of, takes_fetches};
use crate::types::Fetches;
use std::collections::VecDeque;
use vstd::prelude::*;

verus! {

/// Builds a [`Fetches`] from the text of a reply, such as `* 24 FETCH (FLAGS (\\Seen) UID 4827943)` and CRLF; the reply must
/// read without error, and its unsolicited responses are dropped.
pub fn parse(input: Vec<u8>) -> (r: Fetches)
    requires
        read_result(Ok::<(), Error>(()), input@, takes_fetches(), unilateral()),
    ensures
        are_fetches_of(r@, split_spec(input@).0.filter(takes_fetches())),
{
    let mut unsolicited: VecDeque<crate::types::UnsolicitedResponse> = VecDeque::new();
    match Fetches::parse(input, &mut unsolicited) {
        Ok(r) => r,
        Err(e) => {
            proof {
                let rs = split_spec(input@).0;
                if e matches Error::Unexpected(_) {
                    let k = choose|k: int| first_unexpected_at(rs, takes_fetches(), unilateral(), k) && Error::Unexpected(rs[k]) == e;
                    assert(is_unexpected(rs[k], takes_fetches(), unilateral()));
                }
            }
            vstd::pervasive::unreached()
        },
    }
}

/// Builds a [`Fetches`] from the text of a reply where [`parse`] can, and returns `None` where the
/// reply does not read without error.
pub fn parse_checked(input: Vec<u8>) -> (r: Option<Fetches>)
    ensures
        r is Some <==> read_result(Ok::<(), Error>(()), input@, takes_fetches(), unilateral()),
        r matches Some(r) ==> are_fetches_of(r@, split_spec(input@).0.filter(takes_fetches())),
{
    let copy = vstd::slice::slice_to_vec(input.as_slice());
    let mut unsolicited: VecDeque<crate::types::UnsolicitedResponse> = VecDeque::new();
    match Fetches::parse(copy, &mut unsolicited) {
        Ok(_) => Some(parse(input)),
        Err(e) => {
            proof {
                let rs = split_spec(input@).0;
                if e matches Error::Unexpected(_) {
                    let k = choose|k: int| first_unexpected_at(rs, takes_fetches(), unilateral(), k) && Error::Unexpected(rs[k]) == e;
                    assert(is_unexpected(rs[k], takes_fetches(), unilateral()));
                }
            }
            None
        },
    }
}

} // verus!
