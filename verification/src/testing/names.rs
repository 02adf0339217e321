//! Builds a [`Names`] from the text of a reply.

use crate::error::Error;
use crate::parse::{first_unexpected_at, is_unexpected, read_result, split_spec, unilateral};
use crate::types::name::{name_of, takes_names};
use crate::types::Names;
use std::collections::VecDeque;
use vstd::prelude::*;

verus! {

/// Builds a [`Names`] from the text of a reply, such as `* LIST (\\HasNoChildren) "." "INBOX"` and CRLF; the reply must
/// read without error, and its unsolicited responses are dropped.
pub fn parse(input: Vec<u8>) -> (r: Names)
    requires
        read_result(Ok::<(), Error>(()), input@, takes_names(), unilateral()),
    ensures
        r@ == split_spec(input@).0.filter_map(name_of()),
{
    let mut unsolicited: VecDeque<crate::types::UnsolicitedResponse> = VecDeque::new();
    match Names::parse(input, &mut unsolicited) {
        Ok(r) => r,
        Err(e) => {
            proof {
                let rs = split_spec(input@).0;
                if e matches Error::Unexpected(_) {
                    let k = choose|k: int| first_unexpected_at(rs, takes_names(), unilateral(), k) && Error::Unexpected(rs[k]) == e;
                    assert(is_unexpected(rs[k], takes_names(), unilateral()));
                }
            }
            vstd::pervasive::unreached()
        },
    }
}

/// Builds a [`Names`] from the text of a reply where [`parse`] can, and returns `None` where the
/// reply does not read without error.
pub fn parse_checked(input: Vec<u8>) -> (r: Option<Names>)
    ensures
        r is Some <==> read_result(Ok::<(), Error>(()), input@, takes_names(), unilateral()),
        r matches Some(r) ==> r@ == split_spec(input@).0.filter_map(name_of()),
{
    let copy = vstd::slice::slice_to_vec(input.as_slice());
    let mut unsolicited: VecDeque<crate::types::UnsolicitedResponse> = VecDeque::new();
    match Names::parse(copy, &mut unsolicited) {
        Ok(_) => Some(parse(input)),
        Err(e) => {
            proof {
                let rs = split_spec(input@).0;
                if e matches Error::Unexpected(_) {
                    let k = choose|k: int| first_unexpected_at(rs, takes_names(), unilateral(), k) && Error::Unexpected(rs[k]) == e;
                    assert(is_unexpected(rs[k], takes_names(), unilateral()));
                }
            }
            None
        },
    }
}

} // verus!
