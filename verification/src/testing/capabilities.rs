//! Builds a [`Capabilities`] from the text of a reply.

use crate::error::Error;
use crate::parse::{first_unexpected_at, is_unexpected, read_result, split_spec, unilateral};
use crate::types::capabilities::{announced, capability_names, takes_capabilities};
use crate::types::Capabilities;
use std::collections::VecDeque;
use vstd::prelude::*;

verus! {

/// Builds a [`Capabilities`] from the text of a reply, such as `* CAPABILITY IMAP4rev1 STARTTLS AUTH=GSSAPI LOGINDISABLED` and CRLF; the reply must
/// read without error, and its unsolicited responses are dropped.
pub fn parse(input: Vec<u8>) -> (r: Capabilities)
    requires
        read_result(Ok::<(), Error>(()), input@, takes_capabilities(), unilateral()),
    ensures
        r@ == capability_names(announced(split_spec(input@).0)).to_set(),
{
    let mut unsolicited: VecDeque<crate::types::UnsolicitedResponse> = VecDeque::new();
    match Capabilities::parse(input, &mut unsolicited) {
        Ok(r) => r,
        Err(e) => {
            proof {
                let rs = split_spec(input@).0;
                if e matches Error::Unexpected(_) {
                    let k = choose|k: int| first_unexpected_at(rs, takes_capabilities(), unilateral(), k) && Error::Unexpected(rs[k]) == e;
                    assert(is_unexpected(rs[k], takes_capabilities(), unilateral()));
                }
            }
            vstd::pervasive::unreached()
        },
    }
}

/// Builds a [`Capabilities`] from the text of a reply where [`parse`] can, and returns `None` where the
/// reply does not read without error.
pub fn parse_checked(input: Vec<u8>) -> (r: Option<Capabilities>)
    ensures
        r is Some <==> read_result(Ok::<(), Error>(()), input@, takes_capabilities(), unilateral()),
        r matches Some(r) ==> r@ == capability_names(announced(split_spec(input@).0)).to_set(),
{
    let copy = vstd::slice::slice_to_vec(input.as_slice());
    let mut unsolicited: VecDeque<crate::types::UnsolicitedResponse> = VecDeque::new();
    match Capabilities::parse(copy, &mut unsolicited) {
        Ok(_) => Some(parse(input)),
        Err(e) => {
            proof {
                let rs = split_spec(input@).0;
                if e matches Error::Unexpected(_) {
                    let k = choose|k: int| first_unexpected_at(rs, takes_capabilities(), unilateral(), k) && Error::Unexpected(rs[k]) == e;
                    assert(is_unexpected(rs[k], takes_capabilities(), unilateral()));
                }
            }
            None
        },
    }
}

} // verus!
