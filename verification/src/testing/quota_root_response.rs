//! Builds a [`QuotaRoot`] from the text of a reply.

use crate::error::Error;
use crate::parse::{first_unexpected_at, is_unexpected, split_spec, unilateral};
use crate::types::quota::{quota_of, quota_root_reply_ok, root_of, takes_quota_parts};
use crate::types::QuotaRoot;
use std::collections::VecDeque;
use vstd::prelude::*;

verus! {

/// Builds a [`QuotaRoot`] from the text of a reply, such as `* QUOTAROOT INBOX my_root` and
/// `* QUOTA my_root (STORAGE 10 500)`, each with CRLF; the reply must read without error, and
/// its unsolicited responses are dropped.
pub fn parse(input: Vec<u8>) -> (r: QuotaRoot)
    requires
        quota_root_reply_ok(input@),
    ensures
        r@.0 == split_spec(input@).0.filter_map(root_of())[0],
        r@.1 == split_spec(input@).0.filter_map(quota_of()),
{
    let mut unsolicited: VecDeque<crate::types::UnsolicitedResponse> = VecDeque::new();
    match QuotaRoot::parse(input, &mut unsolicited) {
        Ok(r) => r,
        Err(e) => {
            proof {
                let rs = split_spec(input@).0;
                if e matches Error::Unexpected(_) {
                    let k = choose|k: int| first_unexpected_at(rs, takes_quota_parts(), unilateral(), k) && Error::Unexpected(rs[k]) == e;
                    assert(is_unexpected(rs[k], takes_quota_parts(), unilateral()));
                }
            }
            vstd::pervasive::unreached()
        },
    }
}

/// Builds a [`QuotaRoot`] from the text of a reply where [`parse`] can, and returns `None` where
/// the reply does not read without error.
pub fn parse_checked(input: Vec<u8>) -> (r: Option<QuotaRoot>)
    ensures
        r is Some <==> quota_root_reply_ok(input@),
        r matches Some(q) ==> q@.0 == split_spec(input@).0.filter_map(root_of())[0] && q@.1
            == split_spec(input@).0.filter_map(quota_of()),
{
    let copy = vstd::slice::slice_to_vec(input.as_slice());
    let mut unsolicited: VecDeque<crate::types::UnsolicitedResponse> = VecDeque::new();
    match QuotaRoot::parse(copy, &mut unsolicited) {
        Ok(_) => Some(parse(input)),
        Err(e) => {
            proof {
                let rs = split_spec(input@).0;
                if e matches Error::Unexpected(_) {
                    let k = choose|k: int| first_unexpected_at(rs, takes_quota_parts(), unilateral(), k) && Error::Unexpected(rs[k]) == e;
                    assert(is_unexpected(rs[k], takes_quota_parts(), unilateral()));
                }
            }
            None
        },
    }
}

} // verus!
