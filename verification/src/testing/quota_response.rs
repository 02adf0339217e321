//! Builds a [`Quota`] from the text of a reply.

use crate::error::Error;
use crate::parse::{first_unexpected_at, lemma_read_len_at, split_spec, takes_nothing, unilateral};
use crate::types::quota::{quota_reply_ok, reads_quota};
use crate::types::Quota;
use std::collections::VecDeque;
use vstd::prelude::*;

verus! {

/// Builds a [`Quota`] from the text of a reply, such as `* QUOTA my_root (STORAGE 10 500)` and
/// CRLF; the reply must read without error, and its unsolicited responses are dropped.
pub fn parse(input: Vec<u8>) -> (r: Quota)
    requires
        quota_reply_ok(input@),
    ensures
        reads_quota(Ok(r), input@),
{
    let mut unsolicited: VecDeque<crate::types::UnsolicitedResponse> = VecDeque::new();
    match Quota::parse(input, &mut unsolicited) {
        Ok(r) => r,
        Err(e) => {
            proof {
                lemma_quota_error(input@, e);
            }
            vstd::pervasive::unreached()
        },
    }
}

/// A reply that reads as a `QUOTA` reply does not end in an error.
proof fn lemma_quota_error(input: Seq<u8>, e: Error)
    requires
        quota_reply_ok(input),
    ensures
        !reads_quota(Err(e), input),
{
    let rs = split_spec(input).0;
    let k = choose|k: int| #[trigger] first_unexpected_at(rs, takes_nothing(), unilateral(), k) && rs[k] is Quota;
    lemma_read_len_at(rs, takes_nothing(), unilateral(), k);
    if reads_quota(Err(e), input) {
        if e matches Error::Unexpected(_) {
            let j = choose|j: int| #[trigger] first_unexpected_at(rs, takes_nothing(), unilateral(), j) && !(rs[j] is Quota) && Error::Unexpected(rs[j]) == e;
            lemma_read_len_at(rs, takes_nothing(), unilateral(), j);
        } else {
            assert(crate::parse::is_unexpected(rs[k], takes_nothing(), unilateral()));
        }
    }
}

/// Builds a [`Quota`] from the text of a reply where [`parse`] can, and returns `None` where the
/// reply does not read without error.
pub fn parse_checked(input: Vec<u8>) -> (r: Option<Quota>)
    ensures
        r is Some <==> quota_reply_ok(input@),
        r matches Some(q) ==> reads_quota(Ok(q), input@),
{
    let copy = vstd::slice::slice_to_vec(input.as_slice());
    let mut unsolicited: VecDeque<crate::types::UnsolicitedResponse> = VecDeque::new();
    match Quota::parse(copy, &mut unsolicited) {
        Ok(_) => Some(parse(input)),
        Err(e) => {
            proof {
                if quota_reply_ok(input@) {
                    lemma_quota_error(input@, e);
                }
            }
            None
        },
    }
}

} // verus!
