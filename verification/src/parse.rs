//! Reading the untagged responses that a command's reply consists of.

use crate::error::{Error, ParseError, Result};
use crate::proto::{imap_line, parse_line};
use crate::response::{Line, MailboxData, ResponseStatus, ServerResponse, StatusCode, StatusItem};
use crate::types::flag::{are_flags_of, is_flag_of, Flag};
use crate::types::mailbox::Mailbox;
use crate::utils::str_eq;
use crate::types::deleted::Deleted;
use crate::types::unsolicited_response::{is_unilateral, is_unsolicited_of, UnsolicitedResponse};
use std::collections::{HashSet, VecDeque};
use std::ops::RangeInclusive;
use vstd::prelude::*;

verus! {

/// The responses at the start of `input`, in order, up to the first position where no complete
/// response can be parsed; and the bytes from that position on, if there is such a position.
pub open spec fn split_spec(input: Seq<u8>) -> (Seq<ServerResponse>, Option<Seq<u8>>)
    decreases input.len(),
{
    if input.len() == 0 {
        (seq![], None)
    } else {
        match imap_line(input) {
            Line::Parsed { rest_len, response } => if rest_len < input.len() {
                let (rs, tail) = split_spec(input.skip(input.len() - rest_len));
                (seq![response] + rs, tail)
            } else {
                (seq![], Some(input))
            },
            _ => (seq![], Some(input)),
        }
    }
}

/// The responses that `input` holds ([`split_spec`]), and, where some bytes do not parse as a
/// response, those bytes.
pub fn split_responses(input: &[u8]) -> (res: (Vec<ServerResponse>, Option<Vec<u8>>))
    ensures
        res.0@ == split_spec(input@).0,
        match res.1 {
            Some(b) => split_spec(input@).1 == Some(b@),
            None => split_spec(input@).1 is None,
        },
{
    let mut out: Vec<ServerResponse> = Vec::new();
    let mut pos: usize = 0;
    assert(input@.skip(0) == input@);
    while pos < input.len()
        invariant
            pos <= input@.len(),
            split_spec(input@).0 == out@ + split_spec(input@.skip(pos as int)).0,
            split_spec(input@).1 == split_spec(input@.skip(pos as int)).1,
        decreases input@.len() - pos,
    {
        let rest = &input[pos..input.len()];
        assert(rest@ == input@.skip(pos as int));
        match parse_line(rest) {
            Line::Parsed { rest_len, response } => {
                let ghost before = out@;
                let next = input.len() - rest_len;
                assert(rest@.skip(rest@.len() - rest_len) == input@.skip(next as int));
                out.push(response);
                assert(out@ == before + seq![response]);
                assert(before + (seq![response] + split_spec(input@.skip(next as int)).0)
                    == out@ + split_spec(input@.skip(next as int)).0);
                pos = next;
            },
            _ => {
                return (out, Some(vstd::slice::slice_to_vec(rest)));
            },
        }
    }
    assert(input@.skip(pos as int).len() == 0);
    (out, None)
}

/// The responses that most readers pass on as unsolicited: those the server may send at any
/// time.
pub open spec fn unilateral() -> spec_fn(ServerResponse) -> bool {
    |r: ServerResponse| is_unilateral(r)
}

/// Whether a reader can neither take the response `r` nor pass it on as unsolicited.
pub open spec fn is_unexpected(
    r: ServerResponse,
    wanted: spec_fn(ServerResponse) -> bool,
    passed: spec_fn(ServerResponse) -> bool,
) -> bool {
    !wanted(r) && !passed(r)
}

/// Whether no response of `rs` is unexpected for a reader that takes what `wanted` accepts.
pub open spec fn none_unexpected(
    rs: Seq<ServerResponse>,
    wanted: spec_fn(ServerResponse) -> bool,
    passed: spec_fn(ServerResponse) -> bool,
) -> bool {
    forall|j: int| 0 <= j < rs.len() ==> !#[trigger] is_unexpected(rs[j], wanted, passed)
}

/// Whether `k` is the position of the first unexpected response of `rs`.
pub open spec fn first_unexpected_at(
    rs: Seq<ServerResponse>,
    wanted: spec_fn(ServerResponse) -> bool,
    passed: spec_fn(ServerResponse) -> bool,
    k: int,
) -> bool {
    &&& 0 <= k < rs.len()
    &&& is_unexpected(rs[k], wanted, passed)
    &&& none_unexpected(rs.take(k), wanted, passed)
}

/// How many responses a reader goes through: those before the first unexpected one, or all.
pub open spec fn read_len(
    rs: Seq<ServerResponse>,
    wanted: spec_fn(ServerResponse) -> bool,
    passed: spec_fn(ServerResponse) -> bool,
) -> int {
    if exists|k: int| first_unexpected_at(rs, wanted, passed, k) {
        choose|k: int| first_unexpected_at(rs, wanted, passed, k)
    } else {
        rs.len() as int
    }
}

/// Whether `us` are what the unilateral responses of `rs` that the reader does not take report,
/// in order.
pub open spec fn reports(
    us: Seq<UnsolicitedResponse>,
    rs: Seq<ServerResponse>,
    wanted: spec_fn(ServerResponse) -> bool,
    passed: spec_fn(ServerResponse) -> bool,
) -> bool
    decreases rs.len(),
{
    if rs.len() == 0 {
        us.len() == 0
    } else if !wanted(rs.last()) && passed(rs.last()) {
        &&& us.len() > 0
        &&& is_unsolicited_of(us.last(), rs.last())
        &&& reports(us.drop_last(), rs.drop_last(), wanted, passed)
    } else {
        reports(us, rs.drop_last(), wanted, passed)
    }
}

/// Whether `res` is what a reader of `input` that takes the responses `wanted` accepts ends
/// with, as far as errors go: the first response that it can neither take nor pass on is
/// returned as unexpected; otherwise bytes that do not parse are returned as invalid; otherwise
/// it succeeds.
pub open spec fn read_result<T>(
    res: Result<T>,
    input: Seq<u8>,
    wanted: spec_fn(ServerResponse) -> bool,
    passed: spec_fn(ServerResponse) -> bool,
) -> bool {
    let (rs, tail) = split_spec(input);
    match res {
        Ok(_) => none_unexpected(rs, wanted, passed) && tail is None,
        Err(Error::Unexpected(r)) => exists|k: int|
            first_unexpected_at(rs, wanted, passed, k) && r == rs[k],
        Err(Error::Parse(ParseError::Invalid(b))) => none_unexpected(rs, wanted, passed) && tail == Some(
            b@,
        ),
        Err(_) => false,
    }
}

/// Whether the queue `new` is `old` followed by what the responses of `input` that a reader
/// goes through report as unsolicited.
pub open spec fn passes_on(
    new: Seq<UnsolicitedResponse>,
    old: Seq<UnsolicitedResponse>,
    input: Seq<u8>,
    wanted: spec_fn(ServerResponse) -> bool,
    passed: spec_fn(ServerResponse) -> bool,
) -> bool {
    let rs = split_spec(input).0;
    &&& new.len() >= old.len()
    &&& new.take(old.len() as int) == old
    &&& reports(new.skip(old.len() as int), rs.take(read_len(rs, wanted, passed)), wanted, passed)
}

pub(crate) proof fn lemma_read_len_at(
    rs: Seq<ServerResponse>,
    wanted: spec_fn(ServerResponse) -> bool,
    passed: spec_fn(ServerResponse) -> bool,
    i: int,
)
    requires
        first_unexpected_at(rs, wanted, passed, i),
    ensures
        read_len(rs, wanted, passed) == i,
{
    let k = choose|k: int| first_unexpected_at(rs, wanted, passed, k);
    if k < i {
        assert(rs.take(i)[k] == rs[k]);
    } else if k > i {
        assert(rs.take(k)[i] == rs[i]);
    }
}

pub(crate) proof fn lemma_read_len_all(
    rs: Seq<ServerResponse>,
    wanted: spec_fn(ServerResponse) -> bool,
    passed: spec_fn(ServerResponse) -> bool,
)
    requires
        none_unexpected(rs, wanted, passed),
    ensures
        read_len(rs, wanted, passed) == rs.len(),
{
    if exists|k: int| first_unexpected_at(rs, wanted, passed, k) {
        let k = choose|k: int| first_unexpected_at(rs, wanted, passed, k);
        assert(!is_unexpected(rs[k], wanted, passed));
    }
}

/// One step of a reader: the invariants that hold of the first `i` responses hold of the
/// first `i + 1` when the `i`-th is not unexpected.
pub(crate) proof fn lemma_step(
    rs: Seq<ServerResponse>,
    wanted: spec_fn(ServerResponse) -> bool,
    passed: spec_fn(ServerResponse) -> bool,
    i: int,
    us: Seq<UnsolicitedResponse>,
    us2: Seq<UnsolicitedResponse>,
)
    requires
        0 <= i < rs.len(),
        !is_unexpected(rs[i], wanted, passed),
        none_unexpected(rs.take(i), wanted, passed),
        reports(us, rs.take(i), wanted, passed),
        if !wanted(rs[i]) && passed(rs[i]) {
            us2.len() == us.len() + 1 && us2.drop_last() == us && is_unsolicited_of(us2.last(), rs[i])
        } else {
            us2 == us
        },
    ensures
        none_unexpected(rs.take(i + 1), wanted, passed),
        reports(us2, rs.take(i + 1), wanted, passed),
        rs.take(i + 1).drop_last() == rs.take(i),
        rs.take(i + 1).last() == rs[i],
{
    assert(rs.take(i + 1).drop_last() == rs.take(i));
    assert(rs.take(i + 1).last() == rs[i]);
    assert forall|j: int| 0 <= j < i + 1 implies !#[trigger] is_unexpected(rs.take(i + 1)[j], wanted, passed) by {
        if j < i {
            assert(rs.take(i + 1)[j] == rs.take(i)[j]);
        }
    }
}

/// The skip of a queue that grew by one element at its end.
pub(crate) proof fn lemma_skip_push(
    old: Seq<UnsolicitedResponse>,
    q: Seq<UnsolicitedResponse>,
    u: UnsolicitedResponse,
)
    requires
        q.len() >= old.len(),
        q.take(old.len() as int) == old,
    ensures
        q.push(u).take(old.len() as int) == old,
        q.push(u).skip(old.len() as int) == q.skip(old.len() as int).push(u),
        q.push(u).skip(old.len() as int).drop_last() == q.skip(old.len() as int),
{
    assert(q.push(u).take(old.len() as int) == q.take(old.len() as int));
    assert(q.push(u).skip(old.len() as int) == q.skip(old.len() as int).push(u));
}

/// Check if this is simply a unilateral server response (see Section 7 of RFC 3501): if it is,
/// what it reports is appended to `unsolicited` and `None` is returned; otherwise the response
/// is returned unchanged.
pub fn try_handle_unilateral(
    res: ServerResponse,
    unsolicited: &mut VecDeque<UnsolicitedResponse>,
) -> (out: Option<ServerResponse>)
    ensures
        is_unilateral(res) ==> out is None && final(unsolicited)@.len() == old(unsolicited)@.len()
            + 1 && final(unsolicited)@.drop_last() == old(unsolicited)@ && is_unsolicited_of(
            final(unsolicited)@.last(),
            res,
        ),
        !is_unilateral(res) ==> out == Some(res) && final(unsolicited)@ == old(unsolicited)@,
{
    match UnsolicitedResponse::try_from(res) {
        Ok(response) => {
            unsolicited.push_back(response);
            None
        },
        Err(unhandled) => Some(unhandled),
    }
}

/// A reader that takes no response: every response must be unilateral.
pub open spec fn takes_nothing() -> spec_fn(ServerResponse) -> bool {
    |r: ServerResponse| false
}

/// Reads the reply to a command that returns no data (such as `NOOP`): every response is passed
/// on as unsolicited.
pub fn parse_noop(lines: Vec<u8>, unsolicited: &mut VecDeque<UnsolicitedResponse>) -> (res: Result<
    (),
>)
    ensures
        read_result(res, lines@, takes_nothing(), unilateral()),
        passes_on(final(unsolicited)@, old(unsolicited)@, lines@, takes_nothing(), unilateral()),
{
    let ghost wanted = takes_nothing();
    let ghost passed = unilateral();
    let (rs, tail) = split_responses(lines.as_slice());
    let ghost all = rs@;
    let ghost old_q = unsolicited@;
    proof {
        assert(all.take(0) =~= Seq::<ServerResponse>::empty());
        assert(unsolicited@.skip(old_q.len() as int) =~= Seq::<UnsolicitedResponse>::empty());
        assert(unsolicited@.take(old_q.len() as int) =~= old_q);
    }
    for r in it: rs
        invariant
            it.seq() == all,
            all == split_spec(lines@).0,
            wanted == takes_nothing(),
            passed == unilateral(),
            old_q == old(unsolicited)@,
            none_unexpected(all.take(it.index() as int), wanted, passed),
            unsolicited@.len() >= old_q.len(),
            unsolicited@.take(old_q.len() as int) == old_q,
            reports(unsolicited@.skip(old_q.len() as int), all.take(it.index() as int), wanted, passed),
    {
        let ghost i = it.index() as int;
        let ghost q = unsolicited@;
        match try_handle_unilateral(r, unsolicited) {
            Some(resp) => {
                proof {
                    assert(first_unexpected_at(all, wanted, passed, i));
                    lemma_read_len_at(all, wanted, passed, i);
                }
                return Err(Error::Unexpected(resp));
            },
            None => {
                proof {
                    lemma_skip_push(old_q, q, unsolicited@.last());
                    assert(q.push(unsolicited@.last()) == unsolicited@);
                    lemma_step(all, wanted, passed, i, q.skip(old_q.len() as int), unsolicited@.skip(old_q.len() as int));
                }
            },
        }
    }
    proof {
        assert(all.take(all.len() as int) == all);
        lemma_read_len_all(all, wanted, passed);
    }
    match tail {
        Some(b) => Err(Error::Parse(ParseError::Invalid(b))),
        None => Ok(()),
    }
}

/// A reader of the reply to `EXPUNGE`: it takes `EXPUNGE` and `VANISHED` responses.
pub open spec fn takes_expunged() -> spec_fn(ServerResponse) -> bool {
    |r: ServerResponse| r is Expunge || r is Vanished
}

/// The sequence numbers of the `EXPUNGE` responses of `rs`, in order.
pub open spec fn expunged_seqs(rs: Seq<ServerResponse>) -> Seq<u32>
    decreases rs.len(),
{
    if rs.len() == 0 {
        seq![]
    } else {
        let p = expunged_seqs(rs.drop_last());
        match rs.last() {
            ServerResponse::Expunge(n) => p.push(n),
            _ => p,
        }
    }
}

/// The UID ranges of the `VANISHED` responses of `rs`, in order.
pub open spec fn vanished_ranges(rs: Seq<ServerResponse>) -> Seq<RangeInclusive<u32>>
    decreases rs.len(),
{
    if rs.len() == 0 {
        seq![]
    } else {
        let p = vanished_ranges(rs.drop_last());
        match rs.last() {
            ServerResponse::Vanished { uids, .. } => p + uids@,
            _ => p,
        }
    }
}

/// The sequence numbers of a reply are those of its `EXPUNGE` responses, in order: a single
/// `EXPUNGE n` gives `n`, any other single response gives none, and the numbers of two parts of
/// a reply are those of the first followed by those of the second.
pub proof fn lemma_expunged_seqs(rs: Seq<ServerResponse>, more: Seq<ServerResponse>, r: ServerResponse)
    ensures
        expunged_seqs(seq![r]) == match r {
            ServerResponse::Expunge(n) => seq![n],
            _ => Seq::<u32>::empty(),
        },
        expunged_seqs(rs + more) == expunged_seqs(rs) + expunged_seqs(more),
    decreases more.len(),
{
    reveal_with_fuel(expunged_seqs, 2);
    assert(seq![r].drop_last() == Seq::<ServerResponse>::empty());
    assert(seq![r].last() == r);
    if more.len() == 0 {
        assert(rs + more == rs);
    } else {
        lemma_expunged_seqs(rs, more.drop_last(), r);
        assert((rs + more).drop_last() == rs + more.drop_last());
        assert((rs + more).last() == more.last());
    }
}

/// The UID ranges of a reply are those of its `VANISHED` responses, in order: a single
/// `VANISHED` gives its ranges, any other single response gives none, and the ranges of two
/// parts of a reply are those of the first followed by those of the second.
pub proof fn lemma_vanished_ranges(rs: Seq<ServerResponse>, more: Seq<ServerResponse>, r: ServerResponse)
    ensures
        vanished_ranges(seq![r]) == match r {
            ServerResponse::Vanished { uids, .. } => uids@,
            _ => Seq::<RangeInclusive<u32>>::empty(),
        },
        vanished_ranges(rs + more) == vanished_ranges(rs) + vanished_ranges(more),
    decreases more.len(),
{
    reveal_with_fuel(vanished_ranges, 2);
    assert(seq![r].drop_last() == Seq::<ServerResponse>::empty());
    assert(seq![r].last() == r);
    if more.len() == 0 {
        assert(rs + more == rs);
    } else {
        lemma_vanished_ranges(rs, more.drop_last(), r);
        assert((rs + more).drop_last() == rs + more.drop_last());
        assert((rs + more).last() == more.last());
    }
}

/// What the reply `rs` to `EXPUNGE` reports as deleted: the `VANISHED` UIDs where there are any
/// (a server that sends `VANISHED` sends it in place of `EXPUNGE`), or else the `EXPUNGE`
/// sequence numbers.
pub open spec fn is_deleted_of(d: Deleted, rs: Seq<ServerResponse>) -> bool {
    &&& d.mod_seq is None
    &&& if vanished_ranges(rs).len() > 0 {
        d.messages matches crate::types::DeletedMessages::Vanished(v) && v@ == vanished_ranges(rs)
    } else {
        d.messages matches crate::types::DeletedMessages::Expunged(v) && v@ == expunged_seqs(rs)
    }
}

/// Reads the reply to `EXPUNGE`: the expunged sequence numbers, or the UIDs of `VANISHED`
/// responses if there are any; every other response is passed on as unsolicited.
pub fn parse_expunge(lines: Vec<u8>, unsolicited: &mut VecDeque<UnsolicitedResponse>) -> (res:
    Result<Deleted>)
    ensures
        read_result(res, lines@, takes_expunged(), unilateral()),
        passes_on(final(unsolicited)@, old(unsolicited)@, lines@, takes_expunged(), unilateral()),
        res matches Ok(d) ==> is_deleted_of(d, split_spec(lines@).0),
{
    let ghost wanted = takes_expunged();
    let ghost passed = unilateral();
    let (rs, tail) = split_responses(lines.as_slice());
    let ghost all = rs@;
    let ghost old_q = unsolicited@;
    let mut expunged: Vec<u32> = Vec::new();
    let mut vanished: Vec<RangeInclusive<u32>> = Vec::new();
    proof {
        assert(all.take(0) =~= Seq::<ServerResponse>::empty());
        assert(unsolicited@.skip(old_q.len() as int) =~= Seq::<UnsolicitedResponse>::empty());
        assert(unsolicited@.take(old_q.len() as int) =~= old_q);
    }
    for r in it: rs
        invariant
            it.seq() == all,
            all == split_spec(lines@).0,
            wanted == takes_expunged(),
            passed == unilateral(),
            old_q == old(unsolicited)@,
            none_unexpected(all.take(it.index() as int), wanted, passed),
            unsolicited@.len() >= old_q.len(),
            unsolicited@.take(old_q.len() as int) == old_q,
            reports(unsolicited@.skip(old_q.len() as int), all.take(it.index() as int), wanted, passed),
            expunged@ == expunged_seqs(all.take(it.index() as int)),
            vanished@ == vanished_ranges(all.take(it.index() as int)),
    {
        let ghost i = it.index() as int;
        let ghost q = unsolicited@;
        match r {
            ServerResponse::Expunge(n) => {
                expunged.push(n);
                proof {
                    lemma_step(all, wanted, passed, i, q.skip(old_q.len() as int), q.skip(old_q.len() as int));
                }
            },
            ServerResponse::Vanished { earlier: _, uids } => {
                let mut uids = uids;
                vanished.append(&mut uids);
                proof {
                    lemma_step(all, wanted, passed, i, q.skip(old_q.len() as int), q.skip(old_q.len() as int));
                }
            },
            other => {
                match try_handle_unilateral(other, unsolicited) {
                    Some(resp) => {
                        proof {
                            assert(first_unexpected_at(all, wanted, passed, i));
                            lemma_read_len_at(all, wanted, passed, i);
                        }
                        return Err(Error::Unexpected(resp));
                    },
                    None => {
                        proof {
                            lemma_skip_push(old_q, q, unsolicited@.last());
                            assert(q.push(unsolicited@.last()) == unsolicited@);
                            lemma_step(all, wanted, passed, i, q.skip(old_q.len() as int), unsolicited@.skip(old_q.len() as int));
                        }
                    },
                }
            },
        }
    }
    proof {
        assert(all.take(all.len() as int) == all);
        lemma_read_len_all(all, wanted, passed);
    }
    match tail {
        Some(b) => Err(Error::Parse(ParseError::Invalid(b))),
        None => {
            if vanished.len() > 0 {
                Ok(Deleted::from_vanished(vanished, None))
            } else {
                Ok(Deleted::from_expunged(expunged, None))
            }
        },
    }
}

/// A reader of the reply to `SEARCH` or `SORT`: it takes `SEARCH` and `SORT` responses.
pub open spec fn takes_ids() -> spec_fn(ServerResponse) -> bool {
    |r: ServerResponse| r matches ServerResponse::MailboxData(d) && (d is Search || d is Sort)
}

/// The numbers of the `SEARCH` and `SORT` responses of `rs`, in order.
pub open spec fn found_ids(rs: Seq<ServerResponse>) -> Seq<u32>
    decreases rs.len(),
{
    if rs.len() == 0 {
        seq![]
    } else {
        let p = found_ids(rs.drop_last());
        match rs.last() {
            ServerResponse::MailboxData(MailboxData::Search(v)) => p + v@,
            ServerResponse::MailboxData(MailboxData::Sort(v)) => p + v@,
            _ => p,
        }
    }
}

/// Reads the reply to `SORT` (or `SEARCH`): the numbers it lists, in the order given; every
/// other response is passed on as unsolicited.
pub fn parse_id_seq(lines: &[u8], unsolicited: &mut VecDeque<UnsolicitedResponse>) -> (res: Result<
    Vec<u32>,
>)
    ensures
        read_result(res, lines@, takes_ids(), unilateral()),
        passes_on(final(unsolicited)@, old(unsolicited)@, lines@, takes_ids(), unilateral()),
        res matches Ok(v) ==> v@ == found_ids(split_spec(lines@).0),
{
    let ghost wanted = takes_ids();
    let ghost passed = unilateral();
    let (rs, tail) = split_responses(lines);
    let ghost all = rs@;
    let ghost old_q = unsolicited@;
    let mut ids: Vec<u32> = Vec::new();
    proof {
        assert(all.take(0) =~= Seq::<ServerResponse>::empty());
        assert(unsolicited@.skip(old_q.len() as int) =~= Seq::<UnsolicitedResponse>::empty());
        assert(unsolicited@.take(old_q.len() as int) =~= old_q);
    }
    for r in it: rs
        invariant
            it.seq() == all,
            all == split_spec(lines@).0,
            wanted == takes_ids(),
            passed == unilateral(),
            old_q == old(unsolicited)@,
            none_unexpected(all.take(it.index() as int), wanted, passed),
            unsolicited@.len() >= old_q.len(),
            unsolicited@.take(old_q.len() as int) == old_q,
            reports(unsolicited@.skip(old_q.len() as int), all.take(it.index() as int), wanted, passed),
            ids@ == found_ids(all.take(it.index() as int)),
    {
        let ghost i = it.index() as int;
        let ghost q = unsolicited@;
        match r {
            ServerResponse::MailboxData(MailboxData::Search(c)) => {
                let mut c = c;
                ids.append(&mut c);
                proof {
                    lemma_step(all, wanted, passed, i, q.skip(old_q.len() as int), q.skip(old_q.len() as int));
                }
            },
            ServerResponse::MailboxData(MailboxData::Sort(c)) => {
                let mut c = c;
                ids.append(&mut c);
                proof {
                    lemma_step(all, wanted, passed, i, q.skip(old_q.len() as int), q.skip(old_q.len() as int));
                }
            },
            other => {
                match try_handle_unilateral(other, unsolicited) {
                    Some(resp) => {
                        proof {
                            assert(first_unexpected_at(all, wanted, passed, i));
                            lemma_read_len_at(all, wanted, passed, i);
                        }
                        return Err(Error::Unexpected(resp));
                    },
                    None => {
                        proof {
                            lemma_skip_push(old_q, q, unsolicited@.last());
                            assert(q.push(unsolicited@.last()) == unsolicited@);
                            lemma_step(all, wanted, passed, i, q.skip(old_q.len() as int), unsolicited@.skip(old_q.len() as int));
                        }
                    },
                }
            },
        }
    }
    proof {
        assert(all.take(all.len() as int) == all);
        lemma_read_len_all(all, wanted, passed);
    }
    match tail {
        Some(b) => Err(Error::Parse(ParseError::Invalid(b))),
        None => Ok(ids),
    }
}

/// Reads the reply to `SEARCH`: the set of numbers it lists; every other response is passed on
/// as unsolicited.
pub fn parse_id_set(lines: &[u8], unsolicited: &mut VecDeque<UnsolicitedResponse>) -> (res: Result<
    HashSet<u32>,
>)
    ensures
        read_result(res, lines@, takes_ids(), unilateral()),
        passes_on(final(unsolicited)@, old(unsolicited)@, lines@, takes_ids(), unilateral()),
        res matches Ok(s) ==> s@ == found_ids(split_spec(lines@).0).to_set(),
{
    broadcast use vstd::std_specs::hash::group_hash_axioms;
    match parse_id_seq(lines, unsolicited) {
        Ok(v) => {
            let mut set: HashSet<u32> = HashSet::new();
            let ghost all = v@;
            for x in it: v
                invariant
                    it.seq() == all,
                    set@ == all.take(it.index() as int).to_set(),
            {
                let ghost k = it.index() as int;
                set.insert(x);
                proof {
                    assert(all.take(k + 1) == all.take(k).push(x));
                    all.take(k).lemma_push_to_set_commute(x);
                }
            }
            proof {
                assert(all.take(all.len() as int) == all);
            }
            Ok(set)
        },
        Err(e) => Err(e),
    }
}

/// The numeric fields of a mailbox.
pub struct MailboxNumbers {
    pub exists: u32,
    pub recent: u32,
    pub unseen: Option<u32>,
    pub uid_next: Option<u32>,
    pub uid_validity: Option<u32>,
    pub highest_mod_seq: Option<u64>,
}

/// The numeric fields of `m`.
pub open spec fn numbers_of(m: Mailbox) -> MailboxNumbers {
    MailboxNumbers {
        exists: m.exists,
        recent: m.recent,
        unseen: m.unseen,
        uid_next: m.uid_next,
        uid_validity: m.uid_validity,
        highest_mod_seq: m.highest_mod_seq,
    }
}

/// The numeric fields of a default mailbox.
pub open spec fn no_numbers() -> MailboxNumbers {
    MailboxNumbers {
        exists: 0,
        recent: 0,
        unseen: None,
        uid_next: None,
        uid_validity: None,
        highest_mod_seq: None,
    }
}

/// The numbers after a `STATUS` attribute is applied: `MESSAGES` sets `exists`, and each other
/// attribute the field of its name.
pub open spec fn apply_status_item(n: MailboxNumbers, a: StatusItem) -> MailboxNumbers {
    match a {
        StatusItem::HighestModSeq(v) => MailboxNumbers { highest_mod_seq: Some(v), ..n },
        StatusItem::Messages(v) => MailboxNumbers { exists: v, ..n },
        StatusItem::Recent(v) => MailboxNumbers { recent: v, ..n },
        StatusItem::UidNext(v) => MailboxNumbers { uid_next: Some(v), ..n },
        StatusItem::UidValidity(v) => MailboxNumbers { uid_validity: Some(v), ..n },
        StatusItem::Unseen(v) => MailboxNumbers { unseen: Some(v), ..n },
        StatusItem::Other => n,
    }
}

/// The numbers after `STATUS` attributes are applied in order.
pub open spec fn apply_status_items(n: MailboxNumbers, items: Seq<StatusItem>) -> MailboxNumbers
    decreases items.len(),
{
    if items.len() == 0 {
        n
    } else {
        apply_status_item(apply_status_items(n, items.drop_last()), items.last())
    }
}

/// A `STATUS` reply sets the `highest_mod_seq` field from its `HIGHESTMODSEQ` attributes: the value of the last
/// one; where there is none, the field keeps its value.
pub proof fn lemma_status_sets_highest_mod_seq(n: MailboxNumbers, items: Seq<StatusItem>)
    ensures
        (forall|j: int| 0 <= j < items.len() ==> !(#[trigger] items[j] is HighestModSeq)) ==> apply_status_items(
            n,
            items,
        ).highest_mod_seq == n.highest_mod_seq,
        forall|i: int|
            0 <= i < items.len() && (#[trigger] items[i] is HighestModSeq) && (forall|j: int|
                i < j < items.len() ==> !(#[trigger] items[j] is HighestModSeq)) ==> apply_status_items(n, items).highest_mod_seq
                == Some(items[i]->HighestModSeq_0),
    decreases items.len(),
{
    if items.len() > 0 {
        let init = items.drop_last();
        lemma_status_sets_highest_mod_seq(n, init);
        assert forall|i: int|
            0 <= i < items.len() && (#[trigger] items[i] is HighestModSeq) && (forall|j: int|
                i < j < items.len() ==> !(#[trigger] items[j] is HighestModSeq)) implies apply_status_items(n, items).highest_mod_seq
                == Some(items[i]->HighestModSeq_0) by {
            if i < items.len() - 1 {
                assert(!(items[items.len() - 1] is HighestModSeq));
                assert(init[i] == items[i]);
                assert forall|j: int| i < j < init.len() implies !(#[trigger] init[j] is HighestModSeq) by {
                    assert(init[j] == items[j]);
                }
            }
        }
        if forall|j: int| 0 <= j < items.len() ==> !(#[trigger] items[j] is HighestModSeq) {
            assert(!(items[items.len() - 1] is HighestModSeq));
            assert forall|j: int| 0 <= j < init.len() implies !(#[trigger] init[j] is HighestModSeq) by {
                assert(init[j] == items[j]);
            }
        }
    }
}

/// A `STATUS` reply sets the `exists` field from its `MESSAGES` attributes: the value of the last
/// one; where there is none, the field keeps its value.
pub proof fn lemma_status_sets_exists(n: MailboxNumbers, items: Seq<StatusItem>)
    ensures
        (forall|j: int| 0 <= j < items.len() ==> !(#[trigger] items[j] is Messages)) ==> apply_status_items(
            n,
            items,
        ).exists == n.exists,
        forall|i: int|
            0 <= i < items.len() && (#[trigger] items[i] is Messages) && (forall|j: int|
                i < j < items.len() ==> !(#[trigger] items[j] is Messages)) ==> apply_status_items(n, items).exists
                == items[i]->Messages_0,
    decreases items.len(),
{
    if items.len() > 0 {
        let init = items.drop_last();
        lemma_status_sets_exists(n, init);
        assert forall|i: int|
            0 <= i < items.len() && (#[trigger] items[i] is Messages) && (forall|j: int|
                i < j < items.len() ==> !(#[trigger] items[j] is Messages)) implies apply_status_items(n, items).exists
                == items[i]->Messages_0 by {
            if i < items.len() - 1 {
                assert(!(items[items.len() - 1] is Messages));
                assert(init[i] == items[i]);
                assert forall|j: int| i < j < init.len() implies !(#[trigger] init[j] is Messages) by {
                    assert(init[j] == items[j]);
                }
            }
        }
        if forall|j: int| 0 <= j < items.len() ==> !(#[trigger] items[j] is Messages) {
            assert(!(items[items.len() - 1] is Messages));
            assert forall|j: int| 0 <= j < init.len() implies !(#[trigger] init[j] is Messages) by {
                assert(init[j] == items[j]);
            }
        }
    }
}

/// A `STATUS` reply sets the `recent` field from its `RECENT` attributes: the value of the last
/// one; where there is none, the field keeps its value.
pub proof fn lemma_status_sets_recent(n: MailboxNumbers, items: Seq<StatusItem>)
    ensures
        (forall|j: int| 0 <= j < items.len() ==> !(#[trigger] items[j] is Recent)) ==> apply_status_items(
            n,
            items,
        ).recent == n.recent,
        forall|i: int|
            0 <= i < items.len() && (#[trigger] items[i] is Recent) && (forall|j: int|
                i < j < items.len() ==> !(#[trigger] items[j] is Recent)) ==> apply_status_items(n, items).recent
                == items[i]->Recent_0,
    decreases items.len(),
{
    if items.len() > 0 {
        let init = items.drop_last();
        lemma_status_sets_recent(n, init);
        assert forall|i: int|
            0 <= i < items.len() && (#[trigger] items[i] is Recent) && (forall|j: int|
                i < j < items.len() ==> !(#[trigger] items[j] is Recent)) implies apply_status_items(n, items).recent
                == items[i]->Recent_0 by {
            if i < items.len() - 1 {
                assert(!(items[items.len() - 1] is Recent));
                assert(init[i] == items[i]);
                assert forall|j: int| i < j < init.len() implies !(#[trigger] init[j] is Recent) by {
                    assert(init[j] == items[j]);
                }
            }
        }
        if forall|j: int| 0 <= j < items.len() ==> !(#[trigger] items[j] is Recent) {
            assert(!(items[items.len() - 1] is Recent));
            assert forall|j: int| 0 <= j < init.len() implies !(#[trigger] init[j] is Recent) by {
                assert(init[j] == items[j]);
            }
        }
    }
}

/// A `STATUS` reply sets the `uid_next` field from its `UIDNEXT` attributes: the value of the last
/// one; where there is none, the field keeps its value.
pub proof fn lemma_status_sets_uid_next(n: MailboxNumbers, items: Seq<StatusItem>)
    ensures
        (forall|j: int| 0 <= j < items.len() ==> !(#[trigger] items[j] is UidNext)) ==> apply_status_items(
            n,
            items,
        ).uid_next == n.uid_next,
        forall|i: int|
            0 <= i < items.len() && (#[trigger] items[i] is UidNext) && (forall|j: int|
                i < j < items.len() ==> !(#[trigger] items[j] is UidNext)) ==> apply_status_items(n, items).uid_next
                == Some(items[i]->UidNext_0),
    decreases items.len(),
{
    if items.len() > 0 {
        let init = items.drop_last();
        lemma_status_sets_uid_next(n, init);
        assert forall|i: int|
            0 <= i < items.len() && (#[trigger] items[i] is UidNext) && (forall|j: int|
                i < j < items.len() ==> !(#[trigger] items[j] is UidNext)) implies apply_status_items(n, items).uid_next
                == Some(items[i]->UidNext_0) by {
            if i < items.len() - 1 {
                assert(!(items[items.len() - 1] is UidNext));
                assert(init[i] == items[i]);
                assert forall|j: int| i < j < init.len() implies !(#[trigger] init[j] is UidNext) by {
                    assert(init[j] == items[j]);
                }
            }
        }
        if forall|j: int| 0 <= j < items.len() ==> !(#[trigger] items[j] is UidNext) {
            assert(!(items[items.len() - 1] is UidNext));
            assert forall|j: int| 0 <= j < init.len() implies !(#[trigger] init[j] is UidNext) by {
                assert(init[j] == items[j]);
            }
        }
    }
}

/// A `STATUS` reply sets the `uid_validity` field from its `UIDVALIDITY` attributes: the value of the last
/// one; where there is none, the field keeps its value.
pub proof fn lemma_status_sets_uid_validity(n: MailboxNumbers, items: Seq<StatusItem>)
    ensures
        (forall|j: int| 0 <= j < items.len() ==> !(#[trigger] items[j] is UidValidity)) ==> apply_status_items(
            n,
            items,
        ).uid_validity == n.uid_validity,
        forall|i: int|
            0 <= i < items.len() && (#[trigger] items[i] is UidValidity) && (forall|j: int|
                i < j < items.len() ==> !(#[trigger] items[j] is UidValidity)) ==> apply_status_items(n, items).uid_validity
                == Some(items[i]->UidValidity_0),
    decreases items.len(),
{
    if items.len() > 0 {
        let init = items.drop_last();
        lemma_status_sets_uid_validity(n, init);
        assert forall|i: int|
            0 <= i < items.len() && (#[trigger] items[i] is UidValidity) && (forall|j: int|
                i < j < items.len() ==> !(#[trigger] items[j] is UidValidity)) implies apply_status_items(n, items).uid_validity
                == Some(items[i]->UidValidity_0) by {
            if i < items.len() - 1 {
                assert(!(items[items.len() - 1] is UidValidity));
                assert(init[i] == items[i]);
                assert forall|j: int| i < j < init.len() implies !(#[trigger] init[j] is UidValidity) by {
                    assert(init[j] == items[j]);
                }
            }
        }
        if forall|j: int| 0 <= j < items.len() ==> !(#[trigger] items[j] is UidValidity) {
            assert(!(items[items.len() - 1] is UidValidity));
            assert forall|j: int| 0 <= j < init.len() implies !(#[trigger] init[j] is UidValidity) by {
                assert(init[j] == items[j]);
            }
        }
    }
}

/// A `STATUS` reply sets the `unseen` field from its `UNSEEN` attributes: the value of the last
/// one; where there is none, the field keeps its value.
pub proof fn lemma_status_sets_unseen(n: MailboxNumbers, items: Seq<StatusItem>)
    ensures
        (forall|j: int| 0 <= j < items.len() ==> !(#[trigger] items[j] is Unseen)) ==> apply_status_items(
            n,
            items,
        ).unseen == n.unseen,
        forall|i: int|
            0 <= i < items.len() && (#[trigger] items[i] is Unseen) && (forall|j: int|
                i < j < items.len() ==> !(#[trigger] items[j] is Unseen)) ==> apply_status_items(n, items).unseen
                == Some(items[i]->Unseen_0),
    decreases items.len(),
{
    if items.len() > 0 {
        let init = items.drop_last();
        lemma_status_sets_unseen(n, init);
        assert forall|i: int|
            0 <= i < items.len() && (#[trigger] items[i] is Unseen) && (forall|j: int|
                i < j < items.len() ==> !(#[trigger] items[j] is Unseen)) implies apply_status_items(n, items).unseen
                == Some(items[i]->Unseen_0) by {
            if i < items.len() - 1 {
                assert(!(items[items.len() - 1] is Unseen));
                assert(init[i] == items[i]);
                assert forall|j: int| i < j < init.len() implies !(#[trigger] init[j] is Unseen) by {
                    assert(init[j] == items[j]);
                }
            }
        }
        if forall|j: int| 0 <= j < items.len() ==> !(#[trigger] items[j] is Unseen) {
            assert(!(items[items.len() - 1] is Unseen));
            assert forall|j: int| 0 <= j < init.len() implies !(#[trigger] init[j] is Unseen) by {
                assert(init[j] == items[j]);
            }
        }
    }
}

/// Applies the attributes of a `STATUS` response to the numeric fields of `mailbox`.
pub fn apply_status(mailbox: &mut Mailbox, items: Vec<StatusItem>)
    ensures
        numbers_of(*final(mailbox)) == apply_status_items(numbers_of(*old(mailbox)), items@),
        final(mailbox).flags == old(mailbox).flags,
        final(mailbox).permanent_flags == old(mailbox).permanent_flags,
        final(mailbox).is_read_only == old(mailbox).is_read_only,
{
    let ghost all = items@;
    let ghost start = numbers_of(*mailbox);
    for a in it: items
        invariant
            it.seq() == all,
            numbers_of(*mailbox) == apply_status_items(start, all.take(it.index() as int)),
            start == numbers_of(*old(mailbox)),
            mailbox.flags == old(mailbox).flags,
            mailbox.permanent_flags == old(mailbox).permanent_flags,
            mailbox.is_read_only == old(mailbox).is_read_only,
    {
        proof {
            assert(all.take(it.index() + 1).drop_last() == all.take(it.index() as int));
        }
        match a {
            StatusItem::HighestModSeq(v) => mailbox.highest_mod_seq = Some(v),
            StatusItem::Messages(v) => mailbox.exists = v,
            StatusItem::Recent(v) => mailbox.recent = v,
            StatusItem::UidNext(v) => mailbox.uid_next = Some(v),
            StatusItem::UidValidity(v) => mailbox.uid_validity = Some(v),
            StatusItem::Unseen(v) => mailbox.unseen = Some(v),
            StatusItem::Other => {},
        }
    }
    proof {
        assert(all.take(all.len() as int) == all);
    }
}

/// Whether `r` is a `STATUS` response for the mailbox named `name`.
pub open spec fn is_status_for(r: ServerResponse, name: Seq<char>) -> bool {
    r matches ServerResponse::MailboxData(MailboxData::Status { mailbox, .. }) && mailbox@ == name
}

/// A reader of the reply to `STATUS name`: it takes the `STATUS` responses for `name`.
pub open spec fn takes_status_of(name: Seq<char>) -> spec_fn(ServerResponse) -> bool {
    |r: ServerResponse| is_status_for(r, name)
}

/// The numbers that the `STATUS` responses for `name` among `rs` give, applied in order.
pub open spec fn status_numbers(rs: Seq<ServerResponse>, name: Seq<char>) -> MailboxNumbers
    decreases rs.len(),
{
    if rs.len() == 0 {
        no_numbers()
    } else {
        let p = status_numbers(rs.drop_last(), name);
        match rs.last() {
            ServerResponse::MailboxData(MailboxData::Status { mailbox, status }) => if mailbox@
                == name {
                apply_status_items(p, status@)
            } else {
                p
            },
            _ => p,
        }
    }
}

/// The numbers of a `STATUS` reply come from the `STATUS` responses for the mailbox asked
/// about, applied in order: a further `STATUS` response for it applies its attributes, and any
/// other response changes nothing.
pub proof fn lemma_status_numbers_push(rs: Seq<ServerResponse>, r: ServerResponse, name: Seq<char>)
    ensures
        status_numbers(seq![], name) == no_numbers(),
        status_numbers(rs.push(r), name) == if is_status_for(r, name) {
            apply_status_items(status_numbers(rs, name), r->MailboxData_0->Status_status@)
        } else {
            status_numbers(rs, name)
        },
{
    assert(rs.push(r).drop_last() == rs);
}

/// Whether some response of `rs` is a `STATUS` response for `name`.
pub open spec fn has_status_for(rs: Seq<ServerResponse>, name: Seq<char>) -> bool {
    exists|k: int| 0 <= k < rs.len() && #[trigger] is_status_for(rs[k], name)
}

/// Reads the reply to `STATUS`: the numbers of the `STATUS` responses for `mailbox_name`,
/// applied in order to a default mailbox; every other response is passed on as unsolicited.
/// A reply without such a response is [`Error::MissingStatusResponse`].
pub fn parse_status(
    lines: &[u8],
    mailbox_name: &str,
    unsolicited: &mut VecDeque<UnsolicitedResponse>,
) -> (res: Result<Mailbox>)
    ensures
        match res {
            Err(Error::MissingStatusResponse) => {
                &&& none_unexpected(split_spec(lines@).0, takes_status_of(mailbox_name@), unilateral())
                &&& split_spec(lines@).1 is None
                &&& !has_status_for(split_spec(lines@).0, mailbox_name@)
            },
            Ok(m) => {
                &&& read_result(res, lines@, takes_status_of(mailbox_name@), unilateral())
                &&& has_status_for(split_spec(lines@).0, mailbox_name@)
                &&& m.flags@.len() == 0 && m.permanent_flags@.len() == 0 && !m.is_read_only
                &&& numbers_of(m) == status_numbers(split_spec(lines@).0, mailbox_name@)
            },
            _ => read_result(res, lines@, takes_status_of(mailbox_name@), unilateral()),
        },
        passes_on(final(unsolicited)@, old(unsolicited)@, lines@, takes_status_of(mailbox_name@), unilateral()),
{
    let ghost wanted = takes_status_of(mailbox_name@);
    let ghost passed = unilateral();
    let (rs, tail) = split_responses(lines);
    let ghost all = rs@;
    let ghost old_q = unsolicited@;
    let mut mailbox = Mailbox::default();
    let mut got_anything = false;
    proof {
        assert(all.take(0) =~= Seq::<ServerResponse>::empty());
        assert(unsolicited@.skip(old_q.len() as int) =~= Seq::<UnsolicitedResponse>::empty());
        assert(unsolicited@.take(old_q.len() as int) =~= old_q);
    }
    for r in it: rs
        invariant
            it.seq() == all,
            all == split_spec(lines@).0,
            wanted == takes_status_of(mailbox_name@),
            passed == unilateral(),
            old_q == old(unsolicited)@,
            none_unexpected(all.take(it.index() as int), wanted, passed),
            unsolicited@.len() >= old_q.len(),
            unsolicited@.take(old_q.len() as int) == old_q,
            reports(unsolicited@.skip(old_q.len() as int), all.take(it.index() as int), wanted, passed),
            mailbox.flags@.len() == 0 && mailbox.permanent_flags@.len() == 0 && !mailbox.is_read_only,
            numbers_of(mailbox) == status_numbers(all.take(it.index() as int), mailbox_name@),
            got_anything == has_status_for(all.take(it.index() as int), mailbox_name@),
    {
        let ghost i = it.index() as int;
        let ghost q = unsolicited@;
        proof {
            assert(all.take(i + 1).drop_last() == all.take(i));
            assert(all.take(i + 1).last() == all[i]);
            if has_status_for(all.take(i), mailbox_name@) {
                let k = choose|k: int| 0 <= k < all.take(i).len() && #[trigger] is_status_for(all.take(i)[k], mailbox_name@);
                assert(all.take(i + 1)[k] == all.take(i)[k]);
            }
            if has_status_for(all.take(i + 1), mailbox_name@) && !is_status_for(all[i], mailbox_name@) {
                let k = choose|k: int| 0 <= k < all.take(i + 1).len() && #[trigger] is_status_for(all.take(i + 1)[k], mailbox_name@);
                assert(all.take(i)[k] == all.take(i + 1)[k]);
            }
        }
        let is_ours = match &r {
            ServerResponse::MailboxData(MailboxData::Status { mailbox: theirs, .. }) => str_eq(
                theirs.as_str(),
                mailbox_name,
            ),
            _ => false,
        };
        if is_ours {
            match r {
                ServerResponse::MailboxData(MailboxData::Status { mailbox: _, status }) => {
                    apply_status(&mut mailbox, status);
                    got_anything = true;
                    proof {
                        assert(all.take(i + 1)[i] == all[i]);
                        lemma_step(all, wanted, passed, i, q.skip(old_q.len() as int), q.skip(old_q.len() as int));
                    }
                },
                _ => {},
            }
        } else {
            match try_handle_unilateral(r, unsolicited) {
                Some(resp) => {
                    proof {
                        assert(first_unexpected_at(all, wanted, passed, i));
                        lemma_read_len_at(all, wanted, passed, i);
                    }
                    return Err(Error::Unexpected(resp));
                },
                None => {
                    proof {
                        lemma_skip_push(old_q, q, unsolicited@.last());
                        assert(q.push(unsolicited@.last()) == unsolicited@);
                        lemma_step(all, wanted, passed, i, q.skip(old_q.len() as int), unsolicited@.skip(old_q.len() as int));
                    }
                },
            }
        }
    }
    proof {
        assert(all.take(all.len() as int) == all);
        lemma_read_len_all(all, wanted, passed);
    }
    match tail {
        Some(b) => Err(Error::Parse(ParseError::Invalid(b))),
        None => {
            if !got_anything {
                Err(Error::MissingStatusResponse)
            } else {
                Ok(mailbox)
            }
        },
    }
}


/// A reader of the reply to `SELECT` or `EXAMINE`: it takes tagged and untagged status
/// responses and the mailbox data other than `STATUS`.
pub open spec fn takes_mailbox_data() -> spec_fn(ServerResponse) -> bool {
    |r: ServerResponse|
        match r {
            ServerResponse::Done { .. } => true,
            ServerResponse::Data { .. } => true,
            ServerResponse::MailboxData(d) => !(d is Status),
            _ => false,
        }
}

/// The responses that the reader of a `SELECT` reply passes on as unsolicited: `STATUS` and
/// `EXPUNGE`.
pub open spec fn passes_status_and_expunge() -> spec_fn(ServerResponse) -> bool {
    |r: ServerResponse| r matches ServerResponse::MailboxData(MailboxData::Status { .. }) || r is Expunge
}

/// The numbers that a `SELECT` reply sets, applied in order to those of a default mailbox:
/// `EXISTS` and `RECENT` data, and the `HIGHESTMODSEQ`, `UIDVALIDITY`, `UIDNEXT` and `UNSEEN`
/// codes of untagged status responses.
pub open spec fn select_numbers(rs: Seq<ServerResponse>) -> MailboxNumbers
    decreases rs.len(),
{
    if rs.len() == 0 {
        no_numbers()
    } else {
        let n = select_numbers(rs.drop_last());
        match rs.last() {
            ServerResponse::Data { code: Some(c), .. } => match c {
                StatusCode::HighestModSeq(v) => MailboxNumbers { highest_mod_seq: Some(v), ..n },
                StatusCode::UidValidity(v) => MailboxNumbers { uid_validity: Some(v), ..n },
                StatusCode::UidNext(v) => MailboxNumbers { uid_next: Some(v), ..n },
                StatusCode::Unseen(v) => MailboxNumbers { unseen: Some(v), ..n },
                _ => n,
            },
            ServerResponse::MailboxData(MailboxData::Exists(v)) => MailboxNumbers { exists: v, ..n },
            ServerResponse::MailboxData(MailboxData::Recent(v)) => MailboxNumbers { recent: v, ..n },
            _ => n,
        }
    }
}

/// A `SELECT` reply sets the `highest_mod_seq` field from an untagged status response with a `HIGHESTMODSEQ` code: the value of the last such response;
/// where there is none, the field keeps its default.
pub proof fn lemma_select_sets_highest_mod_seq(rs: Seq<ServerResponse>)
    ensures
        (forall|j: int| 0 <= j < rs.len() ==> !(#[trigger] rs[j] matches ServerResponse::Data { code: Some(StatusCode::HighestModSeq(_)), .. })) ==> select_numbers(rs).highest_mod_seq
            == no_numbers().highest_mod_seq,
        forall|i: int|
            0 <= i < rs.len() && (#[trigger] rs[i] matches ServerResponse::Data { code: Some(StatusCode::HighestModSeq(_)), .. }) && (forall|j: int|
                i < j < rs.len() ==> !(#[trigger] rs[j] matches ServerResponse::Data { code: Some(StatusCode::HighestModSeq(_)), .. })) ==> select_numbers(rs).highest_mod_seq == Some(rs[i]->Data_code->Some_0->HighestModSeq_0),
    decreases rs.len(),
{
    if rs.len() > 0 {
        let init = rs.drop_last();
        lemma_select_sets_highest_mod_seq(init);
        assert forall|i: int|
            0 <= i < rs.len() && (#[trigger] rs[i] matches ServerResponse::Data { code: Some(StatusCode::HighestModSeq(_)), .. }) && (forall|j: int|
                i < j < rs.len() ==> !(#[trigger] rs[j] matches ServerResponse::Data { code: Some(StatusCode::HighestModSeq(_)), .. })) implies select_numbers(rs).highest_mod_seq == Some(rs[i]->Data_code->Some_0->HighestModSeq_0) by {
            if i < rs.len() - 1 {
                assert(!(rs[rs.len() - 1] matches ServerResponse::Data { code: Some(StatusCode::HighestModSeq(_)), .. }));
                assert(init[i] == rs[i]);
                assert forall|j: int| i < j < init.len() implies !(#[trigger] init[j] matches ServerResponse::Data { code: Some(StatusCode::HighestModSeq(_)), .. }) by {
                    assert(init[j] == rs[j]);
                }
            }
        }
        if forall|j: int| 0 <= j < rs.len() ==> !(#[trigger] rs[j] matches ServerResponse::Data { code: Some(StatusCode::HighestModSeq(_)), .. }) {
            assert(!(rs[rs.len() - 1] matches ServerResponse::Data { code: Some(StatusCode::HighestModSeq(_)), .. }));
            assert forall|j: int| 0 <= j < init.len() implies !(#[trigger] init[j] matches ServerResponse::Data { code: Some(StatusCode::HighestModSeq(_)), .. }) by {
                assert(init[j] == rs[j]);
            }
        }
    }
}

/// A `SELECT` reply sets the `uid_validity` field from an untagged status response with a `UIDVALIDITY` code: the value of the last such response;
/// where there is none, the field keeps its default.
pub proof fn lemma_select_sets_uid_validity(rs: Seq<ServerResponse>)
    ensures
        (forall|j: int| 0 <= j < rs.len() ==> !(#[trigger] rs[j] matches ServerResponse::Data { code: Some(StatusCode::UidValidity(_)), .. })) ==> select_numbers(rs).uid_validity
            == no_numbers().uid_validity,
        forall|i: int|
            0 <= i < rs.len() && (#[trigger] rs[i] matches ServerResponse::Data { code: Some(StatusCode::UidValidity(_)), .. }) && (forall|j: int|
                i < j < rs.len() ==> !(#[trigger] rs[j] matches ServerResponse::Data { code: Some(StatusCode::UidValidity(_)), .. })) ==> select_numbers(rs).uid_validity == Some(rs[i]->Data_code->Some_0->UidValidity_0),
    decreases rs.len(),
{
    if rs.len() > 0 {
        let init = rs.drop_last();
        lemma_select_sets_uid_validity(init);
        assert forall|i: int|
            0 <= i < rs.len() && (#[trigger] rs[i] matches ServerResponse::Data { code: Some(StatusCode::UidValidity(_)), .. }) && (forall|j: int|
                i < j < rs.len() ==> !(#[trigger] rs[j] matches ServerResponse::Data { code: Some(StatusCode::UidValidity(_)), .. })) implies select_numbers(rs).uid_validity == Some(rs[i]->Data_code->Some_0->UidValidity_0) by {
            if i < rs.len() - 1 {
                assert(!(rs[rs.len() - 1] matches ServerResponse::Data { code: Some(StatusCode::UidValidity(_)), .. }));
                assert(init[i] == rs[i]);
                assert forall|j: int| i < j < init.len() implies !(#[trigger] init[j] matches ServerResponse::Data { code: Some(StatusCode::UidValidity(_)), .. }) by {
                    assert(init[j] == rs[j]);
                }
            }
        }
        if forall|j: int| 0 <= j < rs.len() ==> !(#[trigger] rs[j] matches ServerResponse::Data { code: Some(StatusCode::UidValidity(_)), .. }) {
            assert(!(rs[rs.len() - 1] matches ServerResponse::Data { code: Some(StatusCode::UidValidity(_)), .. }));
            assert forall|j: int| 0 <= j < init.len() implies !(#[trigger] init[j] matches ServerResponse::Data { code: Some(StatusCode::UidValidity(_)), .. }) by {
                assert(init[j] == rs[j]);
            }
        }
    }
}

/// A `SELECT` reply sets the `uid_next` field from an untagged status response with a `UIDNEXT` code: the value of the last such response;
/// where there is none, the field keeps its default.
pub proof fn lemma_select_sets_uid_next(rs: Seq<ServerResponse>)
    ensures
        (forall|j: int| 0 <= j < rs.len() ==> !(#[trigger] rs[j] matches ServerResponse::Data { code: Some(StatusCode::UidNext(_)), .. })) ==> select_numbers(rs).uid_next
            == no_numbers().uid_next,
        forall|i: int|
            0 <= i < rs.len() && (#[trigger] rs[i] matches ServerResponse::Data { code: Some(StatusCode::UidNext(_)), .. }) && (forall|j: int|
                i < j < rs.len() ==> !(#[trigger] rs[j] matches ServerResponse::Data { code: Some(StatusCode::UidNext(_)), .. })) ==> select_numbers(rs).uid_next == Some(rs[i]->Data_code->Some_0->UidNext_0),
    decreases rs.len(),
{
    if rs.len() > 0 {
        let init = rs.drop_last();
        lemma_select_sets_uid_next(init);
        assert forall|i: int|
            0 <= i < rs.len() && (#[trigger] rs[i] matches ServerResponse::Data { code: Some(StatusCode::UidNext(_)), .. }) && (forall|j: int|
                i < j < rs.len() ==> !(#[trigger] rs[j] matches ServerResponse::Data { code: Some(StatusCode::UidNext(_)), .. })) implies select_numbers(rs).uid_next == Some(rs[i]->Data_code->Some_0->UidNext_0) by {
            if i < rs.len() - 1 {
                assert(!(rs[rs.len() - 1] matches ServerResponse::Data { code: Some(StatusCode::UidNext(_)), .. }));
                assert(init[i] == rs[i]);
                assert forall|j: int| i < j < init.len() implies !(#[trigger] init[j] matches ServerResponse::Data { code: Some(StatusCode::UidNext(_)), .. }) by {
                    assert(init[j] == rs[j]);
                }
            }
        }
        if forall|j: int| 0 <= j < rs.len() ==> !(#[trigger] rs[j] matches ServerResponse::Data { code: Some(StatusCode::UidNext(_)), .. }) {
            assert(!(rs[rs.len() - 1] matches ServerResponse::Data { code: Some(StatusCode::UidNext(_)), .. }));
            assert forall|j: int| 0 <= j < init.len() implies !(#[trigger] init[j] matches ServerResponse::Data { code: Some(StatusCode::UidNext(_)), .. }) by {
                assert(init[j] == rs[j]);
            }
        }
    }
}

/// A `SELECT` reply sets the `unseen` field from an untagged status response with an `UNSEEN` code: the value of the last such response;
/// where there is none, the field keeps its default.
pub proof fn lemma_select_sets_unseen(rs: Seq<ServerResponse>)
    ensures
        (forall|j: int| 0 <= j < rs.len() ==> !(#[trigger] rs[j] matches ServerResponse::Data { code: Some(StatusCode::Unseen(_)), .. })) ==> select_numbers(rs).unseen
            == no_numbers().unseen,
        forall|i: int|
            0 <= i < rs.len() && (#[trigger] rs[i] matches ServerResponse::Data { code: Some(StatusCode::Unseen(_)), .. }) && (forall|j: int|
                i < j < rs.len() ==> !(#[trigger] rs[j] matches ServerResponse::Data { code: Some(StatusCode::Unseen(_)), .. })) ==> select_numbers(rs).unseen == Some(rs[i]->Data_code->Some_0->Unseen_0),
    decreases rs.len(),
{
    if rs.len() > 0 {
        let init = rs.drop_last();
        lemma_select_sets_unseen(init);
        assert forall|i: int|
            0 <= i < rs.len() && (#[trigger] rs[i] matches ServerResponse::Data { code: Some(StatusCode::Unseen(_)), .. }) && (forall|j: int|
                i < j < rs.len() ==> !(#[trigger] rs[j] matches ServerResponse::Data { code: Some(StatusCode::Unseen(_)), .. })) implies select_numbers(rs).unseen == Some(rs[i]->Data_code->Some_0->Unseen_0) by {
            if i < rs.len() - 1 {
                assert(!(rs[rs.len() - 1] matches ServerResponse::Data { code: Some(StatusCode::Unseen(_)), .. }));
                assert(init[i] == rs[i]);
                assert forall|j: int| i < j < init.len() implies !(#[trigger] init[j] matches ServerResponse::Data { code: Some(StatusCode::Unseen(_)), .. }) by {
                    assert(init[j] == rs[j]);
                }
            }
        }
        if forall|j: int| 0 <= j < rs.len() ==> !(#[trigger] rs[j] matches ServerResponse::Data { code: Some(StatusCode::Unseen(_)), .. }) {
            assert(!(rs[rs.len() - 1] matches ServerResponse::Data { code: Some(StatusCode::Unseen(_)), .. }));
            assert forall|j: int| 0 <= j < init.len() implies !(#[trigger] init[j] matches ServerResponse::Data { code: Some(StatusCode::Unseen(_)), .. }) by {
                assert(init[j] == rs[j]);
            }
        }
    }
}

/// A `SELECT` reply sets the `exists` field from `EXISTS` data: the value of the last such response;
/// where there is none, the field keeps its default.
pub proof fn lemma_select_sets_exists(rs: Seq<ServerResponse>)
    ensures
        (forall|j: int| 0 <= j < rs.len() ==> !(#[trigger] rs[j] matches ServerResponse::MailboxData(MailboxData::Exists(_)))) ==> select_numbers(rs).exists
            == no_numbers().exists,
        forall|i: int|
            0 <= i < rs.len() && (#[trigger] rs[i] matches ServerResponse::MailboxData(MailboxData::Exists(_))) && (forall|j: int|
                i < j < rs.len() ==> !(#[trigger] rs[j] matches ServerResponse::MailboxData(MailboxData::Exists(_)))) ==> select_numbers(rs).exists == rs[i]->MailboxData_0->Exists_0,
    decreases rs.len(),
{
    if rs.len() > 0 {
        let init = rs.drop_last();
        lemma_select_sets_exists(init);
        assert forall|i: int|
            0 <= i < rs.len() && (#[trigger] rs[i] matches ServerResponse::MailboxData(MailboxData::Exists(_))) && (forall|j: int|
                i < j < rs.len() ==> !(#[trigger] rs[j] matches ServerResponse::MailboxData(MailboxData::Exists(_)))) implies select_numbers(rs).exists == rs[i]->MailboxData_0->Exists_0 by {
            if i < rs.len() - 1 {
                assert(!(rs[rs.len() - 1] matches ServerResponse::MailboxData(MailboxData::Exists(_))));
                assert(init[i] == rs[i]);
                assert forall|j: int| i < j < init.len() implies !(#[trigger] init[j] matches ServerResponse::MailboxData(MailboxData::Exists(_))) by {
                    assert(init[j] == rs[j]);
                }
            }
        }
        if forall|j: int| 0 <= j < rs.len() ==> !(#[trigger] rs[j] matches ServerResponse::MailboxData(MailboxData::Exists(_))) {
            assert(!(rs[rs.len() - 1] matches ServerResponse::MailboxData(MailboxData::Exists(_))));
            assert forall|j: int| 0 <= j < init.len() implies !(#[trigger] init[j] matches ServerResponse::MailboxData(MailboxData::Exists(_))) by {
                assert(init[j] == rs[j]);
            }
        }
    }
}

/// A `SELECT` reply sets the `recent` field from `RECENT` data: the value of the last such response;
/// where there is none, the field keeps its default.
pub proof fn lemma_select_sets_recent(rs: Seq<ServerResponse>)
    ensures
        (forall|j: int| 0 <= j < rs.len() ==> !(#[trigger] rs[j] matches ServerResponse::MailboxData(MailboxData::Recent(_)))) ==> select_numbers(rs).recent
            == no_numbers().recent,
        forall|i: int|
            0 <= i < rs.len() && (#[trigger] rs[i] matches ServerResponse::MailboxData(MailboxData::Recent(_))) && (forall|j: int|
                i < j < rs.len() ==> !(#[trigger] rs[j] matches ServerResponse::MailboxData(MailboxData::Recent(_)))) ==> select_numbers(rs).recent == rs[i]->MailboxData_0->Recent_0,
    decreases rs.len(),
{
    if rs.len() > 0 {
        let init = rs.drop_last();
        lemma_select_sets_recent(init);
        assert forall|i: int|
            0 <= i < rs.len() && (#[trigger] rs[i] matches ServerResponse::MailboxData(MailboxData::Recent(_))) && (forall|j: int|
                i < j < rs.len() ==> !(#[trigger] rs[j] matches ServerResponse::MailboxData(MailboxData::Recent(_)))) implies select_numbers(rs).recent == rs[i]->MailboxData_0->Recent_0 by {
            if i < rs.len() - 1 {
                assert(!(rs[rs.len() - 1] matches ServerResponse::MailboxData(MailboxData::Recent(_))));
                assert(init[i] == rs[i]);
                assert forall|j: int| i < j < init.len() implies !(#[trigger] init[j] matches ServerResponse::MailboxData(MailboxData::Recent(_))) by {
                    assert(init[j] == rs[j]);
                }
            }
        }
        if forall|j: int| 0 <= j < rs.len() ==> !(#[trigger] rs[j] matches ServerResponse::MailboxData(MailboxData::Recent(_))) {
            assert(!(rs[rs.len() - 1] matches ServerResponse::MailboxData(MailboxData::Recent(_))));
            assert forall|j: int| 0 <= j < init.len() implies !(#[trigger] init[j] matches ServerResponse::MailboxData(MailboxData::Recent(_))) by {
                assert(init[j] == rs[j]);
            }
        }
    }
}

/// The texts of the `FLAGS` data of `rs`, in order.
pub open spec fn flag_texts(rs: Seq<ServerResponse>) -> Seq<String>
    decreases rs.len(),
{
    if rs.len() == 0 {
        seq![]
    } else {
        match rs.last() {
            ServerResponse::MailboxData(MailboxData::Flags(ss)) => flag_texts(rs.drop_last()) + ss@,
            _ => flag_texts(rs.drop_last()),
        }
    }
}

/// The texts of the `PERMANENTFLAGS` codes of the untagged status responses of `rs`, in order.
pub open spec fn permanent_flag_texts(rs: Seq<ServerResponse>) -> Seq<String>
    decreases rs.len(),
{
    if rs.len() == 0 {
        seq![]
    } else {
        match rs.last() {
            ServerResponse::Data { code: Some(StatusCode::PermanentFlags(ss)), .. } =>
                permanent_flag_texts(rs.drop_last()) + ss@,
            _ => permanent_flag_texts(rs.drop_last()),
        }
    }
}

/// Whether a tagged response of `rs` carries the `READ-ONLY` code.
pub open spec fn has_read_only_done(rs: Seq<ServerResponse>) -> bool
    decreases rs.len(),
{
    if rs.len() == 0 {
        false
    } else {
        has_read_only_done(rs.drop_last()) || rs.last() matches ServerResponse::Done {
            code: Some(StatusCode::ReadOnly),
            ..
        }
    }
}

/// Whether `m` is the mailbox that the `SELECT` reply `rs` describes.
pub open spec fn is_mailbox_of(m: Mailbox, rs: Seq<ServerResponse>) -> bool {
    &&& numbers_of(m) == select_numbers(rs)
    &&& are_flags_of(m.flags@, flag_texts(rs))
    &&& are_flags_of(m.permanent_flags@, permanent_flag_texts(rs))
    &&& m.is_read_only == has_read_only_done(rs)
}

/// Whether the `k`-th response of a `SELECT` reply is one that a reader can go through: an
/// untagged status response must be `OK`, and a tagged response must be `OK` and end the reply.
pub open spec fn select_response_ok(rs: Seq<ServerResponse>, tail: Option<Seq<u8>>, k: int) -> bool {
    match rs[k] {
        ServerResponse::Done { status, .. } => status == ResponseStatus::Okay && k == rs.len() - 1
            && tail is None,
        ServerResponse::Data { status, .. } => status == ResponseStatus::Okay,
        _ => true,
    }
}

/// Whether every response of the `SELECT` reply `input` that a reader goes through is one it can
/// go through ([`select_response_ok`]).
pub open spec fn mailbox_reply_ok(input: Seq<u8>) -> bool {
    let (rs, tail) = split_spec(input);
    forall|k: int|
        0 <= k < read_len(rs, takes_mailbox_data(), passes_status_and_expunge())
            ==> #[trigger] select_response_ok(rs, tail, k)
}

/// Flags of two lists of texts, one after the other, are the flags of the joined list.
pub(crate) proof fn lemma_flags_concat(a: Seq<Flag>, s: Seq<String>, b: Seq<Flag>, t: Seq<String>)
    requires
        are_flags_of(a, s),
        are_flags_of(b, t),
    ensures
        are_flags_of(a + b, s + t),
{
    assert forall|i: int| 0 <= i < (a + b).len() implies #[trigger] is_flag_of((a + b)[i], (s + t)[i]@) by {
        if i < a.len() {
            assert(is_flag_of(a[i], s[i]@));
        } else {
            assert(is_flag_of(b[i - a.len()], t[i - a.len()]@));
        }
    }
}

/// A reader of `rs` that has gone through the first `i` responses has not met an unexpected one
/// when the `i`-th is not unexpected either, so it goes through more than `i`.
proof fn lemma_read_len_past(
    rs: Seq<ServerResponse>,
    wanted: spec_fn(ServerResponse) -> bool,
    passed: spec_fn(ServerResponse) -> bool,
    i: int,
)
    requires
        0 <= i < rs.len(),
        none_unexpected(rs.take(i), wanted, passed),
        !is_unexpected(rs[i], wanted, passed),
    ensures
        read_len(rs, wanted, passed) > i,
{
    if exists|k: int| first_unexpected_at(rs, wanted, passed, k) {
        let k = choose|k: int| first_unexpected_at(rs, wanted, passed, k);
        if k < i {
            assert(rs.take(i)[k] == rs[k]);
        } else if k > i {
        } else {
        }
    }
}

/// Whether `res` and the queue `new` are what reading the `SELECT` reply `input` gives, with
/// `old` as the queue before: the mailbox that the responses describe ([`is_mailbox_of`]);
/// `STATUS` and `EXPUNGE` responses are passed on as unsolicited. An empty reply is invalid.
pub open spec fn reads_mailbox(
    res: Result<Mailbox>,
    input: Seq<u8>,
    new: Seq<UnsolicitedResponse>,
    old: Seq<UnsolicitedResponse>,
) -> bool {
    &&& input.len() == 0 ==> ((res matches Err(Error::Parse(ParseError::Invalid(b))) && b@ == input)
        && new == old)
    &&& input.len() > 0 ==> read_result(res, input, takes_mailbox_data(), passes_status_and_expunge())
        && passes_on(new, old, input, takes_mailbox_data(), passes_status_and_expunge())
    &&& res matches Ok(m) ==> is_mailbox_of(m, split_spec(input).0)
}

/// Reads the reply to `SELECT` or `EXAMINE` ([`reads_mailbox`]).
///
/// The reply must not hold, before the first unexpected response, an untagged status response
/// other than `OK`, nor a tagged one other than a final `OK` ([`mailbox_reply_ok`]).
pub fn parse_mailbox(lines: &[u8], unsolicited: &mut VecDeque<UnsolicitedResponse>) -> (res: Result<
    Mailbox,
>)
    requires
        mailbox_reply_ok(lines@),
    ensures
        reads_mailbox(res, lines@, final(unsolicited)@, old(unsolicited)@),
{
    if lines.len() == 0 {
        let empty: Vec<u8> = Vec::new();
        assert(empty@ =~= lines@);
        return Err(Error::Parse(ParseError::Invalid(empty)));
    }
    let ghost wanted = takes_mailbox_data();
    let ghost passed = passes_status_and_expunge();
    let (rs, tail) = split_responses(lines);
    let ghost all = rs@;
    let ghost old_q = unsolicited@;
    let mut mailbox = Mailbox::default();
    proof {
        assert(all.take(0) =~= Seq::<ServerResponse>::empty());
        assert(unsolicited@.skip(old_q.len() as int) =~= Seq::<UnsolicitedResponse>::empty());
        assert(unsolicited@.take(old_q.len() as int) =~= old_q);
        assert(mailbox.flags@ =~= Seq::<Flag>::empty());
        assert(mailbox.permanent_flags@ =~= Seq::<Flag>::empty());
    }
    for r in it: rs
        invariant
            it.seq() == all,
            all == split_spec(lines@).0,
            wanted == takes_mailbox_data(),
            passed == passes_status_and_expunge(),
            old_q == old(unsolicited)@,
            none_unexpected(all.take(it.index() as int), wanted, passed),
            unsolicited@.len() >= old_q.len(),
            unsolicited@.take(old_q.len() as int) == old_q,
            reports(unsolicited@.skip(old_q.len() as int), all.take(it.index() as int), wanted, passed),
            is_mailbox_of(mailbox, all.take(it.index() as int)),
    {
        let ghost i = it.index() as int;
        let ghost q = unsolicited@;
        let ghost before = mailbox;
        proof {
            assert(all.take(i + 1).drop_last() == all.take(i));
            assert(all.take(i + 1).last() == all[i]);
        }
        let passes = match &r {
            ServerResponse::MailboxData(MailboxData::Status { .. }) => true,
            ServerResponse::Expunge(_) => true,
            _ => false,
        };
        if passes {
            match try_handle_unilateral(r, unsolicited) {
                Some(resp) => {
                    proof {
                        assert(false);
                    }
                    return Err(Error::Unexpected(resp));
                },
                None => {
                    proof {
                        lemma_skip_push(old_q, q, unsolicited@.last());
                        assert(q.push(unsolicited@.last()) == unsolicited@);
                        lemma_step(all, wanted, passed, i, q.skip(old_q.len() as int), unsolicited@.skip(old_q.len() as int));
                    }
                },
            }
        } else {
            match r {
                ServerResponse::Done { code, .. } => {
                    match code {
                        Some(StatusCode::ReadOnly) => {
                            mailbox.is_read_only = true;
                        },
                        _ => {},
                    }
                },
                ServerResponse::Data { code, .. } => {
                    match code {
                        Some(StatusCode::HighestModSeq(v)) => {
                            mailbox.highest_mod_seq = Some(v);
                        },
                        Some(StatusCode::UidValidity(v)) => {
                            mailbox.uid_validity = Some(v);
                        },
                        Some(StatusCode::UidNext(v)) => {
                            mailbox.uid_next = Some(v);
                        },
                        Some(StatusCode::Unseen(v)) => {
                            mailbox.unseen = Some(v);
                        },
                        Some(StatusCode::PermanentFlags(ss)) => {
                            let ghost texts = ss@;
                            let mut fs = Flag::from_strs(ss);
                            let ghost added = fs@;
                            mailbox.permanent_flags.append(&mut fs);
                            proof {
                                lemma_flags_concat(before.permanent_flags@, permanent_flag_texts(all.take(i)), added, texts);
                            }
                        },
                        _ => {},
                    }
                },
                ServerResponse::MailboxData(MailboxData::Exists(v)) => {
                    mailbox.exists = v;
                },
                ServerResponse::MailboxData(MailboxData::Recent(v)) => {
                    mailbox.recent = v;
                },
                ServerResponse::MailboxData(MailboxData::Flags(ss)) => {
                    let ghost texts = ss@;
                    let mut fs = Flag::from_strs(ss);
                    let ghost added = fs@;
                    mailbox.flags.append(&mut fs);
                    proof {
                        lemma_flags_concat(before.flags@, flag_texts(all.take(i)), added, texts);
                    }
                },
                ServerResponse::MailboxData(_) => {},
                other => {
                    proof {
                        assert(first_unexpected_at(all, wanted, passed, i));
                        lemma_read_len_at(all, wanted, passed, i);
                    }
                    return Err(Error::Unexpected(other));
                },
            }
            proof {
                lemma_step(all, wanted, passed, i, q.skip(old_q.len() as int), q.skip(old_q.len() as int));
            }
        }
    }
    proof {
        assert(all.take(all.len() as int) == all);
        lemma_read_len_all(all, wanted, passed);
    }
    match tail {
        Some(b) => Err(Error::Parse(ParseError::Invalid(b))),
        None => Ok(mailbox),
    }
}


/// One more response that is not unexpected keeps a prefix free of unexpected responses.
proof fn lemma_none_unexpected_step(
    rs: Seq<ServerResponse>,
    wanted: spec_fn(ServerResponse) -> bool,
    passed: spec_fn(ServerResponse) -> bool,
    i: int,
)
    requires
        0 <= i < rs.len(),
        none_unexpected(rs.take(i), wanted, passed),
        !is_unexpected(rs[i], wanted, passed),
    ensures
        none_unexpected(rs.take(i + 1), wanted, passed),
{
    assert forall|j: int| 0 <= j < i + 1 implies !#[trigger] is_unexpected(rs.take(i + 1)[j], wanted, passed) by {
        if j < i {
            assert(rs.take(i + 1)[j] == rs.take(i)[j]);
        }
    }
}

/// Whether [`parse_mailbox`] can read the reply `lines` ([`mailbox_reply_ok`]).
pub fn mailbox_reply_is_ok(lines: &[u8]) -> (b: bool)
    ensures
        b == mailbox_reply_ok(lines@),
{
    let ghost wanted = takes_mailbox_data();
    let ghost passed = passes_status_and_expunge();
    let (rs, tail) = split_responses(lines);
    let ghost all = rs@;
    let ghost t = split_spec(lines@).1;
    let n = rs.len();
    let mut i: usize = 0;
    proof {
        assert(all.take(0) =~= Seq::<ServerResponse>::empty());
    }
    while i < n
        invariant
            0 <= i <= n,
            n == all.len(),
            all == rs@,
            all == split_spec(lines@).0,
            t == split_spec(lines@).1,
            tail is None <==> t is None,
            wanted == takes_mailbox_data(),
            passed == passes_status_and_expunge(),
            none_unexpected(all.take(i as int), wanted, passed),
            forall|k: int| 0 <= k < i ==> #[trigger] select_response_ok(all, t, k),
        decreases n - i,
    {
        let r = &rs[i];
        let expected = match r {
            ServerResponse::Done { .. } => true,
            ServerResponse::Data { .. } => true,
            ServerResponse::MailboxData(_) => true,
            ServerResponse::Expunge(_) => true,
            _ => false,
        };
        if !expected {
            proof {
                assert(first_unexpected_at(all, wanted, passed, i as int));
                lemma_read_len_at(all, wanted, passed, i as int);
            }
            return true;
        }
        let ok = match r {
            ServerResponse::Done { status, .. } => matches!(status, ResponseStatus::Okay) && i == n - 1
                && tail.is_none(),
            ServerResponse::Data { status, .. } => matches!(status, ResponseStatus::Okay),
            _ => true,
        };
        proof {
            lemma_read_len_past(all, wanted, passed, i as int);
        }
        if !ok {
            assert(!select_response_ok(all, t, i as int));
            return false;
        }
        proof {
            lemma_none_unexpected_step(all, wanted, passed, i as int);
        }
        i = i + 1;
    }
    proof {
        assert(all.take(all.len() as int) == all);
        lemma_read_len_all(all, wanted, passed);
    }
    true
}

/// Reads the reply to `SELECT` or `EXAMINE` where [`parse_mailbox`] can read it, and returns
/// `None`, with the queue unchanged, where it cannot ([`mailbox_reply_ok`]).
pub fn parse_mailbox_checked(
    lines: &[u8],
    unsolicited: &mut VecDeque<UnsolicitedResponse>,
) -> (res: Option<Result<Mailbox>>)
    ensures
        !mailbox_reply_ok(lines@) ==> res is None && final(unsolicited)@ == old(unsolicited)@,
        mailbox_reply_ok(lines@) ==> (res matches Some(r) && reads_mailbox(
            r,
            lines@,
            final(unsolicited)@,
            old(unsolicited)@,
        )),
{
    if mailbox_reply_is_ok(lines) {
        Some(parse_mailbox(lines, unsolicited))
    } else {
        None
    }
}


/// Reads a reply of which the reader takes the responses that `wanted` accepts, as `takes`
/// decides them: the taken responses are returned in order, and every other response is passed
/// on as unsolicited.
pub(crate) fn parse_many_into<F: Fn(&ServerResponse) -> bool>(
    input: &[u8],
    unsolicited: &mut VecDeque<UnsolicitedResponse>,
    wanted: Ghost<spec_fn(ServerResponse) -> bool>,
    takes: F,
) -> (res: Result<Vec<ServerResponse>>)
    requires
        forall|r: ServerResponse| #[trigger] takes.requires((&r,)),
        forall|r: ServerResponse, b: bool| #[trigger] takes.ensures((&r,), b) ==> b == wanted@(r),
    ensures
        read_result(res, input@, wanted@, unilateral()),
        passes_on(final(unsolicited)@, old(unsolicited)@, input@, wanted@, unilateral()),
        res matches Ok(v) ==> v@ == split_spec(input@).0.filter(wanted@),
{
    let ghost passed = unilateral();
    let (rs, tail) = split_responses(input);
    let ghost all = rs@;
    let ghost old_q = unsolicited@;
    let mut out: Vec<ServerResponse> = Vec::new();
    proof {
        assert(all.take(0) =~= Seq::<ServerResponse>::empty());
        assert(unsolicited@.skip(old_q.len() as int) =~= Seq::<UnsolicitedResponse>::empty());
        assert(unsolicited@.take(old_q.len() as int) =~= old_q);
    }
    for r in it: rs
        invariant
            it.seq() == all,
            all == split_spec(input@).0,
            passed == unilateral(),
            old_q == old(unsolicited)@,
            forall|r: ServerResponse| #[trigger] takes.requires((&r,)),
            forall|r: ServerResponse, b: bool| #[trigger] takes.ensures((&r,), b) ==> b == wanted@(r),
            none_unexpected(all.take(it.index() as int), wanted@, passed),
            unsolicited@.len() >= old_q.len(),
            unsolicited@.take(old_q.len() as int) == old_q,
            reports(unsolicited@.skip(old_q.len() as int), all.take(it.index() as int), wanted@, passed),
            out@ == all.take(it.index() as int).filter(wanted@),
    {
        let ghost i = it.index() as int;
        let ghost q = unsolicited@;
        proof {
            assert(all.take(i + 1).drop_last() == all.take(i));
            assert(all.take(i + 1).last() == all[i]);
            reveal(Seq::filter);
        }
        if takes(&r) {
            out.push(r);
            proof {
                lemma_step(all, wanted@, passed, i, q.skip(old_q.len() as int), q.skip(old_q.len() as int));
            }
        } else {
            match try_handle_unilateral(r, unsolicited) {
                Some(resp) => {
                    proof {
                        assert(first_unexpected_at(all, wanted@, passed, i));
                        lemma_read_len_at(all, wanted@, passed, i);
                    }
                    return Err(Error::Unexpected(resp));
                },
                None => {
                    proof {
                        lemma_skip_push(old_q, q, unsolicited@.last());
                        assert(q.push(unsolicited@.last()) == unsolicited@);
                        lemma_step(all, wanted@, passed, i, q.skip(old_q.len() as int), unsolicited@.skip(old_q.len() as int));
                    }
                },
            }
        }
    }
    proof {
        assert(all.take(all.len() as int) == all);
        lemma_read_len_all(all, wanted@, passed);
    }
    match tail {
        Some(b) => Err(Error::Parse(ParseError::Invalid(b))),
        None => Ok(out),
    }
}

/// Mapping the responses that `wanted` accepts with `f` gives what mapping all of them does,
/// when `f` maps no other response to a value.
pub proof fn lemma_filter_then_map<B>(
    rs: Seq<ServerResponse>,
    wanted: spec_fn(ServerResponse) -> bool,
    f: spec_fn(ServerResponse) -> Option<B>,
)
    requires
        forall|r: ServerResponse| #[trigger] f(r) is Some ==> wanted(r),
    ensures
        rs.filter(wanted).filter_map(f) == rs.filter_map(f),
    decreases rs.len(),
{
    reveal(Seq::filter);
    if rs.len() > 0 {
        lemma_filter_then_map(rs.drop_last(), wanted, f);
        let sub = rs.drop_last().filter(wanted);
        if wanted(rs.last()) {
            assert(rs.filter(wanted).drop_last() == sub);
            assert(rs.filter(wanted).last() == rs.last());
        } else {
            assert(rs.filter(wanted) == sub);
        }
    } else {
        assert(rs.filter(wanted) == rs);
    }
}


/// Reads a reply that should hold exactly one response that the reader takes, as `takes`
/// decides it ([`parse_many_into`]): that response, or, where there are none or more than one,
/// the whole reply as invalid.
pub(crate) fn parse_until_done<F: Fn(&ServerResponse) -> bool>(
    input: &[u8],
    unsolicited: &mut VecDeque<UnsolicitedResponse>,
    wanted: Ghost<spec_fn(ServerResponse) -> bool>,
    takes: F,
) -> (res: Result<ServerResponse>)
    requires
        forall|r: ServerResponse| #[trigger] takes.requires((&r,)),
        forall|r: ServerResponse, b: bool| #[trigger] takes.ensures((&r,), b) ==> b == wanted@(r),
    ensures
        passes_on(final(unsolicited)@, old(unsolicited)@, input@, wanted@, unilateral()),
        reads_one(res, input@, wanted@),
{
    let mut taken = match parse_many_into(input, unsolicited, wanted, takes) {
        Ok(t) => t,
        Err(e) => {
            proof {
                let rs = split_spec(input@).0;
                if e matches Error::Unexpected(_) {
                    let k = choose|k: int| first_unexpected_at(rs, wanted@, unilateral(), k) && Error::Unexpected(rs[k]) == e;
                    assert(is_unexpected(rs[k], wanted@, unilateral()));
                }
            }
            return Err(e);
        },
    };
    if taken.len() == 1 {
        let r = taken.remove(0);
        assert(split_spec(input@).0.filter(wanted@) =~= seq![r]);
        Ok(r)
    } else {
        Err(Error::Parse(ParseError::Invalid(vstd::slice::slice_to_vec(input))))
    }
}

/// Whether a reader of `input` that wants exactly one response that `wanted` accepts reads it
/// without error.
pub open spec fn reads_one_ok(input: Seq<u8>, wanted: spec_fn(ServerResponse) -> bool) -> bool {
    let (rs, tail) = split_spec(input);
    &&& none_unexpected(rs, wanted, unilateral())
    &&& tail is None
    &&& rs.filter(wanted).len() == 1
}

/// Whether `res` is what a reader of `input` that wants exactly one response that `wanted`
/// accepts ends with: the reading errors of [`read_result`]; otherwise that response if there
/// is exactly one, else the whole reply as invalid.
pub open spec fn reads_one(res: Result<ServerResponse>, input: Seq<u8>, wanted: spec_fn(ServerResponse) -> bool) -> bool {
    let (rs, tail) = split_spec(input);
    let read_ok = none_unexpected(rs, wanted, unilateral()) && tail is None;
    match res {
        Ok(r) => read_ok && rs.filter(wanted) == seq![r],
        Err(Error::Parse(ParseError::Invalid(b))) => if read_ok {
            rs.filter(wanted).len() != 1 && b@ == input
        } else {
            read_result(res, input, wanted, unilateral())
        },
        _ => !read_ok && read_result(res, input, wanted, unilateral()),
    }
}


/// Whether `rest` and `out` are what reading one response from `lines` while idling gives: a
/// unilateral response as what it reports, any other response as unexpected, each with the
/// bytes after it; nothing, with all the bytes, when the response is incomplete; and all the
/// bytes as invalid when they do not start with a response.
pub open spec fn idle_outcome(lines: Seq<u8>, rest: Seq<u8>, out: Option<Result<UnsolicitedResponse>>) -> bool {
    match imap_line(lines) {
        Line::Parsed { rest_len, response } => {
            &&& rest == lines.skip(lines.len() - rest_len)
            &&& match out {
                Some(Ok(u)) => is_unilateral(response) && is_unsolicited_of(u, response),
                Some(Err(Error::Unexpected(r))) => !is_unilateral(response) && r == response,
                _ => false,
            }
        },
        Line::Incomplete => rest == lines && out is None,
        Line::Invalid => rest == lines && (out matches Some(Err(Error::Parse(ParseError::Invalid(v))))
            && v@ == lines),
    }
}

/// Parse a single unsolicited response from IDLE responses ([`idle_outcome`]).
pub fn parse_idle(lines: &[u8]) -> (r: (&[u8], Option<Result<UnsolicitedResponse>>))
    ensures
        idle_outcome(lines@, r.0@, r.1),
{
    match parse_line(lines) {
        Line::Parsed { rest_len, response } => {
            let rest = &lines[lines.len() - rest_len..lines.len()];
            match UnsolicitedResponse::try_from(response) {
                Ok(u) => (rest, Some(Ok(u))),
                Err(r) => (rest, Some(Err(Error::Unexpected(r)))),
            }
        },
        Line::Incomplete => (lines, None),
        Line::Invalid => (lines, Some(Err(Error::Parse(ParseError::Invalid(vstd::slice::slice_to_vec(lines)))))),
    }
}


/// The position of the first line feed of `s` at or after `i`, if any.
pub open spec fn first_newline(s: Seq<char>, i: int) -> Option<int>
    decreases s.len() - i,
{
    if i < 0 || i >= s.len() {
        None
    } else if s[i] == '\n' {
        Some(i)
    } else {
        first_newline(s, i + 1)
    }
}

/// What the pattern `^\+ (.*)\r\n` captures of `line`: after `+ ` at the start, the text up to
/// the first line feed, which must follow a carriage return.
pub open spec fn auth_data(line: Seq<char>) -> Option<Seq<char>> {
    if line.len() >= 2 && line[0] == '+' && line[1] == ' ' {
        match first_newline(line, 0) {
            Some(k) => if k >= 3 && line[k - 1] == '\r' {
                Some(line.subrange(2, k - 1))
            } else {
                None
            },
            None => None,
        }
    } else {
        None
    }
}

/// The data of a server challenge line, with `regex::Regex` and the pattern `^\+ (.*)\r\n`
/// (first match, first group). The contract states what that pattern captures: `.` does not
/// match a line feed, so the group runs from after `+ ` to the carriage return before the first
/// line feed.
#[verifier::external_body]
fn capture_auth_data(line: &str) -> (d: Option<&str>)
    ensures
        match d {
            Some(t) => auth_data(line@) == Some(t@),
            None => auth_data(line@) is None,
        },
{
    let re = regex::Regex::new("^\\+ (.*)\r\n").unwrap();
    let data = re.captures_iter(line).next().and_then(|cap| cap.get(1)).map(|m| m.as_str());
    data
}

/// The data of a server challenge line ([`auth_data`]); a line without it is an
/// authentication error that holds the line.
pub fn parse_authenticate_response(line: &str) -> (res: Result<&str>)
    ensures
        match res {
            Ok(d) => auth_data(line@) == Some(d@),
            Err(Error::Parse(ParseError::Authentication(l, None))) => auth_data(line@) is None && l@ == line@,
            Err(_) => false,
        },
{
    match capture_auth_data(line) {
        Some(d) => Ok(d),
        None => Err(Error::Parse(ParseError::Authentication(line.to_owned(), None))),
    }
}

} // verus!
