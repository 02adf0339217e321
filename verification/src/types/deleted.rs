use std::ops::RangeInclusive;
use vstd::prelude::*;

verus! {

/// The first value of an inclusive range, as `RangeInclusive::start` returns it.
pub assume_specification<Idx>[ RangeInclusive::<Idx>::start ](r: &RangeInclusive<Idx>) -> (s: &Idx)
    ensures
        *s == r@.start,
;

/// The last value of an inclusive range, as `RangeInclusive::end` returns it.
pub assume_specification<Idx>[ RangeInclusive::<Idx>::end ](r: &RangeInclusive<Idx>) -> (e: &Idx)
    ensures
        *e == r@.end,
;

/// Whether a range of `u32` holds no value, as `RangeInclusive::is_empty` tells: a range that
/// was iterated to its end, or whose start lies above its end, is empty.
#[verifier::external_body]
fn range_is_empty(r: &RangeInclusive<u32>) -> (b: bool)
    ensures
        b == (r@.exhausted || r@.start > r@.end),
{
    r.is_empty()
}

/// The values that an inclusive range of UIDs holds, in ascending order.
pub open spec fn range_ids(r: RangeInclusive<u32>) -> Seq<u32> {
    if r@.exhausted || r@.start > r@.end {
        seq![]
    } else {
        Seq::new((r@.end - r@.start + 1) as nat, |i: int| (r@.start + i) as u32)
    }
}

/// The values that a list of inclusive ranges holds, range after range.
pub open spec fn ranges_ids(rs: Seq<RangeInclusive<u32>>) -> Seq<u32>
    decreases rs.len(),
{
    if rs.len() == 0 {
        seq![]
    } else {
        ranges_ids(rs.drop_last()) + range_ids(rs.last())
    }
}

/// A struct containing message sequence numbers or UID sequence sets and a mod
/// sequence returned in response to a `EXPUNGE` command.
///
/// The `EXPUNGE` command may return several `EXPUNGE` responses referencing
/// message sequence numbers, or it may return a `VANISHED` response referencing
/// multiple UID values in a sequence set if the client has enabled
/// [QRESYNC](https://tools.ietf.org/html/rfc7162#section-3.2.7). If `QRESYNC` is
/// enabled, the server will also return the mod sequence of the completed
/// operation.
///
/// If the caller knows that they should be receiving an `EXPUNGE` or `VANISHED` response,
/// then they can use [`seqs()`](#method.seqs) to get the `EXPUNGE` message sequence numbers,
/// or [`uids()`](#method.uids) to get the `VANISHED` UIDs. As a convenience
/// [`into_iter()`](#method.into_iter) gives whatever is contained within.
#[derive(Debug, Clone)]
pub struct Deleted {
    /// The list of messages that were expunged
    pub messages: DeletedMessages,
    /// The mod sequence of the performed operation, if the `QRESYNC` extension
    /// is enabled.
    pub mod_seq: Option<u64>,
}

/// The messages that a command removed.
#[derive(Debug, Clone)]
pub enum DeletedMessages {
    /// Message sequence numbers given in an `EXPUNGE` response.
    Expunged(Vec<u32>),
    /// Message UIDs given in a `VANISHED` response.
    Vanished(Vec<RangeInclusive<u32>>),
}

impl Deleted {
    /// The sequence numbers of an `EXPUNGE` response; none for a `VANISHED` response.
    pub open spec fn spec_seqs(&self) -> Seq<u32> {
        match self.messages {
            DeletedMessages::Expunged(v) => v@,
            DeletedMessages::Vanished(_) => seq![],
        }
    }

    /// The UIDs of a `VANISHED` response, range after range; none for an `EXPUNGE` response.
    pub open spec fn spec_uids(&self) -> Seq<u32> {
        match self.messages {
            DeletedMessages::Expunged(_) => seq![],
            DeletedMessages::Vanished(v) => ranges_ids(v@),
        }
    }

    /// Construct a new `Deleted` value from a vector of message sequence
    /// numbers returned in one or more `EXPUNGE` responses.
    pub fn from_expunged(v: Vec<u32>, mod_seq: Option<u64>) -> (d: Self)
        ensures
            d.messages == DeletedMessages::Expunged(v),
            d.mod_seq == mod_seq,
    {
        Self { messages: DeletedMessages::Expunged(v), mod_seq }
    }

    /// Construct a new `Deleted` value from a sequence-set of UIDs
    /// returned in a `VANISHED` response
    pub fn from_vanished(v: Vec<RangeInclusive<u32>>, mod_seq: Option<u64>) -> (d: Self)
        ensures
            d.messages == DeletedMessages::Vanished(v),
            d.mod_seq == mod_seq,
    {
        Self { messages: DeletedMessages::Vanished(v), mod_seq }
    }

    /// The message sequence numbers from an `EXPUNGE` response. If the client is expecting
    /// sequence numbers this function can be used to ensure only sequence numbers returned in
    /// an `EXPUNGE` response are processed.
    pub fn seqs(&self) -> (s: Vec<u32>)
        ensures
            s@ == self.spec_seqs(),
    {
        match &self.messages {
            DeletedMessages::Expunged(s) => s.clone(),
            DeletedMessages::Vanished(_) => Vec::new(),
        }
    }

    /// The UIDs returned in a `VANISHED` response, each range expanded in ascending order.
    /// If the client is expecting UIDs this function can be used to ensure only UIDs are
    /// processed.
    pub fn uids(&self) -> (u: Vec<u32>)
        ensures
            u@ == self.spec_uids(),
    {
        match &self.messages {
            DeletedMessages::Expunged(_) => Vec::new(),
            DeletedMessages::Vanished(ranges) => expand_ranges(ranges),
        }
    }

    /// Whatever is contained within: the sequence numbers of an `EXPUNGE` response, or the UIDs
    /// of a `VANISHED` response.
    pub open spec fn spec_ids(&self) -> Seq<u32> {
        match self.messages {
            DeletedMessages::Expunged(_) => self.spec_seqs(),
            DeletedMessages::Vanished(_) => self.spec_uids(),
        }
    }

    /// Whatever is contained within ([`Self::spec_ids`]).
    pub fn into_iter(&self) -> (ids: Vec<u32>)
        ensures
            ids@ == self.spec_ids(),
    {
        match &self.messages {
            DeletedMessages::Expunged(_) => self.seqs(),
            DeletedMessages::Vanished(_) => self.uids(),
        }
    }

    /// Iterating over a `Deleted` gives whatever it holds, and only that: its sequence numbers
    /// followed by its UIDs, of which one or the other is empty.
    pub proof fn lemma_ids_are_seqs_or_uids(&self)
        ensures
            self.spec_ids() == self.spec_seqs() + self.spec_uids(),
            self.spec_seqs().len() == 0 || self.spec_uids().len() == 0,
    {
        match self.messages {
            DeletedMessages::Expunged(v) => assert(self.spec_seqs() + seq![] == self.spec_seqs()),
            DeletedMessages::Vanished(_) => assert(seq![] + self.spec_uids() == self.spec_uids()),
        }
    }

    /// Return if the set is empty
    pub fn is_empty(&self) -> (b: bool)
        ensures
            b == match self.messages {
                DeletedMessages::Expunged(v) => v@.len() == 0,
                DeletedMessages::Vanished(v) => v@.len() == 0,
            },
    {
        match &self.messages {
            DeletedMessages::Expunged(v) => v.len() == 0,
            DeletedMessages::Vanished(v) => v.len() == 0,
        }
    }
}

/// The values of the ranges, range after range, each in ascending order.
fn expand_ranges(ranges: &Vec<RangeInclusive<u32>>) -> (out: Vec<u32>)
    ensures
        out@ == ranges_ids(ranges@),
{
    let mut out: Vec<u32> = Vec::new();
    let mut k: usize = 0;
    while k < ranges.len()
        invariant
            k <= ranges@.len(),
            out@ == ranges_ids(ranges@.take(k as int)),
        decreases ranges@.len() - k,
    {
        let r = &ranges[k];
        let ghost before = out@;
        assert(ranges@.take(k + 1).drop_last() == ranges@.take(k as int));
        if !range_is_empty(r) {
            let s = *r.start();
            let e = *r.end();
            let mut u = s;
            loop
                invariant_except_break
                    s <= u <= e,
                    out@ == before + Seq::new((u - s) as nat, |i: int| (s + i) as u32),
                ensures
                    out@ == before + Seq::new((e - s + 1) as nat, |i: int| (s + i) as u32),
                decreases e - u,
            {
                let ghost prev = out@;
                out.push(u);
                assert(out@ == before + Seq::new((u - s + 1) as nat, |i: int| (s + i) as u32));
                if u == e {
                    break;
                }
                u = u + 1;
            }
            assert(range_ids(*r) == Seq::new((e - s + 1) as nat, |i: int| (s + i) as u32));
        } else {
            assert(range_ids(*r) == Seq::<u32>::empty());
            assert(before + Seq::<u32>::empty() == before);
        }
        k = k + 1;
    }
    assert(ranges@.take(ranges@.len() as int) == ranges@);
    out
}

} // verus!
