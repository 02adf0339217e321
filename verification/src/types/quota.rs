//! Quotas of storage resources (RFC 2087).

use crate::error::{Error, ParseError, Result};
use crate::parse::{
    first_unexpected_at, lemma_read_len_all, lemma_read_len_at, lemma_skip_push, lemma_step,
    none_unexpected, parse_many_into, passes_on, read_result, reports, split_responses, split_spec,
    takes_nothing, try_handle_unilateral, unilateral,
};
use crate::response::{QuotaData, QuotaRootData, QuotaUsage, ServerResponse};
use crate::types::UnsolicitedResponse;
use crate::utils::{decimal, push_char, push_decimal, push_str};
use std::collections::VecDeque;
use vstd::prelude::*;

verus! {

/// A limit to set on a resource.
pub struct QuotaLimit {
    /// The resource type
    pub name: QuotaLimitName,
    /// The amount for that resource
    pub amount: u64,
}

/// <https://datatracker.ietf.org/doc/html/rfc2087#section-3>
pub enum QuotaLimitName {
    /// Sum of messages' RFC822.SIZE, in units of 1024 octets
    Storage,
    /// Number of messages
    Message,
    /// Any other string (for future RFCs)
    Atom(String),
}

/// The text of a resource name: `STORAGE`, `MESSAGE`, or the atom.
pub open spec fn limit_name_text(n: QuotaLimitName) -> Seq<char> {
    match n {
        QuotaLimitName::Storage => "STORAGE"@,
        QuotaLimitName::Message => "MESSAGE"@,
        QuotaLimitName::Atom(s) => s@,
    }
}

impl QuotaLimitName {
    /// The text of this resource name ([`limit_name_text`]).
    pub fn to_string(&self) -> (s: String)
        ensures
            s@ == limit_name_text(*self),
    {
        match self {
            QuotaLimitName::Storage => "STORAGE".to_owned(),
            QuotaLimitName::Message => "MESSAGE".to_owned(),
            QuotaLimitName::Atom(s) => s.clone(),
        }
    }
}

impl QuotaLimit {
    /// The text of this limit: the resource name, a space and the amount.
    pub fn to_string(&self) -> (s: String)
        ensures
            s@ == limit_name_text(self.name) + seq![' '] + decimal(self.amount as nat),
    {
        let mut s = self.name.to_string();
        push_char(&mut s, ' ');
        push_decimal(&mut s, self.amount);
        s
    }
}

/// A `QUOTA` response: the resources of a quota root.
pub struct Quota {
    quota: QuotaData,
}

impl View for Quota {
    type V = QuotaData;

    closed spec fn view(&self) -> QuotaData {
        self.quota
    }
}

/// Whether `res` is what reading a reply for its one `QUOTA` response gives: the first
/// response that is not unilateral must be a `QUOTA` response, which is returned (what follows
/// it is not read); any other such response is unexpected; a reply without one is invalid from
/// where the responses end (empty where none).
pub open spec fn reads_quota(res: Result<Quota>, input: Seq<u8>) -> bool {
    let (rs, tail) = split_spec(input);
    match res {
        Ok(q) => exists|k: int| #[trigger] first_unexpected_at(rs, takes_nothing(), unilateral(), k)
            && rs[k] == ServerResponse::Quota(q@),
        Err(Error::Unexpected(r)) => exists|k: int| #[trigger] first_unexpected_at(rs, takes_nothing(), unilateral(), k)
            && !(rs[k] is Quota) && r == rs[k],
        Err(Error::Parse(ParseError::Invalid(b))) => none_unexpected(rs, takes_nothing(), unilateral())
            && b@ == match tail {
                Some(t) => t,
                None => seq![],
            },
        Err(_) => false,
    }
}

/// Whether a reply reads as a `QUOTA` reply without error: its first response that is not
/// unilateral is a `QUOTA` response.
pub open spec fn quota_reply_ok(input: Seq<u8>) -> bool {
    let rs = split_spec(input).0;
    exists|k: int| #[trigger] first_unexpected_at(rs, takes_nothing(), unilateral(), k) && rs[k] is Quota
}

impl Quota {
    /// Parse the reply to `GETQUOTA`: its one `QUOTA` response ([`reads_quota`]); the
    /// unilateral responses before it are passed on as unsolicited.
    pub fn parse(owned: Vec<u8>, unsolicited: &mut VecDeque<UnsolicitedResponse>) -> (res: Result<Quota>)
        ensures
            reads_quota(res, owned@),
            passes_on(final(unsolicited)@, old(unsolicited)@, owned@, takes_nothing(), unilateral()),
    {
        let ghost wanted = takes_nothing();
        let ghost passed = unilateral();
        let (rs, tail) = split_responses(owned.as_slice());
        let ghost all = rs@;
        let ghost old_q = unsolicited@;
        proof {
            assert(all.take(0) =~= Seq::<ServerResponse>::empty());
            assert(unsolicited@.skip(old_q.len() as int) =~= Seq::<UnsolicitedResponse>::empty());
            assert(unsolicited@.take(old_q.len() as int) =~= old_q);
        }
        for r in it: rs
            invariant
                it.seq() == all,
                all == split_spec(owned@).0,
                wanted == takes_nothing(),
                passed == unilateral(),
                old_q == old(unsolicited)@,
                none_unexpected(all.take(it.index() as int), wanted, passed),
                unsolicited@.len() >= old_q.len(),
                unsolicited@.take(old_q.len() as int) == old_q,
                reports(unsolicited@.skip(old_q.len() as int), all.take(it.index() as int), wanted, passed),
        {
            let ghost i = it.index() as int;
            let ghost q = unsolicited@;
            match r {
                ServerResponse::Quota(a) => {
                    proof {
                        assert(first_unexpected_at(all, wanted, passed, i));
                        lemma_read_len_at(all, wanted, passed, i);
                    }
                    return Ok(Quota { quota: a });
                },
                other => {
                    match try_handle_unilateral(other, unsolicited) {
                        Some(resp) => {
                            proof {
                                assert(first_unexpected_at(all, wanted, passed, i));
                                lemma_read_len_at(all, wanted, passed, i);
                            }
                            return Err(Error::Unexpected(resp));
                        },
                        None => {
                            proof {
                                lemma_skip_push(old_q, q, unsolicited@.last());
                                assert(q.push(unsolicited@.last()) == unsolicited@);
                                lemma_step(all, wanted, passed, i, q.skip(old_q.len() as int), unsolicited@.skip(old_q.len() as int));
                            }
                        },
                    }
                },
            }
        }
        proof {
            assert(all.take(all.len() as int) == all);
            lemma_read_len_all(all, wanted, passed);
        }
        match tail {
            Some(b) => Err(Error::Parse(ParseError::Invalid(b))),
            None => Err(Error::Parse(ParseError::Invalid(Vec::new()))),
        }
    }

    /// The name of the quota root.
    pub fn root_name(&self) -> (s: &str)
        ensures
            s@ == self@.root_name@,
    {
        self.quota.root_name.as_str()
    }

    /// The resources of the quota root, with their usage and limit.
    pub fn resources(&self) -> (r: &[QuotaUsage])
        ensures
            r@ == self@.resources@,
    {
        self.quota.resources.as_slice()
    }
}

/// Whether `r` is a `QUOTAROOT` or a `QUOTA` response.
pub open spec fn takes_quota_parts() -> spec_fn(ServerResponse) -> bool {
    |r: ServerResponse| r is QuotaRoot || r is Quota
}

/// Whether `r` is a `QUOTAROOT` or a `QUOTA` response.
fn is_quota_part(r: &ServerResponse) -> (b: bool)
    ensures
        b == takes_quota_parts()(*r),
{
    match r {
        ServerResponse::QuotaRoot(_) => true,
        ServerResponse::Quota(_) => true,
        _ => false,
    }
}

/// The data of a `QUOTAROOT` response.
pub open spec fn root_of() -> spec_fn(ServerResponse) -> Option<QuotaRootData> {
    |r: ServerResponse| match r {
        ServerResponse::QuotaRoot(d) => Some(d),
        _ => None,
    }
}

/// The data of a `QUOTA` response.
pub open spec fn quota_of() -> spec_fn(ServerResponse) -> Option<QuotaData> {
    |r: ServerResponse| match r {
        ServerResponse::Quota(d) => Some(d),
        _ => None,
    }
}

/// Whether a reply reads as a `QUOTAROOT` reply without error: nothing unexpected, nothing
/// that does not parse, and at least one `QUOTAROOT` response.
pub open spec fn quota_root_reply_ok(input: Seq<u8>) -> bool {
    &&& read_result(Ok::<(), Error>(()), input, takes_quota_parts(), unilateral())
    &&& split_spec(input).0.filter_map(root_of()).len() > 0
}

/// A `QUOTAROOT` reply: the quota roots of a mailbox and the quotas of those roots.
pub struct QuotaRoot {
    quota_root: QuotaRootData,
    quotas: Vec<QuotaData>,
}

impl View for QuotaRoot {
    type V = (QuotaRootData, Seq<QuotaData>);

    closed spec fn view(&self) -> (QuotaRootData, Seq<QuotaData>) {
        (self.quota_root, self.quotas@)
    }
}

/// The quotas of the `QUOTA` responses of `rs`, in order.
fn quotas_of(rs: Vec<ServerResponse>) -> (qs: Vec<QuotaData>)
    ensures
        qs@ == rs@.filter_map(quota_of()),
{
    let ghost all = rs@;
    let mut qs: Vec<QuotaData> = Vec::new();
    for r in it: rs
        invariant
            it.seq() == all,
            qs@ == all.take(it.index() as int).filter_map(quota_of()),
    {
        let ghost i = it.index() as int;
        proof {
            assert(all.take(i + 1).drop_last() == all.take(i));
            assert(all.take(i + 1).last() == r);
        }
        match r {
            ServerResponse::Quota(d) => {
                qs.push(d);
            },
            _ => {},
        }
    }
    proof {
        assert(all.take(all.len() as int) == all);
    }
    qs
}

impl QuotaRoot {
    /// Parse the reply to `GETQUOTAROOT`: the first of its `QUOTAROOT` responses and all its
    /// `QUOTA` responses. The reply is read twice, once for each kind of response, so its
    /// unilateral responses are passed on as unsolicited twice; a reply without a `QUOTAROOT`
    /// response is invalid as a whole.
    #[verifier::loop_isolation(false)]
    pub fn parse(owned: Vec<u8>, unsolicited: &mut VecDeque<UnsolicitedResponse>) -> (res: Result<
        QuotaRoot,
    >)
        ensures
            ({
                let rs = split_spec(owned@).0;
                match res {
                    Ok(q) => {
                        &&& read_result(res, owned@, takes_quota_parts(), unilateral())
                        &&& rs.filter_map(root_of()).len() > 0
                        &&& q@.0 == rs.filter_map(root_of())[0]
                        &&& q@.1 == rs.filter_map(quota_of())
                    },
                    Err(Error::Parse(ParseError::Invalid(b))) if read_result(
                        Ok::<(), Error>(()),
                        owned@,
                        takes_quota_parts(),
                        unilateral(),
                    ) => rs.filter_map(root_of()).len() == 0 && b@ == owned@,
                    _ => read_result(res, owned@, takes_quota_parts(), unilateral()),
                }
            }),
            read_result(Ok::<(), Error>(()), owned@, takes_quota_parts(), unilateral()) ==> exists|
                mid: Seq<UnsolicitedResponse>,
            |
                passes_on(mid, old(unsolicited)@, owned@, takes_quota_parts(), unilateral())
                    && passes_on(final(unsolicited)@, mid, owned@, takes_quota_parts(), unilateral()),
            !read_result(Ok::<(), Error>(()), owned@, takes_quota_parts(), unilateral()) ==> passes_on(
                final(unsolicited)@,
                old(unsolicited)@,
                owned@,
                takes_quota_parts(),
                unilateral(),
            ),
    {
        let roots = match parse_many_into(
            owned.as_slice(),
            unsolicited,
            Ghost(takes_quota_parts()),
            is_quota_part,
        ) {
            Ok(t) => t,
            Err(e) => return Err(e),
        };
        let ghost mid = unsolicited@;
        let parts = match parse_many_into(
            owned.as_slice(),
            unsolicited,
            Ghost(takes_quota_parts()),
            is_quota_part,
        ) {
            Ok(t) => t,
            Err(e) => {
                proof {
                    let rs = split_spec(owned@).0;
                    if e matches Error::Unexpected(_) {
                        let k = choose|k: int| first_unexpected_at(rs, takes_quota_parts(), unilateral(), k) && Error::Unexpected(rs[k]) == e;
                        assert(crate::parse::is_unexpected(rs[k], takes_quota_parts(), unilateral()));
                    }
                }
                return Err(e);
            },
        };
        let ghost rs = split_spec(owned@).0;
        proof {
            crate::parse::lemma_filter_then_map(rs, takes_quota_parts(), root_of());
            crate::parse::lemma_filter_then_map(rs, takes_quota_parts(), quota_of());
        }
        let quotas = quotas_of(parts);
        let ghost found = roots@;
        for r in it: roots
            invariant
                it.seq() == found,
                found.take(it.index() as int).filter_map(root_of()).len() == 0,
        {
            let ghost i = it.index() as int;
            proof {
                assert(found.take(i + 1).drop_last() == found.take(i));
                assert(found.take(i + 1).last() == r);
            }
            match r {
                ServerResponse::QuotaRoot(d) => {
                    proof {
                        lemma_first_of_filter_map(found, root_of(), i);
                    }
                    return Ok(QuotaRoot { quota_root: d, quotas });
                },
                _ => {},
            }
        }
        proof {
            assert(found.take(found.len() as int) == found);
        }
        Err(Error::Parse(ParseError::Invalid(owned)))
    }

    /// The name of the mailbox whose quota roots these are.
    pub fn mailbox_name(&self) -> (s: &str)
        ensures
            s@ == self@.0.mailbox_name@,
    {
        self.quota_root.mailbox_name.as_str()
    }

    /// The names of the quota roots of the mailbox.
    pub fn quota_root_names(&self) -> (v: Vec<&str>)
        ensures
            v@.len() == self@.0.quota_root_names@.len(),
            forall|i: int| 0 <= i < v@.len() ==> #[trigger] v@[i]@ == self@.0.quota_root_names@[i]@,
    {
        let mut v: Vec<&str> = Vec::new();
        let mut i: usize = 0;
        while i < self.quota_root.quota_root_names.len()
            invariant
                i <= self.quota_root.quota_root_names@.len(),
                v@.len() == i,
                forall|j: int| 0 <= j < i ==> #[trigger] v@[j]@ == self.quota_root.quota_root_names@[j]@,
            decreases self.quota_root.quota_root_names@.len() - i,
        {
            v.push(self.quota_root.quota_root_names[i].as_str());
            i = i + 1;
        }
        v
    }

    /// The quotas of the quota roots.
    pub fn quotas(&self) -> (q: &[QuotaData])
        ensures
            q@ == self@.1,
    {
        self.quotas.as_slice()
    }
}

/// Where `f` maps nothing before position `i` and maps the response at `i`, that is the first
/// value of the mapped sequence.
proof fn lemma_first_of_filter_map<B>(rs: Seq<ServerResponse>, f: spec_fn(ServerResponse) -> Option<B>, i: int)
    requires
        0 <= i < rs.len(),
        rs.take(i).filter_map(f).len() == 0,
        f(rs[i]) is Some,
    ensures
        rs.filter_map(f).len() > 0,
        Some(rs.filter_map(f)[0]) == f(rs[i]),
    decreases rs.len(),
{
    if i == rs.len() - 1 {
        assert(rs.drop_last() == rs.take(i));
    } else {
        assert(rs.drop_last().take(i) == rs.take(i));
        assert(rs.drop_last()[i] == rs[i]);
        lemma_first_of_filter_map(rs.drop_last(), f, i);
    }
}

} // verus!
