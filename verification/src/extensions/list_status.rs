//! Adds support for the IMAP LIST-STATUS extension specificed in [RFC
//! 5819](https://tools.ietf.org/html/rfc5819).

use crate::client::{first_invalid, quoted, validate_str, validated};
use crate::error::{Error, Result, ValidateError};
use crate::parse::{
    apply_status, apply_status_items, no_numbers, numbers_of, parse_many_into, passes_on,
    read_result, split_spec, unilateral, MailboxNumbers,
};
use crate::response::{MailboxData, ServerResponse};
use crate::types::name::{listed_name, Name};
use crate::types::{Mailbox, UnsolicitedResponse};
use crate::utils::push_str;
use std::collections::VecDeque;
use vstd::prelude::*;

verus! {

/// Whether `r` is a `LIST` or a `STATUS` response.
pub open spec fn takes_list_status() -> spec_fn(ServerResponse) -> bool {
    |r: ServerResponse|
        r matches ServerResponse::MailboxData(d) && (d is List || d is Status)
}

/// Where a reader of a `LIST-STATUS` reply stands: the names it has paired, the name it holds,
/// and the numbers of the last `STATUS` response since it last paired a name.
pub struct ListStatusState {
    pub paired: Seq<(Name, Option<MailboxNumbers>)>,
    pub name: Option<Name>,
    pub numbers: Option<MailboxNumbers>,
}

/// One response read: a `LIST` response pairs the name held, if any, with the numbers held, and
/// is then held in its place; a `STATUS` response gives the numbers held (for whichever
/// mailbox it names); any other response changes nothing.
pub open spec fn list_status_step(s: ListStatusState, r: ServerResponse) -> ListStatusState {
    match r {
        ServerResponse::MailboxData(MailboxData::List { .. }) => match s.name {
            Some(held) => ListStatusState {
                paired: s.paired.push((held, s.numbers)),
                name: listed_name(r),
                numbers: None,
            },
            None => ListStatusState { name: listed_name(r), ..s },
        },
        ServerResponse::MailboxData(MailboxData::Status { status, .. }) => ListStatusState {
            numbers: Some(apply_status_items(no_numbers(), status@)),
            ..s
        },
        _ => s,
    }
}

/// The state after the responses `rs` are read in order.
pub open spec fn list_status_fold(rs: Seq<ServerResponse>) -> ListStatusState
    decreases rs.len(),
{
    if rs.len() == 0 {
        ListStatusState { paired: seq![], name: None, numbers: None }
    } else {
        list_status_step(list_status_fold(rs.drop_last()), rs.last())
    }
}

/// The names of a `LIST-STATUS` reply, each with the numbers of the `STATUS` response that
/// followed it, if any: the pairs made while reading, and the name held at the end.
pub open spec fn list_status_pairs(rs: Seq<ServerResponse>) -> Seq<(Name, Option<MailboxNumbers>)> {
    let s = list_status_fold(rs);
    match s.name {
        Some(n) => s.paired.push((n, s.numbers)),
        None => s.paired,
    }
}

/// Whether `m` is the mailbox of a `STATUS` response whose numbers are `n`: a default mailbox
/// with those numbers.
pub open spec fn is_status_mailbox(m: Mailbox, n: MailboxNumbers) -> bool {
    &&& numbers_of(m) == n
    &&& m.flags@.len() == 0
    &&& m.permanent_flags@.len() == 0
    &&& !m.is_read_only
}

/// Whether the optional mailbox `m` stands for the optional numbers `n`.
pub open spec fn is_status_of(m: Option<Mailbox>, n: Option<MailboxNumbers>) -> bool {
    match (m, n) {
        (Some(mb), Some(nb)) => is_status_mailbox(mb, nb),
        (None, None) => true,
        _ => false,
    }
}

/// Whether the pair `e` stands for the pair `p`: same name, and the mailbox stands for the
/// numbers.
pub open spec fn is_pair_of(e: (Name, Option<Mailbox>), p: (Name, Option<MailboxNumbers>)) -> bool {
    e.0 == p.0 && is_status_of(e.1, p.1)
}

/// Whether the pairs `es` stand for the pairs `ps`, one for one.
pub open spec fn are_pairs_of(
    es: Seq<(Name, Option<Mailbox>)>,
    ps: Seq<(Name, Option<MailboxNumbers>)>,
) -> bool {
    &&& es.len() == ps.len()
    &&& forall|i: int| 0 <= i < es.len() ==> #[trigger] is_pair_of(es[i], ps[i])
}

/// Reading only the responses that change the state gives the state that reading all of them
/// gives.
proof fn lemma_fold_filter(rs: Seq<ServerResponse>)
    ensures
        list_status_fold(rs.filter(takes_list_status())) == list_status_fold(rs),
    decreases rs.len(),
{
    reveal(Seq::filter);
    if rs.len() > 0 {
        lemma_fold_filter(rs.drop_last());
        let w = takes_list_status();
        if w(rs.last()) {
            let f = rs.filter(w);
            assert(f.drop_last() == rs.drop_last().filter(w));
            assert(f.last() == rs.last());
        }
    }
}

/// A pair made is one more pair that stands for its numbers.
proof fn lemma_pairs_push(
    es: Seq<(Name, Option<Mailbox>)>,
    ps: Seq<(Name, Option<MailboxNumbers>)>,
    n: Name,
    m: Option<Mailbox>,
    nb: Option<MailboxNumbers>,
)
    requires
        are_pairs_of(es, ps),
        is_status_of(m, nb),
    ensures
        are_pairs_of(es.push((n, m)), ps.push((n, nb))),
{
    assert forall|i: int| 0 <= i < es.len() + 1 implies #[trigger] is_pair_of(es.push((n, m))[i], ps.push((n, nb))[i]) by {
        if i < es.len() {
            assert(es.push((n, m))[i] == es[i]);
            assert(ps.push((n, nb))[i] == ps[i]);
            assert(is_pair_of(es[i], ps[i]));
        } else {
            assert(es.push((n, m))[i] == (n, m));
            assert(ps.push((n, nb))[i] == (n, nb));
        }
    }
}

/// A wrapper for one or more [`Name`] responses paired with optional [`Mailbox`] responses.
///
/// This structure represents responses to a LIST-STATUS command. See [RFC 5819, section
/// 2](https://tools.ietf.org/html/rfc5819.html#section-2).
pub struct ExtendedNames {
    extended_names: Vec<(Name, Option<Mailbox>)>,
}

impl View for ExtendedNames {
    type V = Seq<(Name, Option<Mailbox>)>;

    closed spec fn view(&self) -> Seq<(Name, Option<Mailbox>)> {
        self.extended_names@
    }
}

/// Whether `r` is a `LIST` or a `STATUS` response.
fn is_list_or_status(r: &ServerResponse) -> (b: bool)
    ensures
        b == takes_list_status()(*r),
{
    match r {
        ServerResponse::MailboxData(MailboxData::List { .. }) => true,
        ServerResponse::MailboxData(MailboxData::Status { .. }) => true,
        _ => false,
    }
}

impl ExtendedNames {
    /// Parse one or more LIST-STATUS responses from a response buffer: each name of a `LIST`
    /// response, paired with the mailbox of the `STATUS` response read since the name before it
    /// was paired, if any ([`list_status_pairs`]); every other response is passed on as
    /// unsolicited.
    pub fn parse(owned: Vec<u8>, unsolicited: &mut VecDeque<UnsolicitedResponse>) -> (res: Result<
        ExtendedNames,
    >)
        ensures
            read_result(res, owned@, takes_list_status(), unilateral()),
            passes_on(final(unsolicited)@, old(unsolicited)@, owned@, takes_list_status(), unilateral()),
            res matches Ok(e) ==> are_pairs_of(e@, list_status_pairs(split_spec(owned@).0)),
    {
        let taken = match parse_many_into(
            owned.as_slice(),
            unsolicited,
            Ghost(takes_list_status()),
            is_list_or_status,
        ) {
            Ok(t) => t,
            Err(e) => return Err(e),
        };
        let ghost all = taken@;
        let mut names: Vec<(Name, Option<Mailbox>)> = Vec::new();
        let mut current_name: Option<Name> = None;
        let mut current_mailbox: Option<Mailbox> = None;
        for r in it: taken
            invariant
                it.seq() == all,
                are_pairs_of(names@, list_status_fold(all.take(it.index() as int)).paired),
                current_name == list_status_fold(all.take(it.index() as int)).name,
                is_status_of(current_mailbox, list_status_fold(all.take(it.index() as int)).numbers),
        {
            let ghost i = it.index() as int;
            let ghost before = list_status_fold(all.take(i));
            proof {
                assert(all.take(i + 1).drop_last() == all.take(i));
                assert(all.take(i + 1).last() == r);
            }
            match r {
                ServerResponse::MailboxData(MailboxData::List { name_attributes, delimiter, name }) => {
                    match current_name {
                        Some(held) => {
                            proof {
                                lemma_pairs_push(names@, before.paired, held, current_mailbox, before.numbers);
                            }
                            names.push((held, current_mailbox));
                            current_mailbox = None;
                        },
                        None => {},
                    }
                    current_name = Some(Name { attributes: name_attributes, delimiter, name });
                },
                ServerResponse::MailboxData(MailboxData::Status { mailbox: _, status }) => {
                    let mut mb = Mailbox::default();
                    apply_status(&mut mb, status);
                    current_mailbox = Some(mb);
                },
                _ => {},
            }
        }
        proof {
            assert(all.take(all.len() as int) == all);
            lemma_fold_filter(split_spec(owned@).0);
        }
        match current_name {
            Some(held) => {
                proof {
                    let s = list_status_fold(all);
                    lemma_pairs_push(names@, s.paired, held, current_mailbox, s.numbers);
                }
                names.push((held, current_mailbox));
            },
            None => {},
        }
        Ok(ExtendedNames { extended_names: names })
    }

    /// Get the number of elements in this container.
    pub fn len(&self) -> (n: usize)
        ensures
            n == self@.len(),
    {
        self.extended_names.len()
    }

    /// Return true of there are no elements in the container.
    pub fn is_empty(&self) -> (b: bool)
        ensures
            b == (self@.len() == 0),
    {
        self.extended_names.len() == 0
    }

    /// Get the element at the given index
    pub fn get(&self, index: usize) -> (e: Option<&(Name, Option<Mailbox>)>)
        ensures
            index < self@.len() ==> e == Some(&self@[index as int]),
            index >= self@.len() ==> e is None,
    {
        if index < self.extended_names.len() {
            Some(&self.extended_names[index])
        } else {
            None
        }
    }

    /// Iterate over the contained elements
    pub fn iter(&self) -> (it: std::slice::Iter<'_, (Name, Option<Mailbox>)>)
        ensures
            vstd::std_specs::slice::into_iter_elts(it) == self@,
    {
        broadcast use vstd::std_specs::slice::axiom_spec_slice_iter;
        self.extended_names.as_slice().iter()
    }
}


/// The text of an optional argument, or a default one.
pub open spec fn or_default(o: Option<&str>, d: Seq<char>) -> Seq<char> {
    match o {
        Some(s) => s@,
        None => d,
    }
}

/// The extended `LIST` command that asks for the `STATUS` of each name (`LIST-STATUS`): the
/// reference name (empty if none) as a quoted string, the pattern as given (an empty quoted
/// string if none), and the data items as given.
pub fn list_status_command(
    reference_name: Option<&str>,
    mailbox_pattern: Option<&str>,
    data_items: &str,
) -> (res: Result<String>)
    ensures
        validated(
            res,
            seq![or_default(reference_name, seq![])],
            "LIST "@ + quoted(or_default(reference_name, seq![])) + seq![' '] + or_default(
                mailbox_pattern,
                "\"\""@,
            ) + " RETURN (STATUS "@ + data_items@ + ")"@,
        ),
{
    let empty = "";
    proof {
        reveal_strlit("");
        reveal_with_fuel(first_invalid, 2);
    }
    let reference = match reference_name {
        Some(r) => r,
        None => empty,
    };
    assert(reference@ == or_default(reference_name, seq![]));
    assert(seq![reference@][0] == reference@);
    assert(seq![reference@].drop_first() =~= Seq::<Seq<char>>::empty());
    let q = match validate_str(reference) {
        Ok(q) => q,
        Err(e) => return Err(e),
    };
    let pattern = match mailbox_pattern {
        Some(p) => p,
        None => "\"\"",
    };
    let mut c = "LIST ".to_owned();
    push_str(&mut c, q.as_str());
    push_str(&mut c, " ");
    push_str(&mut c, pattern);
    push_str(&mut c, " RETURN (STATUS ");
    push_str(&mut c, data_items);
    push_str(&mut c, ")");
    proof {
        reveal_strlit(" ");
        assert(" "@ =~= seq![' ']);
    }
    assert(c@ =~= "LIST "@ + quoted(or_default(reference_name, seq![])) + seq![' '] + or_default(
        mailbox_pattern,
        "\"\""@,
    ) + " RETURN (STATUS "@ + data_items@ + ")"@);
    Ok(c)
}

} // verus!
