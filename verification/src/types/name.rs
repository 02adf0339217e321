//! Names that match a `LIST` or `LSUB` command.

use crate::error::Result;
use crate::parse::{lemma_filter_then_map, parse_many_into, passes_on, read_result, split_spec, unilateral};
use crate::response::{MailboxAttribute, MailboxData, ServerResponse};
use crate::types::UnsolicitedResponse;
use std::collections::VecDeque;
use vstd::prelude::*;

verus! {

/// A name that matches a `LIST` or `LSUB` command.
#[derive(Debug, Clone, PartialEq, Eq)]
pub struct Name {
    /// Attributes of this name.
    pub attributes: Vec<MailboxAttribute>,
    /// The hierarchy delimiter, if the name is part of a hierarchy.
    pub delimiter: Option<String>,
    /// The name itself.
    pub name: String,
}

impl Name {
    /// Attributes of this name.
    pub fn attributes(&self) -> (a: &[MailboxAttribute])
        ensures
            a@ == self.attributes@,
    {
        self.attributes.as_slice()
    }

    /// The hierarchy delimiter is a character used to delimit levels of hierarchy in a mailbox
    /// name.  A client can use it to create child mailboxes, and to search higher or lower levels
    /// of naming hierarchy.  All children of a top-level hierarchy node use the same
    /// separator character.  `None` means that no hierarchy exists; the name is a "flat" name.
    pub fn delimiter(&self) -> (d: Option<&str>)
        ensures
            match self.delimiter {
                Some(s) => d matches Some(t) && t@ == s@,
                None => d is None,
            },
    {
        match &self.delimiter {
            Some(s) => Some(s.as_str()),
            None => None,
        }
    }

    /// The name represents an unambiguous left-to-right hierarchy, and are valid for use as a
    /// reference in `LIST` and `LSUB` commands. Unless [`MailboxAttribute::NoSelect`] is
    /// indicated, the name is also valid as an argument for commands, such as `SELECT`, that
    /// accept mailbox names.
    pub fn name(&self) -> (n: &str)
        ensures
            n@ == self.name@,
    {
        self.name.as_str()
    }

    /// Get an owned version of this [`Name`].
    pub fn into_owned(self) -> (n: Name)
        ensures
            n == self,
    {
        self
    }
}

/// Whether `r` is a `LIST` (or `LSUB`) response.
pub open spec fn takes_names() -> spec_fn(ServerResponse) -> bool {
    |r: ServerResponse| r matches ServerResponse::MailboxData(MailboxData::List { .. })
}

/// Whether `r` is a `LIST` (or `LSUB`) response.
fn is_list(r: &ServerResponse) -> (b: bool)
    ensures
        b == takes_names()(*r),
{
    matches!(r, ServerResponse::MailboxData(MailboxData::List { .. }))
}

/// The name that a `LIST` response describes.
pub open spec fn listed_name(r: ServerResponse) -> Option<Name> {
    match r {
        ServerResponse::MailboxData(MailboxData::List { name_attributes, delimiter, name }) => Some(
            Name { attributes: name_attributes, delimiter, name },
        ),
        _ => None,
    }
}

/// The name of a response, for the `LIST` responses.
pub open spec fn name_of() -> spec_fn(ServerResponse) -> Option<Name> {
    |r: ServerResponse| listed_name(r)
}

/// A wrapper for one or more [`Name`] responses.
pub struct Names {
    names: Vec<Name>,
}

impl View for Names {
    type V = Seq<Name>;

    closed spec fn view(&self) -> Seq<Name> {
        self.names@
    }
}

impl Names {
    /// Parse one or more [`Name`] from a response buffer: the names of its `LIST` responses, in
    /// order; every other response is passed on as unsolicited.
    pub fn parse(owned: Vec<u8>, unsolicited: &mut VecDeque<UnsolicitedResponse>) -> (res: Result<
        Names,
    >)
        ensures
            read_result(res, owned@, takes_names(), unilateral()),
            passes_on(final(unsolicited)@, old(unsolicited)@, owned@, takes_names(), unilateral()),
            res matches Ok(n) ==> n@ == split_spec(owned@).0.filter_map(name_of()),
    {
        let ghost f = name_of();
        let taken = match parse_many_into(
            owned.as_slice(),
            unsolicited,
            Ghost(takes_names()),
            is_list,
        ) {
            Ok(t) => t,
            Err(e) => return Err(e),
        };
        let ghost all = taken@;
        let mut names: Vec<Name> = Vec::new();
        for r in it: taken
            invariant
                it.seq() == all,
                f == name_of(),
                names@ == all.take(it.index() as int).filter_map(f),
        {
            let ghost i = it.index() as int;
            proof {
                assert(all.take(i + 1).drop_last() == all.take(i));
                assert(all.take(i + 1).last() == r);
            }
            match r {
                ServerResponse::MailboxData(MailboxData::List { name_attributes, delimiter, name }) => {
                    let n = Name { attributes: name_attributes, delimiter, name };
                    proof {
                        assert(f(all[i]) == Some(n));
                        assert(all.take(i + 1).filter_map(f) == all.take(i).filter_map(f) + seq![n]);
                    }
                    names.push(n);
                },
                _ => {
                    proof {
                        assert(f(all[i]) is None);
                        assert(all.take(i + 1).filter_map(f) == all.take(i).filter_map(f));
                    }
                },
            }
        }
        proof {
            assert(all.take(all.len() as int) == all);
            lemma_filter_then_map(split_spec(owned@).0, takes_names(), f);
        }
        Ok(Names { names })
    }

    /// Get the number of [`Name`]s in this container.
    pub fn len(&self) -> (n: usize)
        ensures
            n == self@.len(),
    {
        self.names.len()
    }

    /// Return true of there are no [`Name`]s in the container.
    pub fn is_empty(&self) -> (b: bool)
        ensures
            b == (self@.len() == 0),
    {
        self.names.len() == 0
    }

    /// Get the element at the given index
    pub fn get(&self, index: usize) -> (n: Option<&Name>)
        ensures
            index < self@.len() ==> n == Some(&self@[index as int]),
            index >= self@.len() ==> n is None,
    {
        if index < self.names.len() {
            Some(&self.names[index])
        } else {
            None
        }
    }

    /// The contained [`Name`]s, in order.
    pub fn iter(&self) -> (it: std::slice::Iter<'_, Name>)
        ensures
            vstd::std_specs::slice::into_iter_elts(it) == self@,
    {
        broadcast use vstd::std_specs::slice::axiom_spec_slice_iter;
        self.names.as_slice().iter()
    }
}

} // verus!
