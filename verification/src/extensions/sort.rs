//! Adds support for the IMAP SORT extension specified in [RFC
//! 5256](https://tools.ietf.org/html/rfc5256#section-3).
//!
//! The SORT command is a variant of SEARCH with sorting semantics for
//! the results. There are two arguments before the searching
//! criteria argument: a parenthesized list of sort criteria, and the
//! searching charset.

use crate::utils::{iter_join, joined, push_str, texts};
use std::borrow::Cow;
use vstd::prelude::*;

verus! {

/// `Clone` of a copy-on-write value, as std implements it; nothing is stated of the copy.
pub assume_specification<'a, B: ?Sized + ToOwned>[ <Cow<'a, B> as Clone>::clone ](
    c: &Cow<'a, B>,
) -> Cow<'a, B>;

/// Message sorting preferences used for the `SORT` and `UID SORT` commands.
///
/// Any sorting criterion that refers to an address (`From`, `To`, etc.) sorts according to the
/// "addr-mailbox" of the indicated address. You can find the formal syntax for addr-mailbox [in
/// the IMAP spec](https://tools.ietf.org/html/rfc3501#section-9), and a more detailed discussion
/// of the relevant semantics [in RFC 2822](https://tools.ietf.org/html/rfc2822#section-3.4.1).
/// Essentially, the address refers _either_ to the name of the contact _or_ to its local-part (the
/// left part of the email address, before the `@`).
#[non_exhaustive]
#[derive(Debug, Clone, PartialEq, Eq, Hash, Copy)]
pub enum SortCriterion<'c> {
    /// Internal date and time of the message. This differs from the
    /// ON criteria in SEARCH, which uses just the internal date.
    Arrival,
    /// IMAP addr-mailbox of the first "Cc" address.
    Cc,
    /// Sent date and time, as described in
    /// [section 2.2](https://tools.ietf.org/html/rfc5256#section-2.2).
    Date,
    /// IMAP addr-mailbox of the first "From" address.
    From,
    /// Followed by another sort criterion, has the effect of that
    /// criterion but in reverse (descending) order.
    Reverse(&'c SortCriterion<'c>),
    /// Size of the message in octets.
    Size,
    /// Base subject text.
    Subject,
    /// IMAP addr-mailbox of the first "To" address.
    To,
}

/// The text of a sort criterion in the `SORT` command: its keyword, with `REVERSE ` before the
/// criterion it reverses.
pub open spec fn criterion_text(c: SortCriterion) -> Seq<char>
    decreases c,
{
    match c {
        SortCriterion::Arrival => "ARRIVAL"@,
        SortCriterion::Cc => "CC"@,
        SortCriterion::Date => "DATE"@,
        SortCriterion::From => "FROM"@,
        SortCriterion::Reverse(r) => "REVERSE "@ + criterion_text(*r),
        SortCriterion::Size => "SIZE"@,
        SortCriterion::Subject => "SUBJECT"@,
        SortCriterion::To => "TO"@,
    }
}

impl<'c> SortCriterion<'c> {
    /// Appends the text of this criterion ([`criterion_text`]).
    pub fn write_onto(&self, s: &mut String)
        ensures
            final(s)@ == old(s)@ + criterion_text(*self),
        decreases *self,
    {
        match self {
            SortCriterion::Arrival => push_str(s, "ARRIVAL"),
            SortCriterion::Cc => push_str(s, "CC"),
            SortCriterion::Date => push_str(s, "DATE"),
            SortCriterion::From => push_str(s, "FROM"),
            SortCriterion::Reverse(r) => {
                push_str(s, "REVERSE ");
                r.write_onto(s);
            },
            SortCriterion::Size => push_str(s, "SIZE"),
            SortCriterion::Subject => push_str(s, "SUBJECT"),
            SortCriterion::To => push_str(s, "TO"),
        }
    }

    /// The text of this criterion ([`criterion_text`]).
    pub fn to_string(&self) -> (s: String)
        ensures
            s@ == criterion_text(*self),
    {
        let mut s = String::new();
        self.write_onto(&mut s);
        s
    }
}

/// A list of sort criteria, as the `SORT` command writes it.
pub struct SortCriteria<'c>(pub &'c [SortCriterion<'c>]);

/// Distinct sort criteria are written differently (RFC 5256 names each key by its own word,
/// and `REVERSE ` goes before a reversed key), so the server reads back the order that was
/// asked for.
pub proof fn lemma_criterion_text_injective(a: SortCriterion, b: SortCriterion)
    requires
        criterion_text(a) == criterion_text(b),
    ensures
        a == b,
    decreases a,
{
    reveal_strlit("ARRIVAL");
    reveal_strlit("CC");
    reveal_strlit("DATE");
    reveal_strlit("FROM");
    reveal_strlit("REVERSE ");
    reveal_strlit("SIZE");
    reveal_strlit("SUBJECT");
    reveal_strlit("TO");
    let (x, y) = (criterion_text(a), criterion_text(b));
    assert(x.len() == y.len() && x[0] == y[0]);
    match (a, b) {
        (SortCriterion::Reverse(p), SortCriterion::Reverse(q)) => {
            assert(x.skip(8) == criterion_text(*p));
            assert(y.skip(8) == criterion_text(*q));
            lemma_criterion_text_injective(*p, *q);
        },
        (SortCriterion::Reverse(p), _) => {
            assert(x[0] == 'R');
        },
        (_, SortCriterion::Reverse(q)) => {
            assert(y[0] == 'R');
        },
        _ => {
            assert(x.len() > 1 ==> x[1] == y[1]);
        },
    }
}

/// The text of a list of sort criteria: nothing for no criteria, else the criteria between
/// parentheses, separated by spaces.
pub open spec fn criteria_text(cs: Seq<SortCriterion>) -> Seq<char> {
    if cs.len() == 0 {
        seq![]
    } else {
        seq!['('] + joined(cs.map_values(|c: SortCriterion| criterion_text(c)), seq![' ']) + seq![')']
    }
}

impl<'c> SortCriteria<'c> {
    /// The text of these criteria ([`criteria_text`]).
    pub fn to_string(&self) -> (s: String)
        ensures
            s@ == criteria_text(self.0@),
    {
        if self.0.len() == 0 {
            return String::new();
        }
        let mut items: Vec<String> = Vec::new();
        let mut i: usize = 0;
        while i < self.0.len()
            invariant
                i <= self.0@.len(),
                texts(items@) == self.0@.take(i as int).map_values(|c: SortCriterion| criterion_text(c)),
            decreases self.0@.len() - i,
        {
            let t = self.0[i].to_string();
            let ghost before = items@;
            items.push(t);
            proof {
                assert(texts(items@) == texts(before).push(t@));
                assert(self.0@.take(i + 1).map_values(|c: SortCriterion| criterion_text(c))
                    == self.0@.take(i as int).map_values(|c: SortCriterion| criterion_text(c)).push(criterion_text(self.0@[i as int])));
            }
            i = i + 1;
        }
        proof {
            assert(self.0@.take(self.0@.len() as int) == self.0@);
            reveal_strlit(" ");
            assert(" "@ =~= seq![' ']);
        }
        let joined = iter_join(items.as_slice(), " ");
        let mut s = String::new();
        push_str(&mut s, "(");
        push_str(&mut s, joined.as_str());
        push_str(&mut s, ")");
        proof {
            reveal_strlit("(");
            reveal_strlit(")");
        }
        assert(s@ =~= criteria_text(self.0@));
        s
    }
}

/// The character encoding to use for strings that are subject to a [`SortCriterion`].
///
/// Servers are only required to implement [`SortCharset::UsAscii`] and [`SortCharset::Utf8`].
#[non_exhaustive]
#[derive(Debug, Clone, PartialEq, Eq, Hash)]
pub enum SortCharset<'c> {
    /// Strings are UTF-8 encoded.
    Utf8,
    /// Strings are encoded with ASCII.
    UsAscii,
    /// Strings are encoded using some other character set.
    ///
    /// Note that this option is subject to server support for the specified character set.
    Custom(Cow<'c, str>),
}

/// The name of a charset in the `SORT` command.
pub open spec fn charset_text(c: SortCharset) -> Seq<char> {
    match c {
        SortCharset::Utf8 => "UTF-8"@,
        SortCharset::UsAscii => "US-ASCII"@,
        SortCharset::Custom(s) => s@,
    }
}

impl<'c> SortCharset<'c> {
    /// The name of this charset ([`charset_text`]).
    pub fn to_string(&self) -> (s: String)
        ensures
            s@ == charset_text(*self),
    {
        match self {
            SortCharset::Utf8 => "UTF-8".to_owned(),
            SortCharset::UsAscii => "US-ASCII".to_owned(),
            SortCharset::Custom(c) => match c {
                Cow::Borrowed(b) => (*b).to_owned(),
                Cow::Owned(o) => o.clone(),
            },
        }
    }
}

} // verus!
