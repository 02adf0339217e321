use super::flag::Flag;
use crate::utils::{decimal, joined, push_decimal, push_str};
use vstd::prelude::*;

verus! {

/// Meta-information about an IMAP mailbox, as returned by
/// [`SELECT`](https://tools.ietf.org/html/rfc3501#section-6.3.1) and friends.
#[derive(Clone, Debug, Eq, PartialEq, Hash)]
pub struct Mailbox {
    /// Defined flags in the mailbox.
    pub flags: Vec<Flag>,
    /// The number of messages in the mailbox.
    pub exists: u32,
    /// The number of messages with the \Recent flag set.
    pub recent: u32,
    /// The message sequence number of the first unseen message in the mailbox.
    pub unseen: Option<u32>,
    /// A list of message flags that the client can change permanently.
    pub permanent_flags: Vec<Flag>,
    /// The next unique identifier value.
    pub uid_next: Option<u32>,
    /// The unique identifier validity value.
    pub uid_validity: Option<u32>,
    /// The highest mod sequence for this mailbox (RFC 4551).
    pub highest_mod_seq: Option<u64>,
    /// The mailbox is selected read-only, or its access while selected has changed from
    /// read-write to read-only.
    pub is_read_only: bool,
}

impl Mailbox {
    /// Whether this is the mailbox that [`Mailbox::default`] gives: no flags, no messages, no
    /// optional value, and not read-only.
    pub open spec fn is_default(&self) -> bool {
        &&& self.flags@.len() == 0
        &&& self.exists == 0
        &&& self.recent == 0
        &&& self.unseen is None
        &&& self.permanent_flags@.len() == 0
        &&& self.uid_next is None
        &&& self.uid_validity is None
        &&& self.highest_mod_seq is None
        &&& !self.is_read_only
    }
}

impl Default for Mailbox {
    fn default() -> (m: Mailbox)
        ensures
            m.is_default(),
    {
        Mailbox {
            flags: Vec::new(),
            exists: 0,
            recent: 0,
            unseen: None,
            permanent_flags: Vec::new(),
            uid_next: None,
            uid_validity: None,
            highest_mod_seq: None,
            is_read_only: false,
        }
    }
}

/// How `Debug` writes a string: between double quotes, with special characters escaped.
pub uninterp spec fn str_debug_text(s: Seq<char>) -> Seq<char>;

/// Writes a string with `format!("{:?}", s)`. The contract claims that the text depends on the
/// string alone; which text it is, is not stated.
#[verifier::external_body]
fn str_debug(s: &str) -> (t: String)
    ensures
        t@ == str_debug_text(s@),
{
    format!("{:?}", s)
}

/// How `Debug` writes an optional number: `Some(` and the number `)`, or `None`.
pub open spec fn option_debug(o: Option<u64>) -> Seq<char> {
    match o {
        Some(n) => "Some("@ + decimal(n as nat) + ")"@,
        None => "None"@,
    }
}

/// The optional number `o`, widened.
pub open spec fn wide(o: Option<u32>) -> Option<u64> {
    match o {
        Some(n) => Some(n as u64),
        None => None,
    }
}

/// How `Debug` writes a flag: the name of its variant, and for a custom flag its text as a
/// string between brackets.
pub open spec fn flag_debug(f: Flag) -> Seq<char> {
    match f {
        Flag::Seen => "Seen"@,
        Flag::Answered => "Answered"@,
        Flag::Flagged => "Flagged"@,
        Flag::Deleted => "Deleted"@,
        Flag::Draft => "Draft"@,
        Flag::Recent => "Recent"@,
        Flag::MayCreate => "MayCreate"@,
        Flag::Custom(s) => "Custom("@ + str_debug_text(s@) + ")"@,
    }
}

/// How `Debug` writes a list of flags: each flag, separated by `, `, between square brackets.
pub open spec fn flags_debug(fs: Seq<Flag>) -> Seq<char> {
    "["@ + joined(fs.map_values(|f: Flag| flag_debug(f)), ", "@) + "]"@
}

/// The text of a mailbox: each field after its name, numbers and lists as `Debug` writes them.
pub open spec fn mailbox_text(m: Mailbox) -> Seq<char> {
    "flags: "@ + flags_debug(m.flags@) + ", exists: "@ + decimal(m.exists as nat) + ", recent: "@
        + decimal(m.recent as nat) + ", unseen: "@ + option_debug(wide(m.unseen)) + ", permanent_flags: "@
        + flags_debug(m.permanent_flags@) + ",uid_next: "@ + option_debug(wide(m.uid_next))
        + ", uid_validity: "@ + option_debug(wide(m.uid_validity)) + ", highest_mod_seq: "@
        + option_debug(m.highest_mod_seq) + ", is_read_only: "@ + if m.is_read_only {
        "true"@
    } else {
        "false"@
    }
}

/// Appends how `Debug` writes an optional number.
fn push_option(s: &mut String, o: Option<u64>)
    ensures
        final(s)@ == old(s)@ + option_debug(o),
{
    match o {
        Some(n) => {
            push_str(s, "Some(");
            push_decimal(s, n);
            push_str(s, ")");
        },
        None => push_str(s, "None"),
    }
}

/// The optional number `o`, widened.
fn widen(o: Option<u32>) -> (w: Option<u64>)
    ensures
        w == wide(o),
{
    match o {
        Some(n) => Some(n as u64),
        None => None,
    }
}

/// Appends how `Debug` writes a flag.
fn push_flag(s: &mut String, f: &Flag)
    ensures
        final(s)@ == old(s)@ + flag_debug(*f),
{
    match f {
        Flag::Seen => push_str(s, "Seen"),
        Flag::Answered => push_str(s, "Answered"),
        Flag::Flagged => push_str(s, "Flagged"),
        Flag::Deleted => push_str(s, "Deleted"),
        Flag::Draft => push_str(s, "Draft"),
        Flag::Recent => push_str(s, "Recent"),
        Flag::MayCreate => push_str(s, "MayCreate"),
        Flag::Custom(c) => {
            push_str(s, "Custom(");
            let t = str_debug(c.as_str());
            push_str(s, t.as_str());
            push_str(s, ")");
        },
    }
}

/// Appends how `Debug` writes a list of flags.
fn push_flags(s: &mut String, fs: &Vec<Flag>)
    ensures
        final(s)@ == old(s)@ + flags_debug(fs@),
{
    let ghost start = s@;
    let ghost all = fs@.map_values(|f: Flag| flag_debug(f));
    push_str(s, "[");
    let mut i: usize = 0;
    while i < fs.len()
        invariant
            i <= fs@.len(),
            all == fs@.map_values(|f: Flag| flag_debug(f)),
            s@ == start + "["@ + joined(all.take(i as int), ", "@),
        decreases fs@.len() - i,
    {
        proof {
            assert(all.take(i + 1).drop_last() == all.take(i as int));
            assert(all.take(i + 1).last() == flag_debug(fs@[i as int]));
        }
        if i > 0 {
            push_str(s, ", ");
        }
        push_flag(s, &fs[i]);
        i = i + 1;
        proof {
            if i == 1 {
                assert(all.take(1)[0] == flag_debug(fs@[0]));
            }
        }
    }
    proof {
        assert(all.take(fs@.len() as int) == all);
    }
    push_str(s, "]");
}

impl Mailbox {
    /// The text of this mailbox ([`mailbox_text`]).
    pub fn to_string(&self) -> (s: String)
        ensures
            s@ == mailbox_text(*self),
    {
        let mut s = "flags: ".to_owned();
        push_flags(&mut s, &self.flags);
        push_str(&mut s, ", exists: ");
        push_decimal(&mut s, self.exists as u64);
        push_str(&mut s, ", recent: ");
        push_decimal(&mut s, self.recent as u64);
        push_str(&mut s, ", unseen: ");
        push_option(&mut s, widen(self.unseen));
        push_str(&mut s, ", permanent_flags: ");
        push_flags(&mut s, &self.permanent_flags);
        push_str(&mut s, ",uid_next: ");
        push_option(&mut s, widen(self.uid_next));
        push_str(&mut s, ", uid_validity: ");
        push_option(&mut s, widen(self.uid_validity));
        push_str(&mut s, ", highest_mod_seq: ");
        push_option(&mut s, self.highest_mod_seq);
        push_str(&mut s, ", is_read_only: ");
        if self.is_read_only {
            push_str(&mut s, "true");
        } else {
            push_str(&mut s, "false");
        }
        s
    }
}

} // verus!
