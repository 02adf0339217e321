use crate::utils::{str_eq, to_owned_string};
use vstd::prelude::*;

verus! {

/// With the exception of [`Flag::Custom`], these flags are system flags that are pre-defined in
/// [RFC 3501 section 2.3.2](https://tools.ietf.org/html/rfc3501#section-2.3.2). All system flags
/// begin with `\` in the IMAP protocol.  Certain system flags (`\Deleted` and `\Seen`) have
/// special semantics described elsewhere.
///
/// A flag can be permanent or session-only on a per-flag basis. Permanent flags are those which
/// the client can add or remove from the message flags permanently; that is, concurrent and
/// subsequent sessions will see any change in permanent flags.  Changes to session flags are valid
/// only in that session.
///
/// > Note: The `\Recent` system flag is a special case of a session flag.  `\Recent` can not be
/// > used as an argument in a `STORE` or `APPEND` command, and thus can not be changed at all.
#[derive(Clone, Debug, Hash, PartialEq, Eq)]
pub enum Flag {
    /// Message has been read
    Seen,
    /// Message has been answered
    Answered,
    /// Message is "flagged" for urgent/special attention
    Flagged,
    /// Message is "deleted" for removal by later EXPUNGE
    Deleted,
    /// Message has not completed composition (marked as a draft).
    Draft,
    /// Message is "recently" arrived in this mailbox.  This session is the first session to have
    /// been notified about this message; if the session is read-write, subsequent sessions will
    /// not see `\Recent` set for this message.  This flag can not be altered by the client.
    Recent,
    /// The [`Mailbox::permanent_flags`](crate::types::Mailbox::permanent_flags) can include this
    /// special flag (`\*`), which indicates that it is possible to create new keywords by
    /// attempting to store those flags in the mailbox.
    MayCreate,
    /// A non-standard user- or server-defined flag.
    Custom(String),
}

/// The system flag that `s` names, if it names one.
pub open spec fn spec_system_flag(s: Seq<char>) -> Option<Flag> {
    if s == "\\Seen"@ {
        Some(Flag::Seen)
    } else if s == "\\Answered"@ {
        Some(Flag::Answered)
    } else if s == "\\Flagged"@ {
        Some(Flag::Flagged)
    } else if s == "\\Deleted"@ {
        Some(Flag::Deleted)
    } else if s == "\\Draft"@ {
        Some(Flag::Draft)
    } else if s == "\\Recent"@ {
        Some(Flag::Recent)
    } else if s == "\\*"@ {
        Some(Flag::MayCreate)
    } else {
        None
    }
}

/// Whether `f` is the flag that the text `s` denotes: the system flag it names, or else a
/// custom flag holding `s`.
pub open spec fn is_flag_of(f: Flag, s: Seq<char>) -> bool {
    match spec_system_flag(s) {
        Some(g) => f == g,
        None => f matches Flag::Custom(c) && c@ == s,
    }
}

/// Whether `fs` are the flags that the texts `ss` denote, in the same order.
pub open spec fn are_flags_of(fs: Seq<Flag>, ss: Seq<String>) -> bool {
    &&& fs.len() == ss.len()
    &&& forall|i: int| 0 <= i < fs.len() ==> #[trigger] is_flag_of(fs[i], ss[i]@)
}

/// The text of a flag as the protocol writes it.
pub open spec fn flag_text(f: Flag) -> Seq<char> {
    match f {
        Flag::Seen => "\\Seen"@,
        Flag::Answered => "\\Answered"@,
        Flag::Flagged => "\\Flagged"@,
        Flag::Deleted => "\\Deleted"@,
        Flag::Draft => "\\Draft"@,
        Flag::Recent => "\\Recent"@,
        Flag::MayCreate => "\\*"@,
        Flag::Custom(s) => s@,
    }
}

impl Flag {
    /// The system flag that `s` names, if it names one.
    pub fn system(s: &str) -> (f: Option<Flag>)
        ensures
            f == spec_system_flag(s@),
    {
        if str_eq(s, "\\Seen") {
            Some(Flag::Seen)
        } else if str_eq(s, "\\Answered") {
            Some(Flag::Answered)
        } else if str_eq(s, "\\Flagged") {
            Some(Flag::Flagged)
        } else if str_eq(s, "\\Deleted") {
            Some(Flag::Deleted)
        } else if str_eq(s, "\\Draft") {
            Some(Flag::Draft)
        } else if str_eq(s, "\\Recent") {
            Some(Flag::Recent)
        } else if str_eq(s, "\\*") {
            Some(Flag::MayCreate)
        } else {
            None
        }
    }

    /// The flag that the text `s` denotes: the system flag that it names, or else a custom flag.
    pub fn from_string(s: String) -> (f: Flag)
        ensures
            is_flag_of(f, s@),
    {
        match Flag::system(s.as_str()) {
            Some(f) => f,
            None => Flag::Custom(s),
        }
    }

    /// The flag that the text `s` denotes: the system flag that it names, or else a custom flag.
    pub fn from_str(s: &str) -> (f: Flag)
        ensures
            is_flag_of(f, s@),
    {
        match Flag::system(s) {
            Some(f) => f,
            None => Flag::Custom(to_owned_string(s)),
        }
    }

    /// Helper function to transform Strings into owned Flags
    pub fn from_strs(v: Vec<String>) -> (fs: Vec<Flag>)
        ensures
            are_flags_of(fs@, v@),
    {
        let mut fs: Vec<Flag> = Vec::new();
        let mut v = v;
        let ghost orig = v@;
        let mut i: usize = 0;
        let mut rest: Vec<String> = Vec::new();
        proof {
            assert(are_flags_of(fs@, orig.take(0)));
        }
        for s in it: v
            invariant
                it.seq() == orig,
                are_flags_of(fs@, orig.take(it.index() as int)),
        {
            let ghost k = it.index();
            let f = Flag::from_string(s);
            fs.push(f);
            assert(orig.take(k + 1) == orig.take(k as int).push(s));
            assert(is_flag_of(fs@[k as int], orig.take(k + 1)[k as int]@));
        }
        proof {
            assert(orig.take(orig.len() as int) == orig);
        }
        fs
    }

    /// Get an owned version of the [`Flag`].
    pub fn into_owned(self) -> (f: Flag)
        ensures
            f == self,
    {
        self
    }

    /// The text of the flag as the protocol writes it.
    pub fn to_string(&self) -> (s: String)
        ensures
            s@ == flag_text(*self),
    {
        match self {
            Flag::Seen => to_owned_string("\\Seen"),
            Flag::Answered => to_owned_string("\\Answered"),
            Flag::Flagged => to_owned_string("\\Flagged"),
            Flag::Deleted => to_owned_string("\\Deleted"),
            Flag::Draft => to_owned_string("\\Draft"),
            Flag::Recent => to_owned_string("\\Recent"),
            Flag::MayCreate => to_owned_string("\\*"),
            Flag::Custom(s) => s.clone(),
        }
    }
}

impl From<String> for Flag {
    /// The flag that the text `s` denotes ([`Flag::from_string`]).
    fn from(s: String) -> (f: Flag)
        ensures
            is_flag_of(f, s@),
    {
        Flag::from_string(s)
    }
}

impl vstd::std_specs::convert::FromSpecImpl<String> for Flag {
    open spec fn obeys_from_spec() -> bool {
        false
    }

    open spec fn from_spec(s: String) -> Flag {
        arbitrary()
    }
}

impl From<&str> for Flag {
    /// The flag that the text `s` denotes ([`Flag::from_str`]).
    fn from(s: &str) -> (f: Flag)
        ensures
            is_flag_of(f, s@),
    {
        Flag::from_str(s)
    }
}

impl vstd::std_specs::convert::FromSpecImpl<&str> for Flag {
    open spec fn obeys_from_spec() -> bool {
        false
    }

    open spec fn from_spec(s: &str) -> Flag {
        arbitrary()
    }
}

/// The system flags have the names of RFC 3501 (section 2.3.2), and each name reads back as
/// its flag.
pub proof fn lemma_system_flag_names()
    ensures
        flag_text(Flag::Seen) == "\\Seen"@ && spec_system_flag("\\Seen"@) == Some(Flag::Seen),
        flag_text(Flag::Answered) == "\\Answered"@ && spec_system_flag("\\Answered"@) == Some(Flag::Answered),
        flag_text(Flag::Flagged) == "\\Flagged"@ && spec_system_flag("\\Flagged"@) == Some(Flag::Flagged),
        flag_text(Flag::Deleted) == "\\Deleted"@ && spec_system_flag("\\Deleted"@) == Some(Flag::Deleted),
        flag_text(Flag::Draft) == "\\Draft"@ && spec_system_flag("\\Draft"@) == Some(Flag::Draft),
        flag_text(Flag::Recent) == "\\Recent"@ && spec_system_flag("\\Recent"@) == Some(Flag::Recent),
        flag_text(Flag::MayCreate) == "\\*"@ && spec_system_flag("\\*"@) == Some(Flag::MayCreate),
{
    lemma_flag_text_round_trip(Flag::Seen);
    lemma_flag_text_round_trip(Flag::Answered);
    lemma_flag_text_round_trip(Flag::Flagged);
    lemma_flag_text_round_trip(Flag::Deleted);
    lemma_flag_text_round_trip(Flag::Draft);
    lemma_flag_text_round_trip(Flag::Recent);
    lemma_flag_text_round_trip(Flag::MayCreate);
}

/// A text denotes one flag: two flags read from the same text (from a `String` or from a
/// `&str`) are the same system flag, or custom flags with the same text.
pub proof fn lemma_flag_of_unique(f: Flag, g: Flag, s: Seq<char>)
    requires
        is_flag_of(f, s),
        is_flag_of(g, s),
    ensures
        flag_text(f) == flag_text(g),
        f is Custom <==> g is Custom,
        !(f is Custom) ==> f == g,
{
}

/// The text of a flag, read back, gives the flag: the display form and the conversion from
/// text undo each other, except for a custom flag whose text names a system flag.
pub proof fn lemma_flag_text_round_trip(f: Flag)
    requires
        !(f is Custom && spec_system_flag(flag_text(f)) is Some),
    ensures
        is_flag_of(f, flag_text(f)),
{
    reveal_strlit("\\Seen");
    reveal_strlit("\\Answered");
    reveal_strlit("\\Flagged");
    reveal_strlit("\\Deleted");
    reveal_strlit("\\Draft");
    reveal_strlit("\\Recent");
    reveal_strlit("\\*");
    assert("\\Seen"@.len() == 5 && "\\Answered"@.len() == 9 && "\\Draft"@.len() == 6);
    assert("\\Recent"@.len() == 7 && "\\*"@.len() == 2 && "\\Deleted"@.len() == 8);
    assert("\\Flagged"@.len() == 8 && "\\Flagged"@[1] != "\\Deleted"@[1]);
    match f {
        Flag::Seen => assert(spec_system_flag("\\Seen"@) == Some(Flag::Seen)),
        Flag::Answered => assert("\\Answered"@ != "\\Seen"@),
        Flag::Flagged => assert("\\Flagged"@ != "\\Answered"@),
        Flag::Deleted => assert("\\Deleted"@ != "\\Flagged"@),
        Flag::Draft => assert("\\Draft"@ != "\\Deleted"@),
        Flag::Recent => assert("\\Recent"@ != "\\Draft"@),
        Flag::MayCreate => assert("\\*"@ != "\\Recent"@),
        Flag::Custom(_) => {},
    }
}

/// Reading a text as a flag and displaying it gives the text back.
pub proof fn lemma_text_flag_round_trip(f: Flag, s: Seq<char>)
    requires
        is_flag_of(f, s),
    ensures
        flag_text(f) == s,
{
}

} // verus!
