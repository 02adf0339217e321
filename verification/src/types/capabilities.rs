//! The capabilities that a server announces.

use crate::error::Result;
use crate::parse::{parse_many_into, passes_on, read_result, split_spec, unilateral};
use crate::response::{ServerCapability, ServerResponse};
use crate::types::UnsolicitedResponse;
use crate::utils::{push_char, str_eq};
use std::collections::VecDeque;
use vstd::prelude::*;
use vstd::string::StringSliceAdditionalSpecFns;

verus! {

/// What a capability names, as text: two capabilities are the same when their names are.
pub enum CapabilityName {
    Imap4rev1,
    Auth(Seq<char>),
    Atom(Seq<char>),
}

/// The name of a capability.
pub open spec fn capability_name(c: ServerCapability) -> CapabilityName {
    match c {
        ServerCapability::Imap4rev1 => CapabilityName::Imap4rev1,
        ServerCapability::Auth(s) => CapabilityName::Auth(s@),
        ServerCapability::Atom(s) => CapabilityName::Atom(s@),
    }
}

/// The names of a list of capabilities.
pub open spec fn capability_names(cs: Seq<ServerCapability>) -> Seq<CapabilityName> {
    cs.map_values(|c: ServerCapability| capability_name(c))
}

/// Whether `r` is a `CAPABILITY` response.
pub open spec fn takes_capabilities() -> spec_fn(ServerResponse) -> bool {
    |r: ServerResponse| r is Capabilities
}

/// The capabilities that the `CAPABILITY` responses of `rs` announce, in order.
pub open spec fn announced(rs: Seq<ServerResponse>) -> Seq<ServerCapability>
    decreases rs.len(),
{
    if rs.len() == 0 {
        seq![]
    } else {
        match rs.last() {
            ServerResponse::Capabilities(cs) => announced(rs.drop_last()) + cs@,
            _ => announced(rs.drop_last()),
        }
    }
}

/// Whether two capabilities are the same.
fn same_capability(a: &ServerCapability, b: &ServerCapability) -> (r: bool)
    ensures
        r == (capability_name(*a) == capability_name(*b)),
{
    match (a, b) {
        (ServerCapability::Imap4rev1, ServerCapability::Imap4rev1) => true,
        (ServerCapability::Auth(x), ServerCapability::Auth(y)) => str_eq(x.as_str(), y.as_str()),
        (ServerCapability::Atom(x), ServerCapability::Atom(y)) => str_eq(x.as_str(), y.as_str()),
        _ => false,
    }
}

/// A copy of a capability.
fn copy_capability(c: &ServerCapability) -> (d: ServerCapability)
    ensures
        capability_name(d) == capability_name(*c),
{
    match c {
        ServerCapability::Imap4rev1 => ServerCapability::Imap4rev1,
        ServerCapability::Auth(s) => ServerCapability::Auth(s.clone()),
        ServerCapability::Atom(s) => ServerCapability::Atom(s.clone()),
    }
}

/// From [section 7.2.1 of RFC 3501](https://tools.ietf.org/html/rfc3501#section-7.2.1).
///
/// A list of capabilities that the server supports.
/// The capability list will include the atom "IMAP4rev1".
///
/// In addition, all servers implement the `STARTTLS`, `LOGINDISABLED`, and `AUTH=PLAIN` (described
/// in [IMAP-TLS](https://tools.ietf.org/html/rfc2595)) capabilities. See the [Security
/// Considerations section of the RFC](https://tools.ietf.org/html/rfc3501#section-11) for
/// important information.
///
/// A capability name which begins with `AUTH=` indicates that the server supports that particular
/// authentication mechanism.
///
/// The `LOGINDISABLED` capability indicates that the `LOGIN` command is disabled, and that the
/// server will respond with a `NO` response to any attempt to use the `LOGIN` command even if
/// the user name and password are valid.  An IMAP client MUST NOT issue the `LOGIN` command if
/// the server advertises the `LOGINDISABLED` capability.
///
/// Other capability names indicate that the server supports an extension, revision, or amendment
/// to the IMAP4rev1 protocol. Capability names either begin with `X` or they are standard or
/// standards-track [RFC 3501](https://tools.ietf.org/html/rfc3501) extensions, revisions, or
/// amendments registered with IANA.
///
/// Client implementations SHOULD NOT require any capability name other than `IMAP4rev1`, and MUST
/// ignore any unknown capability names.
pub struct Capabilities {
    capabilities: Vec<ServerCapability>,
}

impl View for Capabilities {
    type V = Set<CapabilityName>;

    closed spec fn view(&self) -> Set<CapabilityName> {
        capability_names(self.capabilities@).to_set()
    }
}

impl Capabilities {
    /// Each capability is held once.
    #[verifier::type_invariant]
    closed spec fn held_once(&self) -> bool {
        capability_names(self.capabilities@).no_duplicates()
    }

    /// Whether `caps` holds a capability named as `c` is.
    fn holds(caps: &Vec<ServerCapability>, c: &ServerCapability) -> (r: bool)
        ensures
            r == capability_names(caps@).contains(capability_name(*c)),
    {
        let mut i: usize = 0;
        while i < caps.len()
            invariant
                i <= caps@.len(),
                forall|j: int| 0 <= j < i ==> capability_name(#[trigger] caps@[j]) != capability_name(*c),
            decreases caps@.len() - i,
        {
            if same_capability(&caps[i], c) {
                assert(capability_names(caps@)[i as int] == capability_name(*c));
                return true;
            }
            i = i + 1;
        }
        proof {
            if capability_names(caps@).contains(capability_name(*c)) {
                let j = choose|j: int| 0 <= j < capability_names(caps@).len() && capability_names(caps@)[j] == capability_name(*c);
                assert(capability_name(caps@[j]) != capability_name(*c));
            }
        }
        false
    }

    /// Parse the given input into one or more capabilities: the set of those that its
    /// `CAPABILITY` responses announce; every other response is passed on as unsolicited.
    pub fn parse(owned: Vec<u8>, unsolicited: &mut VecDeque<UnsolicitedResponse>) -> (res: Result<
        Capabilities,
    >)
        ensures
            read_result(res, owned@, takes_capabilities(), unilateral()),
            passes_on(final(unsolicited)@, old(unsolicited)@, owned@, takes_capabilities(), unilateral()),
            res matches Ok(c) ==> c@ == capability_names(announced(split_spec(owned@).0)).to_set(),
    {
        let taken = match parse_many_into(
            owned.as_slice(),
            unsolicited,
            Ghost(takes_capabilities()),
            is_capabilities,
        ) {
            Ok(t) => t,
            Err(e) => return Err(e),
        };
        let ghost all = taken@;
        let mut caps: Vec<ServerCapability> = Vec::new();
        for r in it: taken
            invariant
                it.seq() == all,
                capability_names(caps@).no_duplicates(),
                capability_names(caps@).to_set() == capability_names(announced(all.take(it.index() as int))).to_set(),
        {
            let ghost i = it.index() as int;
            proof {
                assert(all.take(i + 1).drop_last() == all.take(i));
                assert(all.take(i + 1).last() == r);
            }
            match r {
                ServerResponse::Capabilities(cs) => {
                    let ghost start = caps@;
                    let ghost listed = cs@;
                    for c in jt: cs
                        invariant
                            jt.seq() == listed,
                            capability_names(caps@).no_duplicates(),
                            capability_names(caps@).to_set() == capability_names(start).to_set()
                                + capability_names(listed.take(jt.index() as int)).to_set(),
                    {
                        let ghost k = jt.index() as int;
                        proof {
                            assert(listed.take(k + 1) == listed.take(k).push(c));
                            assert(capability_names(listed.take(k + 1)) == capability_names(listed.take(k)).push(capability_name(c)));
                            capability_names(listed.take(k)).lemma_push_to_set_commute(capability_name(c));
                        }
                        if !Self::holds(&caps, &c) {
                            let ghost before = caps@;
                            caps.push(c);
                            proof {
                                assert(capability_names(caps@) == capability_names(before).push(capability_name(c)));
                                capability_names(before).lemma_push_to_set_commute(capability_name(c));
                                assert forall|x: int, y: int| 0 <= x < y < capability_names(caps@).len() implies
                                    capability_names(caps@)[x] != capability_names(caps@)[y] by {
                                    if y == capability_names(caps@).len() - 1 {
                                        assert(capability_names(before)[x] == capability_names(caps@)[x]);
                                    } else {
                                        assert(capability_names(before)[x] == capability_names(caps@)[x]);
                                        assert(capability_names(before)[y] == capability_names(caps@)[y]);
                                    }
                                }
                            }
                        } else {
                            proof {
                                assert(capability_names(caps@).to_set().contains(capability_name(c)));
                            }
                        }
                        proof {
                            assert(capability_names(caps@).to_set() =~= capability_names(start).to_set()
                                + capability_names(listed.take(k + 1)).to_set());
                        }
                    }
                    proof {
                        assert(listed.take(listed.len() as int) == listed);
                        assert(capability_names(announced(all.take(i + 1))) == capability_names(announced(all.take(i))) + capability_names(listed));
                        vstd::seq_lib::seq_to_set_distributes_over_add(capability_names(announced(all.take(i))), capability_names(listed));
                    }
                },
                _ => {},
            }
        }
        proof {
            assert(all.take(all.len() as int) == all);
            lemma_announced_filter(split_spec(owned@).0);
        }
        Ok(Capabilities { capabilities: caps })
    }

    /// Check if the server has the given capability.
    pub fn has(&self, cap: &ServerCapability) -> (r: bool)
        ensures
            r == self@.contains(capability_name(*cap)),
    {
        let r = Self::holds(&self.capabilities, cap);
        proof {
            if r {
                assert(capability_names(self.capabilities@).to_set().contains(capability_name(*cap)));
            }
        }
        r
    }

    /// Check if the server has the capability that `cap` names: `IMAP4rev1` (in any case), an
    /// `AUTH=` mechanism (the prefix in any case), or else an atom.
    ///
    /// Where `cap` is longer than five bytes, the fifth byte must end a character.
    pub fn has_str(&self, cap: &str) -> (r: bool)
        requires
            cap.spec_bytes().len() <= 5 || vstd::utf8::is_char_boundary(cap.spec_bytes(), 5),
        ensures
            r == self@.contains(named_capability(cap@)),
    {
        broadcast use vstd::string::group_string_axioms;
        let imap4rev1 = "IMAP4rev1";
        let auth = "AUTH=";
        proof {
            reveal_strlit("IMAP4rev1");
            reveal_strlit("AUTH=");
        }
        if eq_ignore_ascii_case(cap, imap4rev1) {
            return self.has(&ServerCapability::Imap4rev1);
        }
        let ghost v = cap@;
        let mut head = String::new();
        let mut tail = String::new();
        let mut n: usize = 0;
        for c in it: cap.chars()
            invariant
                it.seq() == v,
                n == (if it.index() < 6 { it.index() } else { 6 }),
                it.index() <= 5 ==> head@ == v.take(it.index() as int) && tail@.len() == 0,
                it.index() > 5 ==> head@ == v.take(5) && tail@ == v.subrange(5, it.index() as int),
        {
            let ghost k = it.index() as int;
            if n < 5 {
                push_char(&mut head, c);
            } else {
                push_char(&mut tail, c);
            }
            if n < 6 {
                n = n + 1;
            }
            proof {
                assert(v.take(k + 1) == v.take(k).push(c));
                if k + 1 > 5 {
                    assert(v.subrange(5, k + 1) == v.subrange(5, k).push(c));
                }
            }
        }
        proof {
            assert(v.take(v.len() as int) == v);
        }
        if n > 5 && eq_ignore_ascii_case(head.as_str(), auth) {
            return self.has(&ServerCapability::Auth(tail));
        }
        self.has(&ServerCapability::Atom(cap.to_owned()))
    }

    /// Returns how many capabilities the server has.
    pub fn len(&self) -> (n: usize)
        ensures
            n == self@.len(),
    {
        proof {
            use_type_invariant(self);
            capability_names(self.capabilities@).unique_seq_to_set();
        }
        self.capabilities.len()
    }

    /// Returns true if the server purports to have no capabilities.
    pub fn is_empty(&self) -> (b: bool)
        ensures
            b == (self@.len() == 0),
    {
        proof {
            use_type_invariant(self);
            capability_names(self.capabilities@).unique_seq_to_set();
        }
        self.capabilities.len() == 0
    }

    /// Iterate over all the server's capabilities, each once.
    pub fn iter(&self) -> (it: std::slice::Iter<'_, ServerCapability>)
        ensures
            capability_names(vstd::std_specs::slice::into_iter_elts(it)).to_set() == self@,
            capability_names(vstd::std_specs::slice::into_iter_elts(it)).no_duplicates(),
    {
        broadcast use vstd::std_specs::slice::axiom_spec_slice_iter;
        proof {
            use_type_invariant(self);
        }
        let it = self.capabilities.as_slice().iter();
        assert(vstd::std_specs::slice::into_iter_elts(it) == self.capabilities@);
        it
    }
}

impl Clone for Capabilities {
    fn clone(&self) -> (c: Self)
        ensures
            c@ == self@,
    {
        proof {
            use_type_invariant(self);
        }
        let mut caps: Vec<ServerCapability> = Vec::new();
        let mut i: usize = 0;
        while i < self.capabilities.len()
            invariant
                i <= self.capabilities@.len(),
                capability_names(caps@) == capability_names(self.capabilities@.take(i as int)),
            decreases self.capabilities@.len() - i,
        {
            let d = copy_capability(&self.capabilities[i]);
            let ghost before = caps@;
            caps.push(d);
            proof {
                assert(self.capabilities@.take(i + 1) == self.capabilities@.take(i as int).push(self.capabilities@[i as int]));
                assert(capability_names(caps@) == capability_names(before).push(capability_name(d)));
                assert(capability_names(self.capabilities@.take(i + 1)) == capability_names(self.capabilities@.take(i as int)).push(capability_name(self.capabilities@[i as int])));
            }
            i = i + 1;
        }
        proof {
            assert(self.capabilities@.take(self.capabilities@.len() as int) == self.capabilities@);
        }
        Capabilities { capabilities: caps }
    }
}

/// Whether `r` is a `CAPABILITY` response.
fn is_capabilities(r: &ServerResponse) -> (b: bool)
    ensures
        b == takes_capabilities()(*r),
{
    matches!(r, ServerResponse::Capabilities(_))
}

/// The announced capabilities of the `CAPABILITY` responses among `rs` are those of all of
/// `rs`.
proof fn lemma_announced_filter(rs: Seq<ServerResponse>)
    ensures
        announced(rs.filter(takes_capabilities())) == announced(rs),
    decreases rs.len(),
{
    reveal(Seq::filter);
    if rs.len() > 0 {
        lemma_announced_filter(rs.drop_last());
        let w = takes_capabilities();
        if w(rs.last()) {
            let f = rs.filter(w);
            assert(f.drop_last() == rs.drop_last().filter(w));
            assert(f.last() == rs.last());
        }
    }
}

/// `c` in lower case, where it is an ASCII letter.
pub open spec fn ascii_lower(c: char) -> char {
    if 'A' <= c && c <= 'Z' {
        ((c as u32) + 32) as char
    } else {
        c
    }
}

/// Whether `a` and `b` are the same text when ASCII letters are compared without case.
pub open spec fn same_ignoring_ascii_case(a: Seq<char>, b: Seq<char>) -> bool {
    &&& a.len() == b.len()
    &&& forall|i: int| 0 <= i < a.len() ==> ascii_lower(#[trigger] a[i]) == ascii_lower(b[i])
}

/// `c` in lower case, where it is an ASCII letter.
fn to_ascii_lower(c: char) -> (d: char)
    ensures
        d == ascii_lower(c),
{
    if 'A' <= c && c <= 'Z' {
        ((c as u8) + 32) as char
    } else {
        c
    }
}

/// Whether `a` and `b` are the same text when ASCII letters are compared without case.
pub fn eq_ignore_ascii_case(a: &str, b: &str) -> (r: bool)
    ensures
        r == same_ignoring_ascii_case(a@, b@),
{
    broadcast use vstd::string::group_string_axioms;
    let mut xs: Vec<char> = Vec::new();
    for c in it: a.chars()
        invariant
            xs@ == it.seq().take(it.index() as int),
    {
        xs.push(c);
        assert(it.seq().take(it.index() + 1) == it.seq().take(it.index() as int).push(c));
    }
    let mut ys: Vec<char> = Vec::new();
    for c in it: b.chars()
        invariant
            ys@ == it.seq().take(it.index() as int),
    {
        ys.push(c);
        assert(it.seq().take(it.index() + 1) == it.seq().take(it.index() as int).push(c));
    }
    assert(a@.take(a@.len() as int) == a@);
    assert(b@.take(b@.len() as int) == b@);
    if xs.len() != ys.len() {
        return false;
    }
    let mut i: usize = 0;
    while i < xs.len()
        invariant
            i <= xs@.len(),
            xs@ == a@,
            ys@ == b@,
            xs@.len() == ys@.len(),
            forall|j: int| 0 <= j < i ==> ascii_lower(#[trigger] a@[j]) == ascii_lower(b@[j]),
        decreases xs@.len() - i,
    {
        if to_ascii_lower(xs[i]) != to_ascii_lower(ys[i]) {
            return false;
        }
        i = i + 1;
    }
    true
}

/// The capability that the text `s` names for [`Capabilities::has_str`]: `IMAP4rev1` (in any
/// case), an `AUTH=` mechanism (the prefix in any case, followed by at least one character),
/// or else an atom.
pub open spec fn named_capability(s: Seq<char>) -> CapabilityName {
    if same_ignoring_ascii_case(s, "IMAP4rev1"@) {
        CapabilityName::Imap4rev1
    } else if s.len() > 5 && same_ignoring_ascii_case(s.take(5), "AUTH="@) {
        CapabilityName::Auth(s.skip(5))
    } else {
        CapabilityName::Atom(s)
    }
}

} // verus!
