//! Access control lists (RFC 4314).

use crate::error::{Error, Result};
use crate::parse::{parse_until_done, passes_on, reads_one, unilateral};
use crate::response::{AclData, AclEntryData, AclRight, ListRightsData, MyRightsData, ServerResponse};
use crate::types::UnsolicitedResponse;
use crate::utils::push_char;
use std::collections::VecDeque;
use vstd::prelude::*;
use vstd::std_specs::convert::IntoSpec;

verus! {

/// Specifies how `SETACL` should modify an existing permission set.
#[derive(Debug, Clone, Copy)]
pub enum AclModifyMode {
    /// Replace all ACLs on the identifier for the mailbox
    Replace,
    /// Add the given ACLs to the identifier for the mailbox
    Add,
    /// Remove the given ACLs from the identifier for the mailbox
    Remove,
}

impl From<char> for AclRight {
    fn from(c: char) -> (r: AclRight)
        ensures
            r == AclRight::spec_from_char(c),
    {
        AclRight::from_char(c)
    }
}

impl vstd::std_specs::convert::FromSpecImpl<char> for AclRight {
    open spec fn obeys_from_spec() -> bool {
        true
    }

    open spec fn from_spec(c: char) -> AclRight {
        AclRight::spec_from_char(c)
    }
}

/// The place of a right in the order in which a set holds its rights: by letter, and a custom
/// right after the right of RFC 4314 with the same letter.
pub open spec fn right_rank(r: AclRight) -> int {
    (r.spec_to_char() as int) * 2 + if r is Custom {
        1int
    } else {
        0int
    }
}

/// Whether the ranks of the rights `rs` go up strictly.
pub open spec fn letters_ascend(rs: Seq<AclRight>) -> bool {
    forall|i: int, j: int| 0 <= i < j < rs.len() ==> right_rank(#[trigger] rs[i]) < right_rank(#[trigger] rs[j])
}

/// Two rights of the same rank are the same right.
proof fn lemma_rank_injective(a: AclRight, b: AclRight)
    requires
        right_rank(a) == right_rank(b),
    ensures
        a == b,
{
}

/// The rank of a right, computed.
fn rank(r: AclRight) -> (k: u32)
    ensures
        k == right_rank(r),
{
    let c = r.to_char() as u32;
    match r {
        AclRight::Custom(_) => c * 2 + 1,
        _ => c * 2,
    }
}

/// A set of [`AclRight`]s.
///
/// Used as input for `SETACL`, and as output in [`ListRights`], [`MyRights`], and
/// [`AclEntry`]. The rights are held in the order of their letters, so that two sets of the same
/// rights are equal.
#[derive(Debug, Eq, PartialEq)]
pub struct AclRights {
    data: Vec<AclRight>,
}

impl View for AclRights {
    type V = Set<AclRight>;

    closed spec fn view(&self) -> Set<AclRight> {
        self.data@.to_set()
    }
}

/// Inserts `r` into `v`, whose letters go up strictly, keeping them so; a right already there
/// is not inserted again.
#[verifier::loop_isolation(false)]
fn insert_right(v: &mut Vec<AclRight>, r: AclRight)
    requires
        letters_ascend(old(v)@),
    ensures
        letters_ascend(final(v)@),
        final(v)@.to_set() == old(v)@.to_set().insert(r),
{
    let c = rank(r);
    let mut p: usize = 0;
    while p < v.len()
        invariant
            p <= v@.len(),
            forall|j: int| 0 <= j < p ==> right_rank(#[trigger] v@[j]) < c,
        decreases v@.len() - p,
    {
        let d = rank(v[p]);
        if d == c {
            proof {
                lemma_rank_injective(v@[p as int], r);
                assert(v@.to_set().contains(v@[p as int]));
                assert(v@.to_set().insert(r) =~= v@.to_set());
            }
            return;
        }
        if c < d {
            break;
        }
        p = p + 1;
    }
    let ghost before = v@;
    v.insert(p, r);
    proof {
        assert forall|i: int, j: int| 0 <= i < j < v@.len() implies right_rank(#[trigger] v@[i]) < right_rank(#[trigger] v@[j]) by {
            if j < p {
                assert(v@[i] == before[i] && v@[j] == before[j]);
            } else if j == p {
                assert(v@[i] == before[i]);
            } else if i < p {
                assert(v@[i] == before[i] && v@[j] == before[j - 1]);
            } else if i == p {
                assert(v@[j] == before[j - 1]);
            } else {
                assert(v@[i] == before[i - 1] && v@[j] == before[j - 1]);
            }
        }
        assert forall|x: AclRight| v@.to_set().contains(x) <==> before.to_set().insert(r).contains(x) by {
            if v@.to_set().contains(x) {
                let k = choose|k: int| 0 <= k < v@.len() && v@[k] == x;
                if k < p {
                    assert(before[k] == x);
                } else if k > p {
                    assert(before[k - 1] == x);
                }
            }
            if before.to_set().contains(x) {
                let k = choose|k: int| 0 <= k < before.len() && before[k] == x;
                if k < p {
                    assert(v@[k] == x);
                } else {
                    assert(v@[k + 1] == x);
                }
            }
            if x == r {
                assert(v@[p as int] == r);
            }
        }
        assert(v@.to_set() =~= before.to_set().insert(r));
    }
}

impl AclRights {
    /// The letters of these rights in the order in which [`AclRights::to_string`] writes them.
    pub closed spec fn rights_text(&self) -> Seq<char> {
        letters(self.data@)
    }

    /// The rights are held once each, in the order of their letters.
    #[verifier::type_invariant]
    closed spec fn letters_in_order(&self) -> bool {
        letters_ascend(self.data@)
    }

    /// The set of the rights `v`.
    pub fn from_rights(v: Vec<AclRight>) -> (r: AclRights)
        ensures
            r@ == v@.to_set(),
    {
        let mut data: Vec<AclRight> = Vec::new();
        let mut i: usize = 0;
        proof {
            assert(data@.to_set() =~= v@.take(0).to_set());
        }
        while i < v.len()
            invariant
                i <= v@.len(),
                letters_ascend(data@),
                data@.to_set() == v@.take(i as int).to_set(),
            decreases v@.len() - i,
        {
            insert_right(&mut data, v[i]);
            proof {
                assert(v@.take(i + 1) == v@.take(i as int).push(v@[i as int]));
                v@.take(i as int).lemma_push_to_set_commute(v@[i as int]);
            }
            i = i + 1;
        }
        proof {
            assert(v@.take(v@.len() as int) == v@);
        }
        AclRights { data }
    }

    /// Returns true if the AclRights has the provided ACL (either as a char or an AclRight enum)
    #[verifier::loop_isolation(false)]
    pub fn contains<T: Into<AclRight>>(&self, right: T) -> (b: bool)
        ensures
            T::obeys_into_spec() ==> b == self@.contains(right.into_spec()),
    {
        let r: AclRight = right.into();
        let mut i: usize = 0;
        while i < self.data.len()
            invariant
                i <= self.data@.len(),
                forall|j: int| 0 <= j < i ==> #[trigger] self.data@[j] != r,
            decreases self.data@.len() - i,
        {
            if self.data[i] == r {
                assert(self.data@.to_set().contains(self.data@[i as int]));
                return true;
            }
            i = i + 1;
        }
        proof {
            if self.data@.to_set().contains(r) {
                let k = choose|k: int| 0 <= k < self.data@.len() && self.data@[k] == r;
                assert(self.data@[k] != r);
            }
        }
        false
    }

    /// The letters of these rights, in ascending order: each letter as many times as there
    /// are rights with that letter.
    pub fn to_string(&self) -> (s: String)
        ensures
            s@ == self.rights_text(),
            letters_sorted(s@),
            forall|x: char| #[trigger] s@.to_multiset().count(x) == self@.filter(|r: AclRight| r.spec_to_char() == x).len(),
    {
        proof {
            use_type_invariant(self);
        }
        let mut s = String::new();
        let mut i: usize = 0;
        while i < self.data.len()
            invariant
                i <= self.data@.len(),
                letters_ascend(self.data@),
                s@ == self.data@.take(i as int).map_values(|r: AclRight| r.spec_to_char()),
            decreases self.data@.len() - i,
        {
            push_char(&mut s, self.data[i].to_char());
            assert(self.data@.take(i + 1) == self.data@.take(i as int).push(self.data@[i as int]));
            i = i + 1;
        }
        proof {
            assert(self.data@.take(self.data@.len() as int) == self.data@);
            lemma_letters_sorted(self.data@);
            assert forall|x: char| #[trigger] s@.to_multiset().count(x) == self@.filter(|r: AclRight| r.spec_to_char() == x).len() by {
                lemma_letter_count(self.data@, x);
            }
        }
        s
    }

    /// Parses a string of right letters: the rights they name, where every letter is an ASCII
    /// lower case letter or digit, else [`AclRightError::InvalidRight`].
    #[verifier::loop_isolation(false)]
    pub fn parse_rights(input: &str) -> (res: core::result::Result<AclRights, AclRightError>)
        ensures
            match res {
                Ok(r) => rights_letters_ok(input@) && r@ == input@.map_values(|c: char| AclRight::spec_from_char(c)).to_set(),
                Err(_) => !rights_letters_ok(input@),
            },
    {
        broadcast use vstd::string::group_string_axioms;
        let ghost v = input@;
        let mut rights: Vec<AclRight> = Vec::new();
        for c in it: input.chars()
            invariant
                it.seq() == v,
                forall|j: int| 0 <= j < it.index() ==> is_right_letter(#[trigger] v[j]),
                rights@ == v.take(it.index() as int).map_values(|c: char| AclRight::spec_from_char(c)),
        {
            let ghost k = it.index() as int;
            if !(('a' <= c && c <= 'z') || ('0' <= c && c <= '9')) {
                assert(v[k] == c);
                assert(!is_right_letter(v[k]));
                return Err(AclRightError::InvalidRight);
            }
            rights.push(AclRight::from_char(c));
            assert(v.take(k + 1) == v.take(k).push(c));
        }
        proof {
            assert(v.take(v.len() as int) == v);
        }
        Ok(AclRights::from_rights(rights))
    }
}

impl Clone for AclRights {
    fn clone(&self) -> (c: Self)
        ensures
            c@ == self@,
    {
        proof {
            use_type_invariant(self);
        }
        let mut data: Vec<AclRight> = Vec::new();
        let mut i: usize = 0;
        while i < self.data.len()
            invariant
                i <= self.data@.len(),
                letters_ascend(self.data@),
                data@ == self.data@.take(i as int),
            decreases self.data@.len() - i,
        {
            data.push(self.data[i]);
            assert(self.data@.take(i + 1) == self.data@.take(i as int).push(self.data@[i as int]));
            i = i + 1;
        }
        assert(self.data@.take(self.data@.len() as int) == self.data@);
        AclRights { data }
    }
}

/// Whether the letters of `s` do not go down.
pub open spec fn letters_sorted(s: Seq<char>) -> bool {
    forall|i: int, j: int| 0 <= i < j < s.len() ==> #[trigger] s[i] <= #[trigger] s[j]
}

/// The letters of the rights `rs`.
pub open spec fn letters(rs: Seq<AclRight>) -> Seq<char> {
    rs.map_values(|r: AclRight| r.spec_to_char())
}

/// Rights in order of rank have their letters in order.
proof fn lemma_letters_sorted(rs: Seq<AclRight>)
    requires
        letters_ascend(rs),
    ensures
        letters_sorted(letters(rs)),
{
    assert forall|i: int, j: int| 0 <= i < j < letters(rs).len() implies #[trigger] letters(rs)[i] <= #[trigger] letters(rs)[j] by {
        assert(right_rank(rs[i]) < right_rank(rs[j]));
    }
}

/// The number of times a letter occurs among the letters of distinct rights is the number of
/// those rights with that letter.
proof fn lemma_letter_count(rs: Seq<AclRight>, x: char)
    requires
        letters_ascend(rs),
    ensures
        letters(rs).to_multiset().count(x) == rs.to_set().filter(|r: AclRight| r.spec_to_char() == x).len(),
    decreases rs.len(),
{
    broadcast use vstd::multiset::group_multiset_axioms, vstd::seq_lib::group_to_multiset_ensures;
    let f = |r: AclRight| r.spec_to_char() == x;
    if rs.len() == 0 {
        assert(letters(rs) =~= Seq::<char>::empty());
        assert(rs.to_set().filter(f) =~= Set::<AclRight>::empty());
    } else {
        let init = rs.drop_last();
        let last = rs.last();
        assert(letters_ascend(init)) by {
            assert forall|i: int, j: int| 0 <= i < j < init.len() implies right_rank(#[trigger] init[i]) < right_rank(#[trigger] init[j]) by {
                assert(init[i] == rs[i] && init[j] == rs[j]);
            }
        }
        lemma_letter_count(init, x);
        assert(letters(rs) == letters(init).push(last.spec_to_char()));
        assert(rs == init.push(last));
        init.lemma_push_to_set_commute(last);
        assert(!init.to_set().contains(last)) by {
            if init.to_set().contains(last) {
                let k = choose|k: int| 0 <= k < init.len() && init[k] == last;
                assert(right_rank(rs[k]) < right_rank(rs[rs.len() - 1]));
            }
        }
        init.to_set().lemma_len_filter(f);
        if f(last) {
            assert(rs.to_set().filter(f) =~= init.to_set().filter(f).insert(last));
        } else {
            assert(rs.to_set().filter(f) =~= init.to_set().filter(f));
        }
    }
}

/// Whether the letter of `r` may name a right and names `r` itself (not so of a custom right
/// whose letter is that of a right of RFC 4314, nor of one whose letter is not a lower case
/// letter or digit).
pub open spec fn named_by_letter(r: AclRight) -> bool {
    is_right_letter(r.spec_to_char()) && AclRight::spec_from_char(r.spec_to_char()) == r
}

/// Writing a set of rights as letters ([`AclRights::to_string`]) and reading the letters back
/// ([`AclRights::parse_rights`]) gives the same set, when each right is named by its letter.
pub proof fn lemma_rights_text_round_trip(r: AclRights)
    requires
        forall|x: AclRight| #[trigger] r@.contains(x) ==> named_by_letter(x),
    ensures
        rights_letters_ok(r.rights_text()),
        r.rights_text().map_values(|c: char| AclRight::spec_from_char(c)).to_set() == r@,
{
    let d = r.data@;
    assert forall|i: int| 0 <= i < d.len() implies named_by_letter(#[trigger] d[i]) by {
        assert(d.to_set().contains(d[i]));
        assert(r@.contains(d[i]));
    }
    let back = r.rights_text().map_values(|c: char| AclRight::spec_from_char(c));
    assert(back =~= d);
}

/// Whether `c` may name a right: an ASCII lower case letter or digit.
pub open spec fn is_right_letter(c: char) -> bool {
    ('a' <= c && c <= 'z') || ('0' <= c && c <= '9')
}

/// Whether every letter of `s` may name a right.
pub open spec fn rights_letters_ok(s: Seq<char>) -> bool {
    forall|i: int| 0 <= i < s.len() ==> is_right_letter(#[trigger] s[i])
}

impl From<Vec<AclRight>> for AclRights {
    fn from(vec: Vec<AclRight>) -> (r: AclRights)
        ensures
            r@ == vec@.to_set(),
    {
        AclRights::from_rights(vec)
    }
}

impl vstd::std_specs::convert::FromSpecImpl<Vec<AclRight>> for AclRights {
    open spec fn obeys_from_spec() -> bool {
        false
    }

    open spec fn from_spec(vec: Vec<AclRight>) -> AclRights {
        arbitrary()
    }
}

impl TryFrom<&str> for AclRights {
    type Error = AclRightError;

    fn try_from(input: &str) -> (res: core::result::Result<Self, Self::Error>)
        ensures
            match res {
                Ok(r) => rights_letters_ok(input@) && r@ == input@.map_values(|c: char| AclRight::spec_from_char(c)).to_set(),
                Err(_) => !rights_letters_ok(input@),
            },
    {
        AclRights::parse_rights(input)
    }
}

impl vstd::std_specs::convert::TryFromSpecImpl<&str> for AclRights {
    open spec fn obeys_try_from_spec() -> bool {
        false
    }

    open spec fn try_from_spec(input: &str) -> core::result::Result<AclRights, AclRightError> {
        arbitrary()
    }
}

/// Error from parsing AclRight strings
#[derive(Debug, Eq, PartialEq)]
#[non_exhaustive]
pub enum AclRightError {
    /// Returned when a non-lower-case alpha numeric is provided in the rights list string.
    InvalidRight,
}

impl AclRightError {
    /// The message of this error.
    pub fn to_string(&self) -> (s: String)
        ensures
            s@ == "Rights may only be lowercase alpha numeric characters"@,
    {
        "Rights may only be lowercase alpha numeric characters".to_owned()
    }
}


/// From [section 3.6 of RFC 4313](https://datatracker.ietf.org/doc/html/rfc4314#section-3.6).
///
/// The list of identifiers and rights for the [`Acl`] response
#[derive(Debug, Eq, PartialEq, Clone)]
#[non_exhaustive]
pub struct AclEntry {
    /// The user identifier the rights are for
    pub identifier: String,
    /// the rights for the provided identifier
    pub rights: AclRights,
}

/// From [section 3.6 of RFC 4313](https://datatracker.ietf.org/doc/html/rfc4314#section-3.6).
///
/// Used by [`AclResponse`].
#[derive(Debug, Eq, PartialEq)]
pub struct Acl {
    /// The mailbox the ACL Entries belong to
    pub mailbox: String,
    /// The list of identifier/rights pairs for the mailbox
    pub acls: Vec<AclEntry>,
}

impl Acl {
    /// Return the mailbox the ACL entries belong to
    pub fn mailbox(&self) -> (s: &str)
        ensures
            s@ == self.mailbox@,
    {
        self.mailbox.as_str()
    }

    /// Returns a list of identifier/rights pairs for the mailbox
    pub fn acls(&self) -> (a: &[AclEntry])
        ensures
            a@ == self.acls@,
    {
        self.acls.as_slice()
    }
}

/// Whether the entry `e` stands for the identifier and rights `d`.
pub open spec fn is_entry_of(e: AclEntry, d: AclEntryData) -> bool {
    e.identifier == d.identifier && e.rights@ == d.rights@.to_set()
}

/// Whether `a` is the ACL that the `ACL` response data `d` describes.
pub open spec fn is_acl_of(a: Acl, d: AclData) -> bool {
    &&& a.mailbox == d.mailbox
    &&& a.acls@.len() == d.acls@.len()
    &&& forall|i: int| 0 <= i < a.acls@.len() ==> #[trigger] is_entry_of(a.acls@[i], d.acls@[i])
}

/// Whether `r` is an `ACL` response.
pub open spec fn takes_acl() -> spec_fn(ServerResponse) -> bool {
    |r: ServerResponse| r is Acl
}

fn is_acl(r: &ServerResponse) -> (b: bool)
    ensures
        b == takes_acl()(*r),
{
    matches!(r, ServerResponse::Acl(_))
}

/// The ACL that the `ACL` response data `d` describes.
fn acl_of(d: AclData) -> (a: Acl)
    ensures
        is_acl_of(a, d),
{
    let mut acls: Vec<AclEntry> = Vec::new();
    let ghost entries = d.acls@;
    for e in it: d.acls
        invariant
            it.seq() == entries,
            acls@.len() == it.index(),
            forall|i: int| 0 <= i < it.index() ==> #[trigger] is_entry_of(acls@[i], entries[i]),
    {
        let entry = AclEntry { identifier: e.identifier, rights: AclRights::from_rights(e.rights) };
        acls.push(entry);
    }
    Acl { mailbox: d.mailbox, acls }
}

/// From [section 3.6 of RFC 4313](https://datatracker.ietf.org/doc/html/rfc4314#section-3.6).
///
/// This is a wrapper around a single [`Acl`]: the reply to `GETACL`.
pub struct AclResponse {
    acl: Acl,
}

impl AclResponse {
    /// Parse the given input into a [`Acl`] response: the ACL of its one `ACL` response
    /// ([`reads_one`]); every other response is passed on as unsolicited.
    pub fn parse(owned: Vec<u8>, unsolicited: &mut VecDeque<UnsolicitedResponse>) -> (res: Result<
        AclResponse,
    >)
        ensures
            passes_on(final(unsolicited)@, old(unsolicited)@, owned@, takes_acl(), unilateral()),
            match res {
                Ok(x) => exists|r: AclData| #[trigger] reads_one(Ok(ServerResponse::Acl(r)), owned@, takes_acl()) && is_acl_of(x.parsed_spec(), r),
                Err(e) => reads_one(Err(e), owned@, takes_acl()),
            },
    {
        match parse_until_done(owned.as_slice(), unsolicited, Ghost(takes_acl()), is_acl) {
            Ok(ServerResponse::Acl(a)) => {
                let ghost d = a;
                let x = AclResponse { acl: acl_of(a) };
                assert(reads_one(Ok(ServerResponse::Acl(d)), owned@, takes_acl()) && is_acl_of(x.parsed_spec(), d));
                Ok(x)
            },
            Ok(other) => {
                proof {
                    crate::parse::split_spec(owned@).0.lemma_filter_pred(takes_acl(), 0);
                    assert(crate::parse::split_spec(owned@).0.filter(takes_acl())[0] == other);
                    assert(false);
                }
                Err(Error::Unexpected(other))
            },
            Err(e) => Err(e),
        }
    }

    /// The wrapped ACL.
    pub closed spec fn parsed_spec(&self) -> Acl {
        self.acl
    }

    /// Access to the wrapped [`Acl`] struct
    pub fn parsed(&self) -> (a: &Acl)
        ensures
            *a == self.parsed_spec(),
    {
        &self.acl
    }
}

/// From [section 3.7 of RFC 4313](https://datatracker.ietf.org/doc/html/rfc4314#section-3.7).
///
/// Used by [`ListRightsResponse`].
#[derive(Debug, Eq, PartialEq)]
pub struct ListRights {
    /// The mailbox for the rights
    pub mailbox: String,
    /// The user identifier for the rights
    pub identifier: String,
    /// The set of rights that are always provided for this identifier
    pub required: AclRights,
    /// The set of rights that can be granted to the identifier
    pub optional: AclRights,
}

impl ListRights {
    /// Returns the mailbox for the rights
    pub fn mailbox(&self) -> (s: &str)
        ensures
            s@ == self.mailbox@,
    {
        self.mailbox.as_str()
    }

    /// Returns the user identifier for the rights
    pub fn identifier(&self) -> (s: &str)
        ensures
            s@ == self.identifier@,
    {
        self.identifier.as_str()
    }

    /// Returns the set of rights that are always provided for this identifier
    pub fn required(&self) -> (r: &AclRights)
        ensures
            *r == self.required,
    {
        &self.required
    }

    /// Returns the set of rights that can be granted to the identifier
    pub fn optional(&self) -> (r: &AclRights)
        ensures
            *r == self.optional,
    {
        &self.optional
    }
}

/// Whether `l` is what the `LISTRIGHTS` response data `d` describes.
pub open spec fn is_list_rights_of(l: ListRights, d: ListRightsData) -> bool {
    &&& l.mailbox == d.mailbox
    &&& l.identifier == d.identifier
    &&& l.required@ == d.required@.to_set()
    &&& l.optional@ == d.optional@.to_set()
}

/// Whether `r` is a `LISTRIGHTS` response.
pub open spec fn takes_list_rights() -> spec_fn(ServerResponse) -> bool {
    |r: ServerResponse| r is ListRights
}

fn is_list_rights(r: &ServerResponse) -> (b: bool)
    ensures
        b == takes_list_rights()(*r),
{
    matches!(r, ServerResponse::ListRights(_))
}

/// From [section 3.7 of RFC 4313](https://datatracker.ietf.org/doc/html/rfc4314#section-3.7).
///
/// This is a wrapper around a single [`ListRights`]: the reply to `LISTRIGHTS`.
pub struct ListRightsResponse {
    rights: ListRights,
}

impl ListRightsResponse {
    /// Parse the given input into a [`ListRights`] response: the rights of its one
    /// `LISTRIGHTS` response ([`reads_one`]); every other response is passed on as unsolicited.
    pub fn parse(owned: Vec<u8>, unsolicited: &mut VecDeque<UnsolicitedResponse>) -> (res: Result<
        ListRightsResponse,
    >)
        ensures
            passes_on(final(unsolicited)@, old(unsolicited)@, owned@, takes_list_rights(), unilateral()),
            match res {
                Ok(x) => exists|r: ListRightsData| #[trigger] reads_one(Ok(ServerResponse::ListRights(r)), owned@, takes_list_rights())
                    && is_list_rights_of(x.parsed_spec(), r),
                Err(e) => reads_one(Err(e), owned@, takes_list_rights()),
            },
    {
        match parse_until_done(owned.as_slice(), unsolicited, Ghost(takes_list_rights()), is_list_rights) {
            Ok(ServerResponse::ListRights(l)) => {
                let ghost d = l;
                let x = ListRightsResponse {
                    rights: ListRights {
                        mailbox: l.mailbox,
                        identifier: l.identifier,
                        required: AclRights::from_rights(l.required),
                        optional: AclRights::from_rights(l.optional),
                    },
                };
                assert(reads_one(Ok(ServerResponse::ListRights(d)), owned@, takes_list_rights()) && is_list_rights_of(x.parsed_spec(), d));
                Ok(x)
            },
            Ok(other) => {
                proof {
                    crate::parse::split_spec(owned@).0.lemma_filter_pred(takes_list_rights(), 0);
                    assert(crate::parse::split_spec(owned@).0.filter(takes_list_rights())[0] == other);
                    assert(false);
                }
                Err(Error::Unexpected(other))
            },
            Err(e) => Err(e),
        }
    }

    /// The wrapped rights.
    pub closed spec fn parsed_spec(&self) -> ListRights {
        self.rights
    }

    /// Access to the wrapped [`ListRights`] struct
    pub fn parsed(&self) -> (r: &ListRights)
        ensures
            *r == self.parsed_spec(),
    {
        &self.rights
    }
}

/// From [section 3.8 of RFC 4313](https://datatracker.ietf.org/doc/html/rfc4314#section-3.8).
///
/// Used by [`MyRightsResponse`].
#[derive(Debug, Eq, PartialEq)]
pub struct MyRights {
    /// The mailbox for the rights
    pub mailbox: String,
    /// The rights for the mailbox
    pub rights: AclRights,
}

impl MyRights {
    /// Returns the mailbox for the rights
    pub fn mailbox(&self) -> (s: &str)
        ensures
            s@ == self.mailbox@,
    {
        self.mailbox.as_str()
    }

    /// Returns the rights for the mailbox
    pub fn rights(&self) -> (r: &AclRights)
        ensures
            *r == self.rights,
    {
        &self.rights
    }
}

/// Whether `m` is what the `MYRIGHTS` response data `d` describes.
pub open spec fn is_my_rights_of(m: MyRights, d: MyRightsData) -> bool {
    m.mailbox == d.mailbox && m.rights@ == d.rights@.to_set()
}

/// Whether `r` is a `MYRIGHTS` response.
pub open spec fn takes_my_rights() -> spec_fn(ServerResponse) -> bool {
    |r: ServerResponse| r is MyRights
}

fn is_my_rights(r: &ServerResponse) -> (b: bool)
    ensures
        b == takes_my_rights()(*r),
{
    matches!(r, ServerResponse::MyRights(_))
}

/// From [section 3.8 of RFC 4313](https://datatracker.ietf.org/doc/html/rfc4314#section-3.8).
///
/// This is a wrapper around a single [`MyRights`]: the reply to `MYRIGHTS`.
pub struct MyRightsResponse {
    rights: MyRights,
}

impl MyRightsResponse {
    /// Parse the given input into a [`MyRights`] response: the rights of its one `MYRIGHTS`
    /// response ([`reads_one`]); every other response is passed on as unsolicited.
    pub fn parse(owned: Vec<u8>, unsolicited: &mut VecDeque<UnsolicitedResponse>) -> (res: Result<
        MyRightsResponse,
    >)
        ensures
            passes_on(final(unsolicited)@, old(unsolicited)@, owned@, takes_my_rights(), unilateral()),
            match res {
                Ok(x) => exists|r: MyRightsData| #[trigger] reads_one(Ok(ServerResponse::MyRights(r)), owned@, takes_my_rights())
                    && is_my_rights_of(x.parsed_spec(), r),
                Err(e) => reads_one(Err(e), owned@, takes_my_rights()),
            },
    {
        match parse_until_done(owned.as_slice(), unsolicited, Ghost(takes_my_rights()), is_my_rights) {
            Ok(ServerResponse::MyRights(m)) => {
                let ghost d = m;
                let x = MyRightsResponse {
                    rights: MyRights { mailbox: m.mailbox, rights: AclRights::from_rights(m.rights) },
                };
                assert(reads_one(Ok(ServerResponse::MyRights(d)), owned@, takes_my_rights()) && is_my_rights_of(x.parsed_spec(), d));
                Ok(x)
            },
            Ok(other) => {
                proof {
                    crate::parse::split_spec(owned@).0.lemma_filter_pred(takes_my_rights(), 0);
                    assert(crate::parse::split_spec(owned@).0.filter(takes_my_rights())[0] == other);
                    assert(false);
                }
                Err(Error::Unexpected(other))
            },
            Err(e) => Err(e),
        }
    }

    /// The wrapped rights.
    pub closed spec fn parsed_spec(&self) -> MyRights {
        self.rights
    }

    /// Access to the wrapped [`MyRights`] struct
    pub fn parsed(&self) -> (r: &MyRights)
        ensures
            *r == self.parsed_spec(),
    {
        &self.rights
    }
}

} // verus!
