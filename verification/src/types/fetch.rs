//! The data that `FETCH` responses carry about messages.

use super::flag::{are_flags_of, Flag};
use crate::error::Result;
use crate::parse::{parse_many_into, passes_on, read_result, split_spec, unilateral};
use crate::response::{FetchAttribute, MessageEnvelope, SectionPart, SectionSpec, ServerResponse};
use crate::types::UnsolicitedResponse;
use std::collections::VecDeque;
use vstd::prelude::*;

verus! {

/// A date and time: the instant, in seconds since the Unix epoch, and the offset from UTC, in
/// seconds, at which it was written.
#[derive(Debug, Clone, Copy, PartialEq, Eq)]
pub struct InternalDate {
    /// Seconds since 1970-01-01 00:00:00 UTC.
    pub timestamp: i64,
    /// The offset from UTC, in seconds east.
    pub utc_offset: i32,
}

/// What `chrono::DateTime::parse_from_str` makes of a text with RFC 3501's `date-time` format
/// `%d-%b-%Y %H:%M:%S %z`: the instant and the offset, if the text is such a date and time.
pub uninterp spec fn chrono_date_time(text: Seq<char>) -> Option<(i64, i32)>;

/// The date and time that a text names ([`chrono_date_time`]).
pub open spec fn date_time_of(text: Seq<char>) -> Option<InternalDate> {
    match chrono_date_time(text) {
        Some((timestamp, utc_offset)) => Some(InternalDate { timestamp, utc_offset }),
        None => None,
    }
}

/// Reads a date and time with `chrono::DateTime::parse_from_str` and the format of RFC 3501's
/// `date-time`, `%d-%b-%Y %H:%M:%S %z`. The contract claims that the outcome depends on the
/// text alone; which date it is, is not stated.
#[verifier::external_body]
fn parse_date_time(text: &str) -> (d: Option<(i64, i32)>)
    ensures
        d == chrono_date_time(text@),
{
    match chrono::DateTime::parse_from_str(text, "%d-%b-%Y %H:%M:%S %z") {
        Ok(t) => Some((t.timestamp(), t.offset().local_minus_utc())),
        Err(_) => None,
    }
}

/// An IMAP [`FETCH` response](https://tools.ietf.org/html/rfc3501#section-7.4.2) that contains
/// data about a particular message. This response occurs as the result of a `FETCH` or `STORE`
/// command, as well as by unilateral server decision (e.g., flag updates).
#[derive(Debug, Eq, PartialEq)]
pub struct Fetch {
    /// The ordinal number of this message in its containing mailbox.
    pub message: u32,
    /// A number expressing the unique identifier of the message.
    /// Only present if `UID` was specified in the query argument to `FETCH` and the server
    /// supports UIDs.
    pub uid: Option<u32>,
    /// A number expressing the [RFC-2822](https://tools.ietf.org/html/rfc2822) size of the message.
    /// Only present if `RFC822.SIZE` was specified in the query argument to `FETCH`.
    pub size: Option<u32>,
    /// The data items of the response.
    pub fetch: Vec<FetchAttribute>,
    /// The flags of the `FLAGS` data items.
    pub flags: Vec<Flag>,
}

/// The texts of the `FLAGS` data items of `attrs`, in order.
pub open spec fn flag_texts_of(attrs: Seq<FetchAttribute>) -> Seq<String>
    decreases attrs.len(),
{
    if attrs.len() == 0 {
        seq![]
    } else {
        match attrs.last() {
            FetchAttribute::Flags(ss) => flag_texts_of(attrs.drop_last()) + ss@,
            _ => flag_texts_of(attrs.drop_last()),
        }
    }
}

/// The last `UID` data item of `attrs`, if any.
pub open spec fn uid_of(attrs: Seq<FetchAttribute>) -> Option<u32>
    decreases attrs.len(),
{
    if attrs.len() == 0 {
        None
    } else {
        match attrs.last() {
            FetchAttribute::Uid(u) => Some(u),
            _ => uid_of(attrs.drop_last()),
        }
    }
}

/// The last `RFC822.SIZE` data item of `attrs`, if any.
pub open spec fn size_of(attrs: Seq<FetchAttribute>) -> Option<u32>
    decreases attrs.len(),
{
    if attrs.len() == 0 {
        None
    } else {
        match attrs.last() {
            FetchAttribute::Rfc822Size(s) => Some(s),
            _ => size_of(attrs.drop_last()),
        }
    }
}

/// The size of a fetch is that of its last `RFC822.SIZE` data item: where the items hold one,
/// the size is the number of the last; where they hold none, there is no size.
pub proof fn lemma_size_is_last_size_item(attrs: Seq<FetchAttribute>)
    ensures
        (forall|j: int| 0 <= j < attrs.len() ==> !(#[trigger] attrs[j] is Rfc822Size)) ==> size_of(attrs) is None,
        forall|i: int|
            0 <= i < attrs.len() && (#[trigger] attrs[i] is Rfc822Size) && (forall|j: int|
                i < j < attrs.len() ==> !(#[trigger] attrs[j] is Rfc822Size)) ==> size_of(attrs) == Some(
                attrs[i]->Rfc822Size_0,
            ),
    decreases attrs.len(),
{
    if attrs.len() > 0 {
        let init = attrs.drop_last();
        lemma_size_is_last_size_item(init);
        assert forall|i: int|
            0 <= i < attrs.len() && (#[trigger] attrs[i] is Rfc822Size) && (forall|j: int|
                i < j < attrs.len() ==> !(#[trigger] attrs[j] is Rfc822Size)) implies size_of(attrs) == Some(
                attrs[i]->Rfc822Size_0,
            ) by {
            if i < attrs.len() - 1 {
                assert(!(attrs[attrs.len() - 1] is Rfc822Size));
                assert(init[i] == attrs[i]);
                assert forall|j: int| i < j < init.len() implies !(#[trigger] init[j] is Rfc822Size) by {
                    assert(init[j] == attrs[j]);
                }
            }
        }
        if forall|j: int| 0 <= j < attrs.len() ==> !(#[trigger] attrs[j] is Rfc822Size) {
            assert(!(attrs[attrs.len() - 1] is Rfc822Size));
            assert forall|j: int| 0 <= j < init.len() implies !(#[trigger] init[j] is Rfc822Size) by {
                assert(init[j] == attrs[j]);
            }
        }
    }
}

/// The UID of a fetch is that of its last `UID` data item: where the items hold one, the UID is
/// the number of the last; where they hold none, there is no UID.
pub proof fn lemma_uid_is_last_uid_item(attrs: Seq<FetchAttribute>)
    ensures
        (forall|j: int| 0 <= j < attrs.len() ==> !(#[trigger] attrs[j] is Uid)) ==> uid_of(attrs) is None,
        forall|i: int|
            0 <= i < attrs.len() && (#[trigger] attrs[i] is Uid) && (forall|j: int|
                i < j < attrs.len() ==> !(#[trigger] attrs[j] is Uid)) ==> uid_of(attrs) == Some(
                attrs[i]->Uid_0,
            ),
    decreases attrs.len(),
{
    if attrs.len() > 0 {
        let init = attrs.drop_last();
        lemma_uid_is_last_uid_item(init);
        assert forall|i: int|
            0 <= i < attrs.len() && (#[trigger] attrs[i] is Uid) && (forall|j: int|
                i < j < attrs.len() ==> !(#[trigger] attrs[j] is Uid)) implies uid_of(attrs) == Some(
                attrs[i]->Uid_0,
            ) by {
            if i < attrs.len() - 1 {
                assert(!(attrs[attrs.len() - 1] is Uid));
                assert(init[i] == attrs[i]);
                assert forall|j: int| i < j < init.len() implies !(#[trigger] init[j] is Uid) by {
                    assert(init[j] == attrs[j]);
                }
            }
        }
        if forall|j: int| 0 <= j < attrs.len() ==> !(#[trigger] attrs[j] is Uid) {
            assert(!(attrs[attrs.len() - 1] is Uid));
            assert forall|j: int| 0 <= j < init.len() implies !(#[trigger] init[j] is Uid) by {
                assert(init[j] == attrs[j]);
            }
        }
    }
}

/// The flags of a fetch are read from the texts of its `FLAGS` data items: appending a
/// `FLAGS` item appends its texts, and any other item adds none.
pub proof fn lemma_flag_texts_append(attrs: Seq<FetchAttribute>, a: FetchAttribute)
    ensures
        flag_texts_of(attrs.push(a)) == match a {
            FetchAttribute::Flags(ss) => flag_texts_of(attrs) + ss@,
            _ => flag_texts_of(attrs),
        },
        flag_texts_of(seq![]) == Seq::<String>::empty(),
{
    assert(attrs.push(a).drop_last() == attrs);
}

/// Whether `f` is the fetch that the `FETCH` response `r` describes: its number and data items,
/// the flags of its `FLAGS` items, and its last `UID` and `RFC822.SIZE` items.
pub open spec fn is_fetch_of(f: Fetch, r: ServerResponse) -> bool {
    match r {
        ServerResponse::Fetch(n, attrs) => {
            &&& f.message == n
            &&& f.fetch == attrs
            &&& are_flags_of(f.flags@, flag_texts_of(attrs@))
            &&& f.uid == uid_of(attrs@)
            &&& f.size == size_of(attrs@)
        },
        _ => false,
    }
}

/// Whether `r` is a `FETCH` response.
pub open spec fn takes_fetches() -> spec_fn(ServerResponse) -> bool {
    |r: ServerResponse| r is Fetch
}

/// Whether `r` is a `FETCH` response.
fn is_fetch(r: &ServerResponse) -> (b: bool)
    ensures
        b == takes_fetches()(*r),
{
    matches!(r, ServerResponse::Fetch(..))
}

/// The value that `f` finds in the first item of `attrs` where it finds one.
pub open spec fn first_some<B>(attrs: Seq<FetchAttribute>, f: spec_fn(FetchAttribute) -> Option<B>) -> Option<B>
    decreases attrs.len(),
{
    if attrs.len() == 0 {
        None
    } else {
        match f(attrs[0]) {
            Some(x) => Some(x),
            None => first_some(attrs.drop_first(), f),
        }
    }
}

/// Where `f` finds nothing before position `i` and finds a value at `i`, that value is the
/// first one it finds; where it finds nothing anywhere, there is none.
proof fn lemma_first_some<B>(attrs: Seq<FetchAttribute>, f: spec_fn(FetchAttribute) -> Option<B>, i: int)
    requires
        0 <= i <= attrs.len(),
        forall|j: int| 0 <= j < i ==> f(#[trigger] attrs[j]) is None,
    ensures
        i < attrs.len() && f(attrs[i]) is Some ==> first_some(attrs, f) == f(attrs[i]),
        i == attrs.len() ==> first_some(attrs, f) is None,
    decreases i,
{
    if i > 0 {
        assert(f(attrs[0]) is None);
        assert forall|j: int| 0 <= j < i - 1 implies f(#[trigger] attrs.drop_first()[j]) is None by {
            assert(attrs.drop_first()[j] == attrs[j + 1]);
        }
        if i < attrs.len() {
            assert(attrs.drop_first()[i - 1] == attrs[i]);
        }
        lemma_first_some(attrs.drop_first(), f, i - 1);
    }
}

/// The bytes of a header item: `BODY[HEADER]` or `RFC822.HEADER`.
pub open spec fn header_of() -> spec_fn(FetchAttribute) -> Option<Seq<u8>> {
    |a: FetchAttribute|
        match a {
            FetchAttribute::BodySection {
                section: Some(SectionSpec::Full(SectionPart::Header)),
                data: Some(d),
                ..
            } => Some(d@),
            FetchAttribute::Rfc822Header(Some(d)) => Some(d@),
            _ => None,
        }
}

/// The bytes of a whole-body item: `BODY[]` or `RFC822`.
pub open spec fn body_of() -> spec_fn(FetchAttribute) -> Option<Seq<u8>> {
    |a: FetchAttribute|
        match a {
            FetchAttribute::BodySection { section: None, data: Some(d), .. } => Some(d@),
            FetchAttribute::Rfc822(Some(d)) => Some(d@),
            _ => None,
        }
}

/// The bytes of a text item: `BODY[TEXT]` or `RFC822.TEXT`.
pub open spec fn text_of() -> spec_fn(FetchAttribute) -> Option<Seq<u8>> {
    |a: FetchAttribute|
        match a {
            FetchAttribute::BodySection {
                section: Some(SectionSpec::Full(SectionPart::Text)),
                data: Some(d),
                ..
            } => Some(d@),
            FetchAttribute::Rfc822Text(Some(d)) => Some(d@),
            _ => None,
        }
}

/// The envelope of an `ENVELOPE` item.
pub open spec fn envelope_of() -> spec_fn(FetchAttribute) -> Option<MessageEnvelope> {
    |a: FetchAttribute|
        match a {
            FetchAttribute::Envelope(e) => Some(e),
            _ => None,
        }
}

/// The text of an `INTERNALDATE` item.
pub open spec fn internal_date_of() -> spec_fn(FetchAttribute) -> Option<Seq<char>> {
    |a: FetchAttribute|
        match a {
            FetchAttribute::InternalDate(s) => Some(s@),
            _ => None,
        }
}

/// Each accessor of a fetch reads the data items of its kind, the first of them winning: a
/// fetch whose first item is `RFC822.HEADER` or `BODY[HEADER]` has that header, `RFC822` or
/// `BODY[]` that body, `RFC822.TEXT` or `BODY[TEXT]` that text, `ENVELOPE` that envelope,
/// `INTERNALDATE` that date text, and `BODY[path]` the section at that path.
pub proof fn lemma_fetch_items_read(
    rest: Seq<FetchAttribute>,
    d: Vec<u8>,
    index: Option<u32>,
    e: MessageEnvelope,
    t: String,
    path: SectionSpec,
)
    ensures
        first_some(seq![FetchAttribute::Rfc822Header(Some(d))] + rest, header_of()) == Some(d@),
        first_some(
            seq![FetchAttribute::BodySection { section: Some(SectionSpec::Full(SectionPart::Header)), index, data: Some(d) }] + rest,
            header_of(),
        ) == Some(d@),
        first_some(seq![FetchAttribute::Rfc822(Some(d))] + rest, body_of()) == Some(d@),
        first_some(seq![FetchAttribute::BodySection { section: None, index, data: Some(d) }] + rest, body_of()) == Some(d@),
        first_some(seq![FetchAttribute::Rfc822Text(Some(d))] + rest, text_of()) == Some(d@),
        first_some(
            seq![FetchAttribute::BodySection { section: Some(SectionSpec::Full(SectionPart::Text)), index, data: Some(d) }] + rest,
            text_of(),
        ) == Some(d@),
        first_some(seq![FetchAttribute::Envelope(e)] + rest, envelope_of()) == Some(e),
        first_some(seq![FetchAttribute::InternalDate(t)] + rest, internal_date_of()) == Some(t@),
        first_some(seq![FetchAttribute::BodySection { section: Some(path), index, data: Some(d) }] + rest, section_of(path))
            == Some(d@),
{
    let firsts = seq![
        FetchAttribute::Rfc822Header(Some(d)),
        FetchAttribute::BodySection { section: Some(SectionSpec::Full(SectionPart::Header)), index, data: Some(d) },
        FetchAttribute::Rfc822(Some(d)),
        FetchAttribute::BodySection { section: None, index, data: Some(d) },
        FetchAttribute::Rfc822Text(Some(d)),
        FetchAttribute::BodySection { section: Some(SectionSpec::Full(SectionPart::Text)), index, data: Some(d) },
        FetchAttribute::Envelope(e),
        FetchAttribute::InternalDate(t),
        FetchAttribute::BodySection { section: Some(path), index, data: Some(d) },
    ];
    assert forall|k: int| 0 <= k < 9 implies (seq![#[trigger] firsts[k]] + rest)[0] == firsts[k] by {}
    match path {
        SectionSpec::Full(_) => {},
        SectionSpec::Part(v, _) => assert(v@ == v@),
    }
}

/// Whether two section paths name the same section.
pub open spec fn same_section(a: SectionSpec, b: SectionSpec) -> bool {
    match (a, b) {
        (SectionSpec::Full(x), SectionSpec::Full(y)) => x == y,
        (SectionSpec::Part(v, x), SectionSpec::Part(w, y)) => v@ == w@ && x == y,
        _ => false,
    }
}

/// The bytes of a `BODY[<section>]` item for the section `path`.
pub open spec fn section_of(path: SectionSpec) -> spec_fn(FetchAttribute) -> Option<Seq<u8>> {
    |a: FetchAttribute|
        match a {
            FetchAttribute::BodySection { section: Some(sp), data: Some(d), .. } => if same_section(sp, path) {
                Some(d@)
            } else {
                None
            },
            _ => None,
        }
}

/// Whether two section paths name the same section.
fn section_eq(a: &SectionSpec, b: &SectionSpec) -> (r: bool)
    ensures
        r == same_section(*a, *b),
{
    match (a, b) {
        (SectionSpec::Full(x), SectionSpec::Full(y)) => part_eq(*x, *y),
        (SectionSpec::Part(v, x), SectionSpec::Part(w, y)) => {
            let same_part = match (x, y) {
                (Some(p), Some(q)) => part_eq(*p, *q),
                (None, None) => true,
                _ => false,
            };
            if !same_part || v.len() != w.len() {
                return false;
            }
            let mut i: usize = 0;
            while i < v.len()
                invariant
                    i <= v@.len(),
                    v@.len() == w@.len(),
                    *a == SectionSpec::Part(*v, *x),
                    *b == SectionSpec::Part(*w, *y),
                    forall|j: int| 0 <= j < i ==> v@[j] == w@[j],
                decreases v@.len() - i,
            {
                if v[i] != w[i] {
                    assert(v@[i as int] != w@[i as int]);
                    return false;
                }
                i = i + 1;
            }
            assert(v@ =~= w@);
            true
        },
        _ => false,
    }
}

/// Whether two message parts are the same.
fn part_eq(a: SectionPart, b: SectionPart) -> (r: bool)
    ensures
        r == (a == b),
{
    match (a, b) {
        (SectionPart::Header, SectionPart::Header) => true,
        (SectionPart::Mime, SectionPart::Mime) => true,
        (SectionPart::Text, SectionPart::Text) => true,
        _ => false,
    }
}

impl Fetch {
    /// The fetch that a `FETCH` response describes ([`is_fetch_of`]).
    pub fn from_response(message: u32, attrs: Vec<FetchAttribute>) -> (f: Fetch)
        ensures
            is_fetch_of(f, ServerResponse::Fetch(message, attrs)),
    {
        let mut flags: Vec<Flag> = Vec::new();
        let mut uid: Option<u32> = None;
        let mut size: Option<u32> = None;
        let mut i: usize = 0;
        while i < attrs.len()
            invariant
                i <= attrs@.len(),
                are_flags_of(flags@, flag_texts_of(attrs@.take(i as int))),
                uid == uid_of(attrs@.take(i as int)),
                size == size_of(attrs@.take(i as int)),
            decreases attrs@.len() - i,
        {
            proof {
                assert(attrs@.take(i + 1).drop_last() == attrs@.take(i as int));
                assert(attrs@.take(i + 1).last() == attrs@[i as int]);
            }
            match &attrs[i] {
                FetchAttribute::Flags(ss) => {
                    let mut fs = Flag::from_strs(clone_strings(ss));
                    let ghost before = flags@;
                    let ghost added = fs@;
                    flags.append(&mut fs);
                    proof {
                        crate::parse::lemma_flags_concat(before, flag_texts_of(attrs@.take(i as int)), added, ss@);
                    }
                },
                FetchAttribute::Uid(u) => {
                    uid = Some(*u);
                },
                FetchAttribute::Rfc822Size(s) => {
                    size = Some(*s);
                },
                _ => {},
            }
            i = i + 1;
        }
        proof {
            assert(attrs@.take(attrs@.len() as int) == attrs@);
        }
        Fetch { message, uid, size, fetch: attrs, flags }
    }

    /// A list of flags that are set for this message.
    pub fn flags(&self) -> (f: &[Flag])
        ensures
            f@ == self.flags@,
    {
        self.flags.as_slice()
    }

    /// The bytes that make up the header of this message, if `BODY[HEADER]`, `BODY.PEEK[HEADER]`,
    /// or `RFC822.HEADER` was included in the `query` argument to `FETCH`.
    pub fn header(&self) -> (h: Option<&[u8]>)
        ensures
            match h {
                Some(b) => first_some(self.fetch@, header_of()) == Some(b@),
                None => first_some(self.fetch@, header_of()) is None,
            },
    {
        let mut i: usize = 0;
        while i < self.fetch.len()
            invariant
                i <= self.fetch@.len(),
                forall|j: int| 0 <= j < i ==> header_of()(#[trigger] self.fetch@[j]) is None,
            decreases self.fetch@.len() - i,
        {
            match &self.fetch[i] {
                FetchAttribute::BodySection {
                    section: Some(SectionSpec::Full(SectionPart::Header)),
                    data: Some(d),
                    ..
                } => {
                    proof { lemma_first_some(self.fetch@, header_of(), i as int); }
                    return Some(d.as_slice());
                },
                FetchAttribute::Rfc822Header(Some(d)) => {
                    proof { lemma_first_some(self.fetch@, header_of(), i as int); }
                    return Some(d.as_slice());
                },
                _ => {},
            }
            i = i + 1;
        }
        proof { lemma_first_some(self.fetch@, header_of(), i as int); }
        None
    }

    /// The bytes that make up this message, included if `BODY[]` or `RFC822` was included in the
    /// `query` argument to `FETCH`. The bytes SHOULD be interpreted by the client according to the
    /// content transfer encoding, body type, and subtype.
    pub fn body(&self) -> (h: Option<&[u8]>)
        ensures
            match h {
                Some(b) => first_some(self.fetch@, body_of()) == Some(b@),
                None => first_some(self.fetch@, body_of()) is None,
            },
    {
        let mut i: usize = 0;
        while i < self.fetch.len()
            invariant
                i <= self.fetch@.len(),
                forall|j: int| 0 <= j < i ==> body_of()(#[trigger] self.fetch@[j]) is None,
            decreases self.fetch@.len() - i,
        {
            match &self.fetch[i] {
                FetchAttribute::BodySection { section: None, data: Some(d), .. } => {
                    proof { lemma_first_some(self.fetch@, body_of(), i as int); }
                    return Some(d.as_slice());
                },
                FetchAttribute::Rfc822(Some(d)) => {
                    proof { lemma_first_some(self.fetch@, body_of(), i as int); }
                    return Some(d.as_slice());
                },
                _ => {},
            }
            i = i + 1;
        }
        proof { lemma_first_some(self.fetch@, body_of(), i as int); }
        None
    }

    /// The bytes that make up the text of this message, included if `BODY[TEXT]`, `RFC822.TEXT`,
    /// or `BODY.PEEK[TEXT]` was included in the `query` argument to `FETCH`. The bytes SHOULD be
    /// interpreted by the client according to the content transfer encoding, body type, and
    /// subtype.
    pub fn text(&self) -> (h: Option<&[u8]>)
        ensures
            match h {
                Some(b) => first_some(self.fetch@, text_of()) == Some(b@),
                None => first_some(self.fetch@, text_of()) is None,
            },
    {
        let mut i: usize = 0;
        while i < self.fetch.len()
            invariant
                i <= self.fetch@.len(),
                forall|j: int| 0 <= j < i ==> text_of()(#[trigger] self.fetch@[j]) is None,
            decreases self.fetch@.len() - i,
        {
            match &self.fetch[i] {
                FetchAttribute::BodySection {
                    section: Some(SectionSpec::Full(SectionPart::Text)),
                    data: Some(d),
                    ..
                } => {
                    proof { lemma_first_some(self.fetch@, text_of(), i as int); }
                    return Some(d.as_slice());
                },
                FetchAttribute::Rfc822Text(Some(d)) => {
                    proof { lemma_first_some(self.fetch@, text_of(), i as int); }
                    return Some(d.as_slice());
                },
                _ => {},
            }
            i = i + 1;
        }
        proof { lemma_first_some(self.fetch@, text_of(), i as int); }
        None
    }

    /// The envelope of this message, if `ENVELOPE` was included in the `query` argument to
    /// `FETCH`. This is computed by the server by parsing the
    /// [RFC-2822](https://tools.ietf.org/html/rfc2822) header into the component parts, defaulting
    /// various fields as necessary.
    ///
    /// The full description of the format of the envelope is given in [RFC 3501 section
    /// 7.4.2](https://tools.ietf.org/html/rfc3501#section-7.4.2).
    pub fn envelope(&self) -> (e: Option<&MessageEnvelope>)
        ensures
            match e {
                Some(x) => first_some(self.fetch@, envelope_of()) == Some(*x),
                None => first_some(self.fetch@, envelope_of()) is None,
            },
    {
        let mut i: usize = 0;
        while i < self.fetch.len()
            invariant
                i <= self.fetch@.len(),
                forall|j: int| 0 <= j < i ==> envelope_of()(#[trigger] self.fetch@[j]) is None,
            decreases self.fetch@.len() - i,
        {
            match &self.fetch[i] {
                FetchAttribute::Envelope(env) => {
                    proof { lemma_first_some(self.fetch@, envelope_of(), i as int); }
                    return Some(env);
                },
                _ => {},
            }
            i = i + 1;
        }
        proof { lemma_first_some(self.fetch@, envelope_of(), i as int); }
        None
    }

    /// Extract the bytes that makes up the given `BODY[<section>]` of a `FETCH` response.
    ///
    /// See [section 7.4.2 of RFC 3501](https://tools.ietf.org/html/rfc3501#section-7.4.2) for
    /// details.
    pub fn section(&self, path: &SectionSpec) -> (h: Option<&[u8]>)
        ensures
            match h {
                Some(b) => first_some(self.fetch@, section_of(*path)) == Some(b@),
                None => first_some(self.fetch@, section_of(*path)) is None,
            },
    {
        let mut i: usize = 0;
        while i < self.fetch.len()
            invariant
                i <= self.fetch@.len(),
                forall|j: int| 0 <= j < i ==> section_of(*path)(#[trigger] self.fetch@[j]) is None,
            decreases self.fetch@.len() - i,
        {
            match &self.fetch[i] {
                FetchAttribute::BodySection { section: Some(sp), data: Some(d), .. } => {
                    if section_eq(sp, path) {
                        proof { lemma_first_some(self.fetch@, section_of(*path), i as int); }
                        return Some(d.as_slice());
                    }
                },
                _ => {},
            }
            i = i + 1;
        }
        proof { lemma_first_some(self.fetch@, section_of(*path), i as int); }
        None
    }

    /// The text of the `INTERNALDATE` of a `FETCH` response: that of the first `INTERNALDATE`
    /// item, if any. It has the form `dd-Mon-yyyy hh:mm:ss +zzzz` of RFC 3501's `date-time`.
    ///
    /// See [section 2.3.3 of RFC 3501](https://tools.ietf.org/html/rfc3501#section-2.3.3) for
    /// details.
    pub fn internal_date_str(&self) -> (d: Option<&str>)
        ensures
            match d {
                Some(t) => first_some(self.fetch@, internal_date_of()) == Some(t@),
                None => first_some(self.fetch@, internal_date_of()) is None,
            },
    {
        let mut i: usize = 0;
        while i < self.fetch.len()
            invariant
                i <= self.fetch@.len(),
                forall|j: int| 0 <= j < i ==> internal_date_of()(#[trigger] self.fetch@[j]) is None,
            decreases self.fetch@.len() - i,
        {
            match &self.fetch[i] {
                FetchAttribute::InternalDate(t) => {
                    proof { lemma_first_some(self.fetch@, internal_date_of(), i as int); }
                    return Some(t.as_str());
                },
                _ => {},
            }
            i = i + 1;
        }
        proof { lemma_first_some(self.fetch@, internal_date_of(), i as int); }
        None
    }

    /// The date and time of the `INTERNALDATE` of a `FETCH` response ([`internal_date_str`]),
    /// read as `chrono` reads RFC 3501's `date-time` ([`date_time_of`]); `None` where there is
    /// no such item or its text is not a date and time.
    ///
    /// [`internal_date_str`]: Fetch::internal_date_str
    pub fn internal_date(&self) -> (d: Option<InternalDate>)
        ensures
            d == match first_some(self.fetch@, internal_date_of()) {
                Some(t) => date_time_of(t),
                None => None,
            },
    {
        match self.internal_date_str() {
            Some(t) => match parse_date_time(t) {
                Some((timestamp, utc_offset)) => Some(InternalDate { timestamp, utc_offset }),
                None => None,
            },
            None => None,
        }
    }

    /// Extract the `BODYSTRUCTURE` of a `FETCH` response: the first `BODYSTRUCTURE` item.
    ///
    /// See [section 2.3.6 of RFC 3501](https://tools.ietf.org/html/rfc3501#section-2.3.6) for
    /// details.
    pub fn bodystructure(&self) -> (b: Option<&imap_proto::types::BodyStructure<'static>>)
        ensures
            match b {
                Some(x) => exists|i: int| 0 <= i < self.fetch@.len() && self.fetch@[i] == FetchAttribute::BodyStructure(*x)
                    && forall|j: int| 0 <= j < i ==> !(#[trigger] self.fetch@[j] is BodyStructure),
                None => forall|j: int| 0 <= j < self.fetch@.len() ==> !(#[trigger] self.fetch@[j] is BodyStructure),
            },
    {
        let mut i: usize = 0;
        while i < self.fetch.len()
            invariant
                i <= self.fetch@.len(),
                forall|j: int| 0 <= j < i ==> !(#[trigger] self.fetch@[j] is BodyStructure),
            decreases self.fetch@.len() - i,
        {
            match &self.fetch[i] {
                FetchAttribute::BodyStructure(bs) => {
                    return Some(bs);
                },
                _ => {},
            }
            i = i + 1;
        }
        None
    }

    /// Get an owned copy of the [`Fetch`].
    pub fn into_owned(self) -> (f: Fetch)
        ensures
            f == self,
    {
        self
    }
}

/// A copy of a list of strings.
fn clone_strings(v: &Vec<String>) -> (w: Vec<String>)
    ensures
        w@ == v@,
{
    let mut w: Vec<String> = Vec::new();
    let mut i: usize = 0;
    while i < v.len()
        invariant
            i <= v@.len(),
            w@ == v@.take(i as int),
        decreases v@.len() - i,
    {
        w.push(v[i].clone());
        assert(v@.take(i + 1) == v@.take(i as int).push(v@[i as int]));
        i = i + 1;
    }
    assert(v@.take(v@.len() as int) == v@);
    w
}

/// Whether each fetch of `fs` is the one that the response of `rs` at the same position
/// describes.
pub open spec fn are_fetches_of(fs: Seq<Fetch>, rs: Seq<ServerResponse>) -> bool {
    &&& fs.len() == rs.len()
    &&& forall|i: int| 0 <= i < fs.len() ==> #[trigger] is_fetch_of(fs[i], rs[i])
}

/// A wrapper for one or more [`Fetch`] responses.
pub struct Fetches {
    fetches: Vec<Fetch>,
}

impl View for Fetches {
    type V = Seq<Fetch>;

    closed spec fn view(&self) -> Seq<Fetch> {
        self.fetches@
    }
}

impl Fetches {
    /// Parse one or more [`Fetch`] responses from a response buffer: one fetch for each of its
    /// `FETCH` responses, in order; every other response is passed on as unsolicited.
    pub fn parse(owned: Vec<u8>, unsolicited: &mut VecDeque<UnsolicitedResponse>) -> (res: Result<
        Fetches,
    >)
        ensures
            read_result(res, owned@, takes_fetches(), unilateral()),
            passes_on(final(unsolicited)@, old(unsolicited)@, owned@, takes_fetches(), unilateral()),
            res matches Ok(f) ==> are_fetches_of(f@, split_spec(owned@).0.filter(takes_fetches())),
    {
        let taken = match parse_many_into(
            owned.as_slice(),
            unsolicited,
            Ghost(takes_fetches()),
            is_fetch,
        ) {
            Ok(t) => t,
            Err(e) => return Err(e),
        };
        let ghost all = taken@;
        proof {
            assert forall|i: int| 0 <= i < all.len() implies #[trigger] all[i] is Fetch by {
                split_spec(owned@).0.lemma_filter_pred(takes_fetches(), i);
            }
        }
        let mut fetches: Vec<Fetch> = Vec::new();
        for r in it: taken
            invariant
                it.seq() == all,
                forall|i: int| 0 <= i < all.len() ==> #[trigger] all[i] is Fetch,
                are_fetches_of(fetches@, all.take(it.index() as int)),
        {
            let ghost i = it.index() as int;
            match r {
                ServerResponse::Fetch(n, attrs) => {
                    let f = Fetch::from_response(n, attrs);
                    let ghost before = fetches@;
                    fetches.push(f);
                    proof {
                        assert forall|j: int| 0 <= j < i + 1 implies #[trigger] is_fetch_of(fetches@[j], all.take(i + 1)[j]) by {
                            if j < i {
                                assert(fetches@[j] == before[j]);
                                assert(all.take(i + 1)[j] == all.take(i)[j]);
                            }
                        }
                    }
                },
                _ => {
                    proof {
                        assert(all[i] is Fetch);
                    }
                },
            }
        }
        proof {
            assert(all.take(all.len() as int) == all);
        }
        Ok(Fetches { fetches })
    }

    /// Get the number of [`Fetch`]es in this container.
    pub fn len(&self) -> (n: usize)
        ensures
            n == self@.len(),
    {
        self.fetches.len()
    }

    /// Return true if there are no [`Fetch`]es in the container.
    pub fn is_empty(&self) -> (b: bool)
        ensures
            b == (self@.len() == 0),
    {
        self.fetches.len() == 0
    }

    /// Iterate over the contained [`Fetch`]es.
    pub fn iter(&self) -> (it: std::slice::Iter<'_, Fetch>)
        ensures
            vstd::std_specs::slice::into_iter_elts(it) == self@,
    {
        broadcast use vstd::std_specs::slice::axiom_spec_slice_iter;
        self.fetches.as_slice().iter()
    }
}

} // verus!
