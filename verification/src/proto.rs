//! The one place where server bytes are handed to `imap_proto`'s response grammar.
//!
//! [`parse_line`] first checks, in verified code, that the bytes are none on which the grammar
//! could panic ([`may_panic`]), then calls `imap_proto::parser::parse_response` and converts
//! what it returns into the library's own model ([`crate::response`]). The functions below it
//! only convert borrowed `imap_proto` values into owned model values, one variant or field at a
//! time; they compute nothing and state nothing: all that verified code knows of a parse is the
//! contract of `parse_response_line`.

use crate::response as m;
use imap_proto::types as p;
use crate::response::Line;
use crate::client::utf8_text;
use imap_proto::types::AclRight as WireRight;
use crate::types::id::{lower, lower_byte};
use std::borrow::Cow;
use vstd::prelude::*;

verus! {

#[verifier::external_type_specification]
#[verifier::external_body]
pub struct ExProtoResponse<'a>(imap_proto::types::Response<'a>);

#[verifier::external_type_specification]
#[verifier::external_body]
pub struct ExProtoStatus(imap_proto::types::Status);

#[verifier::external_type_specification]
#[verifier::external_body]
pub struct ExProtoCapability<'a>(imap_proto::types::Capability<'a>);

#[verifier::external_type_specification]
#[verifier::external_body]
pub struct ExProtoResponseCode<'a>(imap_proto::types::ResponseCode<'a>);

#[verifier::external_type_specification]
#[verifier::external_body]
pub struct ExProtoUidSetMember(imap_proto::types::UidSetMember);

#[verifier::external_type_specification]
#[verifier::external_body]
pub struct ExProtoStatusAttribute(imap_proto::types::StatusAttribute);

#[verifier::external_type_specification]
#[verifier::external_body]
pub struct ExProtoMailboxDatum<'a>(imap_proto::types::MailboxDatum<'a>);

#[verifier::external_type_specification]
#[verifier::external_body]
pub struct ExProtoNameAttribute<'a>(imap_proto::types::NameAttribute<'a>);

#[verifier::external_type_specification]
#[verifier::external_body]
pub struct ExProtoAttributeValue<'a>(imap_proto::types::AttributeValue<'a>);

#[verifier::external_type_specification]
#[verifier::external_body]
pub struct ExProtoSectionPath(imap_proto::types::SectionPath);

#[verifier::external_type_specification]
#[verifier::external_body]
pub struct ExProtoMessageSection(imap_proto::types::MessageSection);

#[verifier::external_type_specification]
#[verifier::external_body]
pub struct ExProtoEnvelope<'a>(imap_proto::types::Envelope<'a>);

#[verifier::external_type_specification]
#[verifier::external_body]
pub struct ExProtoAddress<'a>(imap_proto::types::Address<'a>);

#[verifier::external_type_specification]
#[verifier::external_body]
pub struct ExProtoBodyStructure<'a>(imap_proto::types::BodyStructure<'a>);

#[verifier::external_type_specification]
#[verifier::external_body]
pub struct ExProtoQuotaResource<'a>(imap_proto::types::QuotaResource<'a>);

#[verifier::external_type_specification]
#[verifier::external_body]
pub struct ExProtoRight(WireRight);

/// What `imap_proto::parser::parse_response` makes of the start of a byte buffer, in the
/// library's model, where the parser returns ([`parser_may_panic`] does not hold).
pub uninterp spec fn parsed_by_imap_proto(input: Seq<u8>) -> Line;

/// What the library makes of the start of a byte buffer: nothing it can read ([`Line::Invalid`])
/// where `imap_proto`'s parser could panic on it ([`parser_may_panic`]); otherwise what the
/// parser makes of it.
pub open spec fn imap_line(input: Seq<u8>) -> Line {
    if parser_may_panic(input) {
        Line::Invalid
    } else {
        parsed_by_imap_proto(input)
    }
}

/// Whether the bytes of `pat` (lower case) stand in `input` at `i`, ASCII letters compared
/// without case.
pub open spec fn matches_at(input: Seq<u8>, i: int, pat: Seq<u8>) -> bool {
    &&& 0 <= i
    &&& i + pat.len() <= input.len()
    &&& forall|j: int| 0 <= j < pat.len() ==> lower(#[trigger] input[i + j]) == pat[j]
}

/// `internaldate nil`.
pub open spec fn internaldate_nil() -> Seq<u8> {
    seq![0x69u8, 0x6e, 0x74, 0x65, 0x72, 0x6e, 0x61, 0x6c, 0x64, 0x61, 0x74, 0x65, 0x20, 0x6e, 0x69, 0x6c]
}

/// `metadata `.
pub open spec fn metadata_word() -> Seq<u8> {
    seq![0x6du8, 0x65, 0x74, 0x61, 0x64, 0x61, 0x74, 0x61, 0x20]
}

/// Whether `input` starts with `* ` and a digit: message data (`EXISTS`, `RECENT`, `EXPUNGE`,
/// `FETCH`).
pub open spec fn is_message_data(input: Seq<u8>) -> bool {
    input.len() >= 3 && input[0] == 0x2a && input[1] == 0x20 && 0x30 <= input[2] <= 0x39
}

/// Whether `input` starts with `* METADATA ` (the word in any case).
pub open spec fn is_metadata(input: Seq<u8>) -> bool {
    matches_at(input, 0, seq![0x2au8, 0x20]) && matches_at(input, 2, metadata_word())
}

/// Whether `c` is an ASCII digit.
pub open spec fn is_digit(c: u8) -> bool {
    0x30 <= c <= 0x39
}

/// The literal announcement whose digits start at `k` (after `{`), `acc` being the value of the
/// digits before `k`: the position after its `}` and CRLF, and its byte count; `None` where the
/// digits are not followed by `}` and CRLF, or their value does not fit a `u32` (the grammar
/// reads the count as a `u32`).
pub open spec fn literal_header(input: Seq<u8>, k: int, acc: int) -> Option<(int, int)>
    decreases input.len() - k,
{
    if k < 0 || k >= input.len() {
        None
    } else if is_digit(input[k]) {
        let a = acc * 10 + (input[k] - 0x30);
        if a > u32::MAX {
            None
        } else {
            literal_header(input, k + 1, a)
        }
    } else if input[k] == 0x7d && k + 2 < input.len() && input[k + 1] == 0x0d && input[k + 2] == 0x0a {
        Some((k + 3, acc))
    } else {
        None
    }
}

/// Whether `imap_proto` could panic while it reads the response that `input` starts with, the
/// reading having come to `pos` with `depth` brackets open, inside a quoted string or not.
/// The response ends at the first CRLF outside a quoted string and a literal, and a quoted
/// string at a bare CR or LF (the grammar fails there). Where `fetch`, the response is message
/// data, and an `INTERNALDATE NIL` item at the top level of the `FETCH` list (one bracket open,
/// after `(` or a space) makes the parser panic; otherwise it is a `METADATA` response, and a
/// literal whose bytes are not UTF-8 does. Quoted strings hold only ASCII in the grammar, so a
/// literal is the only place of a response where bytes that are not UTF-8 can stand.
pub open spec fn scan(input: Seq<u8>, pos: int, quoted: bool, depth: int, fetch: bool) -> bool
    decreases input.len() - pos,
{
    if pos < 0 || pos >= input.len() {
        false
    } else if quoted {
        let c = input[pos];
        if c == 0x5c {
            if pos + 2 >= input.len() {
                false
            } else {
                scan(input, pos + 2, true, depth, fetch)
            }
        } else if c == 0x22 {
            scan(input, pos + 1, false, depth, fetch)
        } else if c == 0x0d || c == 0x0a {
            false
        } else {
            scan(input, pos + 1, true, depth, fetch)
        }
    } else {
        let c = input[pos];
        if c == 0x22 {
            scan(input, pos + 1, true, depth, fetch)
        } else if c == 0x0d && pos + 1 < input.len() && input[pos + 1] == 0x0a {
            false
        } else if fetch && depth == 1 && pos > 0 && (input[pos - 1] == 0x28 || input[pos - 1] == 0x20)
            && matches_at(input, pos, internaldate_nil()) {
            true
        } else if c == 0x7b && pos + 1 < input.len() && is_digit(input[pos + 1]) {
            match literal_header(input, pos + 1, 0) {
                Some((start, count)) => if start <= pos || count < 0 {
                    false
                } else if start + count > input.len() {
                    false
                } else if !fetch && !vstd::utf8::valid_utf8(input.subrange(start, start + count)) {
                    true
                } else {
                    scan(input, start + count, false, depth, fetch)
                },
                None => scan(input, pos + 1, false, depth, fetch),
            }
        } else if c == 0x28 {
            scan(input, pos + 1, false, depth + 1, fetch)
        } else if c == 0x29 {
            scan(input, pos + 1, false, if depth > 0 { depth - 1 } else { 0 }, fetch)
        } else {
            scan(input, pos + 1, false, depth, fetch)
        }
    }
}

/// Whether `imap_proto::parser::parse_response` (0.16) could panic on `input`. Its source has
/// two panics that a server can trigger:
/// - `INTERNALDATE NIL` in a `FETCH` response: the parser unwraps the optional date;
/// - a `METADATA` response with a mailbox, entry or value that is not UTF-8: the parser
///   unwraps the decoding. Quoted strings hold only ASCII, so this is a literal whose bytes
///   are not UTF-8.
/// The check reads the first response of `input` as [`scan`] does, skipping quoted strings and
/// the bytes of literals, and no further than its end.
pub open spec fn parser_may_panic(input: Seq<u8>) -> bool {
    if is_message_data(input) {
        scan(input, 0, false, 0, true)
    } else if is_metadata(input) {
        scan(input, 0, false, 0, false)
    } else {
        false
    }
}

/// Whether the lower-case bytes of `pat` stand in `input` at `i`, ASCII letters compared
/// without case.
fn matches_at_exec(input: &[u8], i: usize, pat: &[u8]) -> (b: bool)
    ensures
        b == matches_at(input@, i as int, pat@),
{
    if i > input.len() || pat.len() > input.len() - i {
        return false;
    }
    let n = input.len();
    let mut j: usize = 0;
    while j < pat.len()
        invariant
            j <= pat@.len(),
            n == input@.len(),
            i + pat@.len() <= n,
            forall|k: int| 0 <= k < j ==> lower(#[trigger] input@[i + k]) == pat@[k],
        decreases pat@.len() - j,
    {
        assert(i + j < n);
        if lower_byte(input[i + j]) != pat[j] {
            assert(lower(input@[i + j as int]) != pat@[j as int]);
            return false;
        }
        j = j + 1;
    }
    true
}

/// The literal announcement whose digits start at `k` ([`literal_header`]).
fn literal_header_exec(input: &[u8], k: usize) -> (r: Option<(usize, u64)>)
    requires
        k < input@.len(),
        is_digit(input@[k as int]),
    ensures
        match r {
            Some((start, count)) => literal_header(input@, k as int, 0) == Some((start as int, count as int)),
            None => literal_header(input@, k as int, 0) is None,
        },
{
    let n = input.len();
    let mut i: usize = k;
    let mut acc: u64 = 0;
    while i < n && 0x30 <= input[i] && input[i] <= 0x39
        invariant
            k <= i <= n,
            n == input@.len(),
            acc <= u32::MAX,
            literal_header(input@, k as int, 0) == literal_header(input@, i as int, acc as int),
        decreases n - i,
    {
        let a = acc * 10 + (input[i] - 0x30) as u64;
        if a > 0xffff_ffff {
            return None;
        }
        acc = a;
        i = i + 1;
    }
    if i < n && input[i] == 0x7d && n - i > 2 && input[i + 1] == 0x0d && input[i + 2] == 0x0a {
        Some((i + 3, acc))
    } else {
        None
    }
}

/// Whether the first response of `input` could make `imap_proto` panic, read from `pos` on
/// ([`scan`]).
#[verifier::loop_isolation(false)]
fn scan_exec(input: &[u8], fetch: bool) -> (b: bool)
    ensures
        b == scan(input@, 0, false, 0, fetch),
{
    let n = input.len();
    let mut pos: usize = 0;
    let mut quoted = false;
    let mut depth: usize = 0;
    let pat: [u8; 16] = [0x69, 0x6e, 0x74, 0x65, 0x72, 0x6e, 0x61, 0x6c, 0x64, 0x61, 0x74, 0x65, 0x20, 0x6e, 0x69, 0x6c];
    assert(pat@ == internaldate_nil());
    while pos < n
        invariant
            n == input@.len(),
            pos <= n,
            depth <= pos,
            pat@ == internaldate_nil(),
            scan(input@, 0, false, 0, fetch) == scan(input@, pos as int, quoted, depth as int, fetch),
        decreases n - pos,
    {
        let c = input[pos];
        if quoted {
            if c == 0x5c {
                if n - pos <= 2 {
                    return false;
                }
                pos = pos + 2;
            } else if c == 0x22 {
                quoted = false;
                pos = pos + 1;
            } else if c == 0x0d || c == 0x0a {
                return false;
            } else {
                pos = pos + 1;
            }
        } else if c == 0x22 {
            quoted = true;
            pos = pos + 1;
        } else if c == 0x0d && n - pos > 1 && input[pos + 1] == 0x0a {
            return false;
        } else if fetch && depth == 1 && pos > 0 && (input[pos - 1] == 0x28 || input[pos - 1] == 0x20)
            && matches_at_exec(input, pos, pat.as_slice()) {
            return true;
        } else if c == 0x7b && n - pos > 1 && 0x30 <= input[pos + 1] && input[pos + 1] <= 0x39 {
            match literal_header_exec(input, pos + 1) {
                Some((start, count)) => {
                    if start <= pos {
                        return false;
                    }
                    if start > n || count > (n - start) as u64 {
                        return false;
                    }
                    let end = start + count as usize;
                    if !fetch {
                        let bytes = &input[start..end];
                        assert(bytes@ == input@.subrange(start as int, end as int));
                        if utf8_text(bytes).is_err() {
                            return true;
                        }
                    }
                    pos = end;
                },
                None => {
                    pos = pos + 1;
                },
            }
        } else if c == 0x28 {
            depth = depth + 1;
            pos = pos + 1;
        } else if c == 0x29 {
            if depth > 0 {
                depth = depth - 1;
            }
            pos = pos + 1;
        } else {
            pos = pos + 1;
        }
    }
    false
}

/// Whether `imap_proto`'s parser could panic on `input` ([`parser_may_panic`]).
pub fn may_panic(input: &[u8]) -> (b: bool)
    ensures
        b == parser_may_panic(input@),
{
    let message_data = input.len() >= 3 && input[0] == 0x2a && input[1] == 0x20 && 0x30 <= input[2]
        && input[2] <= 0x39;
    if message_data {
        return scan_exec(input, true);
    }
    let star: [u8; 2] = [0x2a, 0x20];
    let meta: [u8; 9] = [0x6d, 0x65, 0x74, 0x61, 0x64, 0x61, 0x74, 0x61, 0x20];
    assert(meta@ == metadata_word());
    assert(star@ == seq![0x2au8, 0x20]);
    if matches_at_exec(input, 0, star.as_slice()) && matches_at_exec(input, 2, meta.as_slice()) {
        return scan_exec(input, false);
    }
    false
}

/// Parses the start of `input` as one server response with
/// `imap_proto::parser::parse_response`, on input where the parser does not panic. The contract
/// claims that the outcome depends on the bytes alone, that a parse that needs more bytes is
/// reported as `Incomplete` and any other failure as `Invalid`, and that a parsed response is
/// followed by fewer bytes than the buffer holds (every rule of the grammar consumes a byte).
/// What is parsed is not stated: it is the grammar of `imap_proto`.
#[verifier::external_body]
fn parse_response_line(input: &[u8]) -> (line: Line)
    requires
        !parser_may_panic(input@),
    ensures
        line == parsed_by_imap_proto(input@),
        line matches Line::Parsed { rest_len, .. } ==> rest_len < input@.len(),
{
    match imap_proto::parser::parse_response(input) {
        Ok((rest, r)) => Line::Parsed { rest_len: rest.len(), response: from_response(r) },
        Err(e) if e.is_incomplete() => Line::Incomplete,
        Err(_) => Line::Invalid,
    }
}

/// Reads the start of `input` as one server response ([`imap_line`]): input on which
/// `imap_proto`'s parser could panic is refused as [`Line::Invalid`] without being parsed.
pub fn parse_line(input: &[u8]) -> (line: Line)
    ensures
        line == imap_line(input@),
        line matches Line::Parsed { rest_len, .. } ==> rest_len < input@.len(),
{
    if may_panic(input) {
        Line::Invalid
    } else {
        parse_response_line(input)
    }
}

/// Converts a borrowed text, as `Cow::into_owned` does.
#[verifier::external_body]
fn owned(s: Option<Cow<'_, str>>) -> Option<String> {
    s.map(|s| s.into_owned())
}

/// Converts a list of borrowed texts, as `Cow::into_owned` does.
#[verifier::external_body]
fn strings(v: Vec<Cow<'_, str>>) -> Vec<String> {
    v.into_iter().map(|s| s.into_owned()).collect()
}

/// Converts borrowed bytes, as `Cow::into_owned` does.
#[verifier::external_body]
fn bytes(v: Option<Cow<'_, [u8]>>) -> Option<Vec<u8>> {
    v.map(|b| b.into_owned())
}

/// Converts a response, one variant each (first part).
#[verifier::external_body]
fn from_response(r: imap_proto::types::Response<'_>) -> m::ServerResponse {
    match r {
        p::Response::Capabilities(c) => m::ServerResponse::Capabilities(c.into_iter().map(from_capability).collect()),
        p::Response::Done { tag, status, code, information } => m::ServerResponse::Done {
            tag: tag.0, status: from_status(status), code: code.map(from_code), information: owned(information),
        },
        p::Response::Data { status, code, information } => m::ServerResponse::Data {
            status: from_status(status), code: code.map(from_code), information: owned(information),
        },
        p::Response::Expunge(n) => m::ServerResponse::Expunge(n),
        p::Response::Vanished { earlier, uids } => m::ServerResponse::Vanished { earlier, uids },
        other => from_response_rest(other),
    }
}

/// Converts a response, one variant each (second part).
#[verifier::external_body]
fn from_response_rest(r: imap_proto::types::Response<'_>) -> m::ServerResponse {
    match r {
        p::Response::MailboxData(d) => m::ServerResponse::MailboxData(from_datum(d)),
        p::Response::Continue { code, information } => m::ServerResponse::Continue { code: code.map(from_code), information: owned(information) },
        p::Response::Quota(q) => m::ServerResponse::Quota(from_quota(q.root_name, q.resources)),
        p::Response::QuotaRoot(q) => m::ServerResponse::QuotaRoot(m::QuotaRootData { mailbox_name: q.mailbox_name.into_owned(), quota_root_names: strings(q.quota_root_names) }),
        p::Response::Id(_) => m::ServerResponse::Id,
        p::Response::Fetch(n, a) => m::ServerResponse::Fetch(n, a.into_iter().map(from_attribute).collect()),
        other => from_response_rights(other),
    }
}

/// Converts a response, one variant each (third part: access control lists).
#[verifier::external_body]
fn from_response_rights(r: imap_proto::types::Response<'_>) -> m::ServerResponse {
    match r {
        p::Response::Acl(a) => m::ServerResponse::Acl(m::AclData {
            mailbox: a.mailbox.into_owned(),
            acls: a.acls.into_iter().map(|e| m::AclEntryData {
                identifier: e.identifier.into_owned(),
                rights: e.rights.into_iter().map(from_acl_right).collect(),
            }).collect(),
        }),
        other => from_response_list_rights(other),
    }
}

/// Converts a response, one variant each (fourth part: rights of an identifier).
#[verifier::external_body]
fn from_response_list_rights(r: imap_proto::types::Response<'_>) -> m::ServerResponse {
    match r {
        p::Response::ListRights(l) => m::ServerResponse::ListRights(m::ListRightsData {
            mailbox: l.mailbox.into_owned(),
            identifier: l.identifier.into_owned(),
            required: l.required.into_iter().map(from_acl_right).collect(),
            optional: l.optional.into_iter().map(from_acl_right).collect(),
        }),
        p::Response::MyRights(x) => m::ServerResponse::MyRights(m::MyRightsData {
            mailbox: x.mailbox.into_owned(),
            rights: x.rights.into_iter().map(from_acl_right).collect(),
        }),
        _ => m::ServerResponse::Other,
    }
}

/// Converts a right, one variant each.
#[verifier::external_body]
fn from_acl_right(r: WireRight) -> m::AclRight {
    match r {
        WireRight::Lookup => m::AclRight::Lookup, WireRight::Read => m::AclRight::Read,
        WireRight::Seen => m::AclRight::Seen, WireRight::Write => m::AclRight::Write,
        WireRight::Insert => m::AclRight::Insert, WireRight::Post => m::AclRight::Post,
        WireRight::CreateMailbox => m::AclRight::CreateMailbox,
        WireRight::DeleteMailbox => m::AclRight::DeleteMailbox,
        WireRight::DeleteMessage => m::AclRight::DeleteMessage,
        WireRight::Expunge => m::AclRight::Expunge, WireRight::Administer => m::AclRight::Administer,
        WireRight::Annotation => m::AclRight::Annotation, WireRight::OldCreate => m::AclRight::OldCreate,
        WireRight::OldDelete => m::AclRight::OldDelete, WireRight::Custom(c) => m::AclRight::Custom(c),
    }
}

/// Converts a status, one variant each.
#[verifier::external_body]
fn from_status(s: imap_proto::types::Status) -> m::ResponseStatus {
    match s {
        p::Status::Ok => m::ResponseStatus::Okay,
        p::Status::No => m::ResponseStatus::No,
        p::Status::Bad => m::ResponseStatus::Bad,
        p::Status::PreAuth => m::ResponseStatus::PreAuth,
        p::Status::Bye => m::ResponseStatus::Bye,
    }
}

/// Converts a capability, one variant each.
#[verifier::external_body]
fn from_capability(c: imap_proto::types::Capability<'_>) -> m::ServerCapability {
    match c {
        p::Capability::Imap4rev1 => m::ServerCapability::Imap4rev1,
        p::Capability::Auth(s) => m::ServerCapability::Auth(s.into_owned()),
        p::Capability::Atom(s) => m::ServerCapability::Atom(s.into_owned()),
    }
}

/// Converts a response code, one variant each (first part).
#[verifier::external_body]
fn from_code(c: imap_proto::types::ResponseCode<'_>) -> m::StatusCode {
    match c {
        p::ResponseCode::Alert => m::StatusCode::Alert,
        p::ResponseCode::BadCharset(v) => m::StatusCode::BadCharset(v.map(strings)),
        p::ResponseCode::Capabilities(v) => m::StatusCode::Capabilities(v.into_iter().map(from_capability).collect()),
        p::ResponseCode::HighestModSeq(n) => m::StatusCode::HighestModSeq(n),
        p::ResponseCode::Parse => m::StatusCode::Parse,
        p::ResponseCode::PermanentFlags(v) => m::StatusCode::PermanentFlags(strings(v)),
        p::ResponseCode::ReadOnly => m::StatusCode::ReadOnly,
        p::ResponseCode::ReadWrite => m::StatusCode::ReadWrite,
        p::ResponseCode::TryCreate => m::StatusCode::TryCreate,
        other => from_code_rest(other),
    }
}

/// Converts a response code, one variant each (second part).
#[verifier::external_body]
fn from_code_rest(c: imap_proto::types::ResponseCode<'_>) -> m::StatusCode {
    match c {
        p::ResponseCode::UidNext(n) => m::StatusCode::UidNext(n),
        p::ResponseCode::UidValidity(n) => m::StatusCode::UidValidity(n),
        p::ResponseCode::Unseen(n) => m::StatusCode::Unseen(n),
        p::ResponseCode::AppendUid(n, a) => m::StatusCode::AppendUid(n, uid_set(a)),
        p::ResponseCode::CopyUid(n, a, b) => m::StatusCode::CopyUid(n, uid_set(a), uid_set(b)),
        p::ResponseCode::UidNotSticky => m::StatusCode::UidNotSticky,
        p::ResponseCode::MetadataLongEntries(n) => m::StatusCode::MetadataLongEntries(n),
        p::ResponseCode::MetadataMaxSize(n) => m::StatusCode::MetadataMaxSize(n),
        p::ResponseCode::MetadataTooMany => m::StatusCode::MetadataTooMany,
        p::ResponseCode::MetadataNoPrivate => m::StatusCode::MetadataNoPrivate,
        _ => m::StatusCode::Other,
    }
}

/// Converts a UID set, one variant each.
#[verifier::external_body]
fn uid_set(v: Vec<imap_proto::types::UidSetMember>) -> Vec<m::UidSetItem> {
    v.into_iter().map(|x| match x {
        p::UidSetMember::UidRange(r) => m::UidSetItem::UidRange(r),
        p::UidSetMember::Uid(u) => m::UidSetItem::Uid(u),
    }).collect()
}

/// Converts mailbox data, one variant each (first part).
#[verifier::external_body]
fn from_datum(d: imap_proto::types::MailboxDatum<'_>) -> m::MailboxData {
    match d {
        p::MailboxDatum::Exists(n) => m::MailboxData::Exists(n),
        p::MailboxDatum::Flags(v) => m::MailboxData::Flags(strings(v)),
        p::MailboxDatum::List { name_attributes, delimiter, name } => m::MailboxData::List {
            name_attributes: name_attributes.into_iter().map(from_name_attribute).collect(),
            delimiter: owned(delimiter), name: name.into_owned(),
        },
        p::MailboxDatum::Search(v) => m::MailboxData::Search(v),
        p::MailboxDatum::Sort(v) => m::MailboxData::Sort(v),
        p::MailboxDatum::Recent(n) => m::MailboxData::Recent(n),
        p::MailboxDatum::MetadataUnsolicited { mailbox, values } => m::MailboxData::MetadataUnsolicited { mailbox: mailbox.into_owned(), values: strings(values) },
        other => from_datum_rest(other),
    }
}

/// Converts mailbox data, one variant each (second part).
#[verifier::external_body]
fn from_datum_rest(d: imap_proto::types::MailboxDatum<'_>) -> m::MailboxData {
    match d {
        p::MailboxDatum::Status { mailbox, status } => m::MailboxData::Status {
            mailbox: mailbox.into_owned(), status: status.into_iter().map(from_status_attribute).collect(),
        },
        p::MailboxDatum::MetadataSolicited { mailbox, values } => m::MailboxData::MetadataSolicited {
            mailbox: mailbox.into_owned(), values: values.into_iter().map(|x| m::Metadata { entry: x.entry, value: x.value }).collect(),
        },
        p::MailboxDatum::GmailLabels(v) => m::MailboxData::GmailLabels(strings(v)),
        p::MailboxDatum::GmailMsgId(n) => m::MailboxData::GmailMsgId(n),
        p::MailboxDatum::GmailThrId(n) => m::MailboxData::GmailThrId(n),
        _ => m::MailboxData::Other,
    }
}

/// Converts a status attribute, one variant each.
#[verifier::external_body]
fn from_status_attribute(a: imap_proto::types::StatusAttribute) -> m::StatusItem {
    match a {
        p::StatusAttribute::HighestModSeq(n) => m::StatusItem::HighestModSeq(n),
        p::StatusAttribute::Messages(n) => m::StatusItem::Messages(n),
        p::StatusAttribute::Recent(n) => m::StatusItem::Recent(n),
        p::StatusAttribute::UidNext(n) => m::StatusItem::UidNext(n),
        p::StatusAttribute::UidValidity(n) => m::StatusItem::UidValidity(n),
        p::StatusAttribute::Unseen(n) => m::StatusItem::Unseen(n),
        _ => m::StatusItem::Other,
    }
}

/// Converts a name attribute, one variant each (first part).
#[verifier::external_body]
fn from_name_attribute(a: imap_proto::types::NameAttribute<'_>) -> m::MailboxAttribute {
    match a {
        p::NameAttribute::NoInferiors => m::MailboxAttribute::NoInferiors,
        p::NameAttribute::NoSelect => m::MailboxAttribute::NoSelect,
        p::NameAttribute::Marked => m::MailboxAttribute::Marked,
        p::NameAttribute::Unmarked => m::MailboxAttribute::Unmarked,
        p::NameAttribute::All => m::MailboxAttribute::All,
        p::NameAttribute::Archive => m::MailboxAttribute::Archive,
        other => from_name_attribute_rest(other),
    }
}

/// Converts a name attribute, one variant each (second part).
#[verifier::external_body]
fn from_name_attribute_rest(a: imap_proto::types::NameAttribute<'_>) -> m::MailboxAttribute {
    match a {
        p::NameAttribute::Drafts => m::MailboxAttribute::Drafts,
        p::NameAttribute::Flagged => m::MailboxAttribute::Flagged,
        p::NameAttribute::Junk => m::MailboxAttribute::Junk,
        p::NameAttribute::Sent => m::MailboxAttribute::Sent,
        p::NameAttribute::Trash => m::MailboxAttribute::Trash,
        p::NameAttribute::Extension(s) => m::MailboxAttribute::Extension(s.into_owned()),
        _ => m::MailboxAttribute::Other,
    }
}

/// Converts a fetch data item, one variant each (first part).
#[verifier::external_body]
fn from_attribute(a: imap_proto::types::AttributeValue<'_>) -> m::FetchAttribute {
    match a {
        p::AttributeValue::BodySection { section, index, data } => m::FetchAttribute::BodySection {
            section: section.map(from_section_path), index, data: bytes(data),
        },
        p::AttributeValue::BodyStructure(b) => m::FetchAttribute::BodyStructure(b.into_owned()),
        p::AttributeValue::Envelope(e) => m::FetchAttribute::Envelope(from_envelope(*e)),
        p::AttributeValue::Flags(v) => m::FetchAttribute::Flags(strings(v)),
        p::AttributeValue::InternalDate(s) => m::FetchAttribute::InternalDate(s.into_owned()),
        p::AttributeValue::ModSeq(n) => m::FetchAttribute::ModSeq(n),
        other => from_attribute_rest(other),
    }
}

/// Converts a fetch data item, one variant each (second part).
#[verifier::external_body]
fn from_attribute_rest(a: imap_proto::types::AttributeValue<'_>) -> m::FetchAttribute {
    match a {
        p::AttributeValue::Rfc822(b) => m::FetchAttribute::Rfc822(bytes(b)),
        p::AttributeValue::Rfc822Header(b) => m::FetchAttribute::Rfc822Header(bytes(b)),
        p::AttributeValue::Rfc822Size(n) => m::FetchAttribute::Rfc822Size(n),
        p::AttributeValue::Rfc822Text(b) => m::FetchAttribute::Rfc822Text(bytes(b)),
        p::AttributeValue::Uid(n) => m::FetchAttribute::Uid(n),
        p::AttributeValue::GmailLabels(v) => m::FetchAttribute::GmailLabels(strings(v)),
        p::AttributeValue::GmailMsgId(n) => m::FetchAttribute::GmailMsgId(n),
        p::AttributeValue::GmailThrId(n) => m::FetchAttribute::GmailThrId(n),
        _ => m::FetchAttribute::Other,
    }
}

/// Converts a section path, one variant each.
#[verifier::external_body]
fn from_section_path(p: imap_proto::types::SectionPath) -> m::SectionSpec {
    match p {
        p::SectionPath::Full(s) => m::SectionSpec::Full(from_message_section(s)),
        p::SectionPath::Part(v, s) => m::SectionSpec::Part(v, s.map(from_message_section)),
    }
}

/// Converts a message section, one variant each.
#[verifier::external_body]
fn from_message_section(s: imap_proto::types::MessageSection) -> m::SectionPart {
    match s {
        p::MessageSection::Header => m::SectionPart::Header,
        p::MessageSection::Mime => m::SectionPart::Mime,
        p::MessageSection::Text => m::SectionPart::Text,
    }
}

/// Converts an envelope, field by field.
#[verifier::external_body]
fn from_envelope(e: imap_proto::types::Envelope<'_>) -> m::MessageEnvelope {
    m::MessageEnvelope {
        date: bytes(e.date),
        subject: bytes(e.subject),
        from: addresses(e.from),
        sender: addresses(e.sender),
        reply_to: addresses(e.reply_to),
        to: addresses(e.to),
        cc: addresses(e.cc),
        bcc: addresses(e.bcc),
        in_reply_to: bytes(e.in_reply_to),
        message_id: bytes(e.message_id),
    }
}

/// Converts a list of addresses, field by field.
#[verifier::external_body]
fn addresses(v: Option<Vec<imap_proto::types::Address<'_>>>) -> Option<Vec<m::EnvelopeAddress>> {
    v.map(|v| v.into_iter().map(|a| m::EnvelopeAddress {
        name: bytes(a.name), adl: bytes(a.adl), mailbox: bytes(a.mailbox), host: bytes(a.host),
    }).collect())
}

/// Converts a quota, field by field.
#[verifier::external_body]
fn from_quota(root_name: Cow<'_, str>, resources: Vec<imap_proto::types::QuotaResource<'_>>) -> m::QuotaData {
    m::QuotaData {
        root_name: root_name.into_owned(),
        resources: resources.into_iter().map(|r| m::QuotaUsage {
            name: match r.name {
                p::QuotaResourceName::Storage => m::QuotaResourceName::Storage,
                p::QuotaResourceName::Message => m::QuotaResourceName::Message,
                p::QuotaResourceName::Atom(s) => m::QuotaResourceName::Atom(s.into_owned()),
            },
            usage: r.usage, limit: r.limit,
        }).collect(),
    }
}

} // verus!
