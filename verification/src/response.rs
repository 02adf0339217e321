//! The library's own model of a server response line.
//!
//! Every value here is made of plain data (integers, strings, byte vectors),
//! so the logic that consumes server responses can be stated and proved over
//! it. The grammar itself is parsed by `imap_proto`; `crate::proto` turns its
//! borrowed values into these owned ones.

use std::ops::RangeInclusive;
use vstd::prelude::*;

verus! {

/// `Clone` of an inclusive range, as derived by std; nothing is stated of the copy.
pub assume_specification<Idx: Clone>[ <RangeInclusive<Idx> as Clone>::clone ](
    r: &RangeInclusive<Idx>,
) -> RangeInclusive<Idx>;

/// Status of a tagged or untagged response.
#[derive(Debug, Clone, Copy, PartialEq, Eq)]
pub enum ResponseStatus {
    Okay,
    No,
    Bad,
    PreAuth,
    Bye,
}

/// A capability announced by the server.
#[derive(Debug, Clone, PartialEq, Eq, Hash)]
pub enum ServerCapability {
    Imap4rev1,
    Auth(String),
    Atom(String),
}

/// One member of a UID set.
#[derive(Debug, Clone, PartialEq, Eq)]
pub enum UidSetItem {
    UidRange(RangeInclusive<u32>),
    Uid(u32),
}

/// A response code carried in brackets by a status response.
#[derive(Debug, Clone, PartialEq, Eq)]
pub enum StatusCode {
    Alert,
    BadCharset(Option<Vec<String>>),
    Capabilities(Vec<ServerCapability>),
    HighestModSeq(u64),
    Parse,
    PermanentFlags(Vec<String>),
    ReadOnly,
    ReadWrite,
    TryCreate,
    UidNext(u32),
    UidValidity(u32),
    Unseen(u32),
    AppendUid(u32, Vec<UidSetItem>),
    CopyUid(u32, Vec<UidSetItem>, Vec<UidSetItem>),
    UidNotSticky,
    MetadataLongEntries(u64),
    MetadataMaxSize(u64),
    MetadataTooMany,
    MetadataNoPrivate,
    /// A code of a kind that this model does not distinguish.
    Other,
}

/// An attribute of a `STATUS` response.
#[derive(Debug, Clone, Copy, PartialEq, Eq)]
pub enum StatusItem {
    HighestModSeq(u64),
    Messages(u32),
    Recent(u32),
    UidNext(u32),
    UidValidity(u32),
    Unseen(u32),
    /// An attribute of a kind that this model does not distinguish.
    Other,
}

/// A mailbox annotation (RFC 5464).
#[derive(Debug, Clone, PartialEq, Eq)]
pub struct Metadata {
    pub entry: String,
    pub value: Option<String>,
}

/// A name attribute of a `LIST` response (RFC 3501 and RFC 6154).
#[derive(Debug, Clone, PartialEq, Eq)]
pub enum MailboxAttribute {
    NoInferiors,
    NoSelect,
    Marked,
    Unmarked,
    All,
    Archive,
    Drafts,
    Flagged,
    Junk,
    Sent,
    Trash,
    Extension(String),
    /// An attribute of a kind that this model does not distinguish.
    Other,
}

/// A part of a message named in a `BODY[...]` section.
#[derive(Debug, Clone, Copy, PartialEq, Eq)]
pub enum SectionPart {
    Header,
    Mime,
    Text,
}

/// The section path of a `BODY[...]` fetch attribute.
#[derive(Debug, Clone, PartialEq, Eq)]
pub enum SectionSpec {
    Full(SectionPart),
    Part(Vec<u32>, Option<SectionPart>),
}

/// An address of an RFC 2822 envelope.
#[derive(Debug, Clone, PartialEq, Eq)]
pub struct EnvelopeAddress {
    pub name: Option<Vec<u8>>,
    pub adl: Option<Vec<u8>>,
    pub mailbox: Option<Vec<u8>>,
    pub host: Option<Vec<u8>>,
}

/// An RFC 2822 envelope, as computed by the server.
#[derive(Debug, Clone, PartialEq, Eq)]
pub struct MessageEnvelope {
    pub date: Option<Vec<u8>>,
    pub subject: Option<Vec<u8>>,
    pub from: Option<Vec<EnvelopeAddress>>,
    pub sender: Option<Vec<EnvelopeAddress>>,
    pub reply_to: Option<Vec<EnvelopeAddress>>,
    pub to: Option<Vec<EnvelopeAddress>>,
    pub cc: Option<Vec<EnvelopeAddress>>,
    pub bcc: Option<Vec<EnvelopeAddress>>,
    pub in_reply_to: Option<Vec<u8>>,
    pub message_id: Option<Vec<u8>>,
}

/// A data item of a `FETCH` response.
#[derive(Debug, PartialEq, Eq)]
pub enum FetchAttribute {
    BodySection { section: Option<SectionSpec>, index: Option<u32>, data: Option<Vec<u8>> },
    /// The body structure, as `imap_proto` parses it; the library carries it unread.
    BodyStructure(imap_proto::types::BodyStructure<'static>),
    Envelope(MessageEnvelope),
    Flags(Vec<String>),
    InternalDate(String),
    ModSeq(u64),
    Rfc822(Option<Vec<u8>>),
    Rfc822Header(Option<Vec<u8>>),
    Rfc822Size(u32),
    Rfc822Text(Option<Vec<u8>>),
    Uid(u32),
    GmailLabels(Vec<String>),
    GmailMsgId(u64),
    GmailThrId(u64),
    /// A data item of a kind that this model does not distinguish.
    Other,
}

/// Mailbox data carried by an untagged response.
#[derive(Debug, Clone, PartialEq, Eq)]
pub enum MailboxData {
    Exists(u32),
    Flags(Vec<String>),
    List { name_attributes: Vec<MailboxAttribute>, delimiter: Option<String>, name: String },
    Search(Vec<u32>),
    Sort(Vec<u32>),
    Status { mailbox: String, status: Vec<StatusItem> },
    Recent(u32),
    MetadataSolicited { mailbox: String, values: Vec<Metadata> },
    MetadataUnsolicited { mailbox: String, values: Vec<String> },
    GmailLabels(Vec<String>),
    GmailMsgId(u64),
    GmailThrId(u64),
    /// Mailbox data of a kind that this model does not distinguish.
    Other,
}

/// Name of a quota resource (RFC 2087).
#[derive(Debug, Clone, PartialEq, Eq)]
pub enum QuotaResourceName {
    Storage,
    Message,
    Atom(String),
}

/// One resource of a `QUOTA` response.
#[derive(Debug, Clone, PartialEq, Eq)]
pub struct QuotaUsage {
    pub name: QuotaResourceName,
    pub usage: u64,
    pub limit: u64,
}

/// A `QUOTA` response.
#[derive(Debug, Clone, PartialEq, Eq)]
pub struct QuotaData {
    pub root_name: String,
    pub resources: Vec<QuotaUsage>,
}

/// A `QUOTAROOT` response.
#[derive(Debug, Clone, PartialEq, Eq)]
pub struct QuotaRootData {
    pub mailbox_name: String,
    pub quota_root_names: Vec<String>,
}

/// An access right of RFC 4314.
#[derive(Debug, Clone, Copy, PartialEq, Eq, Hash, Structural)]
pub enum AclRight {
    Lookup,
    Read,
    Seen,
    Write,
    Insert,
    Post,
    CreateMailbox,
    DeleteMailbox,
    DeleteMessage,
    Expunge,
    Administer,
    Annotation,
    OldCreate,
    OldDelete,
    Custom(char),
}

impl AclRight {
    /// The right named by a letter of RFC 4314; any other letter is a custom right.
    pub open spec fn spec_from_char(c: char) -> AclRight {
        match c {
            'l' => AclRight::Lookup,
            'r' => AclRight::Read,
            's' => AclRight::Seen,
            'w' => AclRight::Write,
            'i' => AclRight::Insert,
            'p' => AclRight::Post,
            'k' => AclRight::CreateMailbox,
            'x' => AclRight::DeleteMailbox,
            't' => AclRight::DeleteMessage,
            'e' => AclRight::Expunge,
            'a' => AclRight::Administer,
            'n' => AclRight::Annotation,
            'c' => AclRight::OldCreate,
            'd' => AclRight::OldDelete,
            _ => AclRight::Custom(c),
        }
    }

    /// The letter that names this right.
    pub open spec fn spec_to_char(self) -> char {
        match self {
            AclRight::Lookup => 'l',
            AclRight::Read => 'r',
            AclRight::Seen => 's',
            AclRight::Write => 'w',
            AclRight::Insert => 'i',
            AclRight::Post => 'p',
            AclRight::CreateMailbox => 'k',
            AclRight::DeleteMailbox => 'x',
            AclRight::DeleteMessage => 't',
            AclRight::Expunge => 'e',
            AclRight::Administer => 'a',
            AclRight::Annotation => 'n',
            AclRight::OldCreate => 'c',
            AclRight::OldDelete => 'd',
            AclRight::Custom(c) => c,
        }
    }

    /// The right named by a letter of RFC 4314; any other letter is a custom right.
    pub fn from_char(c: char) -> (r: AclRight)
        ensures
            r == Self::spec_from_char(c),
    {
        match c {
            'l' => AclRight::Lookup,
            'r' => AclRight::Read,
            's' => AclRight::Seen,
            'w' => AclRight::Write,
            'i' => AclRight::Insert,
            'p' => AclRight::Post,
            'k' => AclRight::CreateMailbox,
            'x' => AclRight::DeleteMailbox,
            't' => AclRight::DeleteMessage,
            'e' => AclRight::Expunge,
            'a' => AclRight::Administer,
            'n' => AclRight::Annotation,
            'c' => AclRight::OldCreate,
            'd' => AclRight::OldDelete,
            _ => AclRight::Custom(c),
        }
    }

    /// The letter that names this right.
    pub fn to_char(self) -> (c: char)
        ensures
            c == self.spec_to_char(),
    {
        match self {
            AclRight::Lookup => 'l',
            AclRight::Read => 'r',
            AclRight::Seen => 's',
            AclRight::Write => 'w',
            AclRight::Insert => 'i',
            AclRight::Post => 'p',
            AclRight::CreateMailbox => 'k',
            AclRight::DeleteMailbox => 'x',
            AclRight::DeleteMessage => 't',
            AclRight::Expunge => 'e',
            AclRight::Administer => 'a',
            AclRight::Annotation => 'n',
            AclRight::OldCreate => 'c',
            AclRight::OldDelete => 'd',
            AclRight::Custom(c) => c,
        }
    }
}

/// Every right of RFC 4314 is named by its own letter (section 2.1 of RFC 4314, and `c` and `d`
/// of RFC 2086): reading a letter and writing the right gives the letter back, and writing a
/// right of RFC 4314 and reading the letter gives the right back.
pub proof fn lemma_rights_named_by_letters()
    ensures
        AclRight::Lookup.spec_to_char() == 'l',
        AclRight::Read.spec_to_char() == 'r',
        AclRight::Seen.spec_to_char() == 's',
        AclRight::Write.spec_to_char() == 'w',
        AclRight::Insert.spec_to_char() == 'i',
        AclRight::Post.spec_to_char() == 'p',
        AclRight::CreateMailbox.spec_to_char() == 'k',
        AclRight::DeleteMailbox.spec_to_char() == 'x',
        AclRight::DeleteMessage.spec_to_char() == 't',
        AclRight::Expunge.spec_to_char() == 'e',
        AclRight::Administer.spec_to_char() == 'a',
        AclRight::Annotation.spec_to_char() == 'n',
        AclRight::OldCreate.spec_to_char() == 'c',
        AclRight::OldDelete.spec_to_char() == 'd',
        forall|c: char| #[trigger] AclRight::spec_from_char(c).spec_to_char() == c,
        forall|r: AclRight| !(r is Custom) ==> AclRight::spec_from_char(#[trigger] r.spec_to_char()) == r,
{
}

/// One identifier/rights pair of an `ACL` response.
#[derive(Debug, Clone, PartialEq, Eq)]
pub struct AclEntryData {
    pub identifier: String,
    pub rights: Vec<AclRight>,
}

/// An `ACL` response.
#[derive(Debug, Clone, PartialEq, Eq)]
pub struct AclData {
    pub mailbox: String,
    pub acls: Vec<AclEntryData>,
}

/// A `LISTRIGHTS` response.
#[derive(Debug, Clone, PartialEq, Eq)]
pub struct ListRightsData {
    pub mailbox: String,
    pub identifier: String,
    pub required: Vec<AclRight>,
    pub optional: Vec<AclRight>,
}

/// A `MYRIGHTS` response.
#[derive(Debug, Clone, PartialEq, Eq)]
pub struct MyRightsData {
    pub mailbox: String,
    pub rights: Vec<AclRight>,
}

/// One complete server response.
#[derive(Debug, PartialEq, Eq)]
pub enum ServerResponse {
    Capabilities(Vec<ServerCapability>),
    Continue { code: Option<StatusCode>, information: Option<String> },
    Done { tag: String, status: ResponseStatus, code: Option<StatusCode>, information: Option<String> },
    Data { status: ResponseStatus, code: Option<StatusCode>, information: Option<String> },
    Expunge(u32),
    Vanished { earlier: bool, uids: Vec<RangeInclusive<u32>> },
    Fetch(u32, Vec<FetchAttribute>),
    MailboxData(MailboxData),
    Quota(QuotaData),
    QuotaRoot(QuotaRootData),
    /// An `ID` response; its fields are read from the raw bytes by `types::IdResponse`.
    Id,
    Acl(AclData),
    ListRights(ListRightsData),
    MyRights(MyRightsData),
    /// A response of a kind that this model does not distinguish.
    Other,
}

/// The outcome of parsing the start of a byte buffer as one response.
#[derive(Debug, PartialEq, Eq)]
pub enum Line {
    /// The buffer holds the start of a response but not all of it.
    Incomplete,
    /// The buffer does not start with a response.
    Invalid,
    /// A response was parsed; `rest_len` bytes of the buffer follow it.
    Parsed { rest_len: usize, response: ServerResponse },
}

} // verus!
