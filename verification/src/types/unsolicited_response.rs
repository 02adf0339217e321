use super::flag::{are_flags_of, Flag};
use crate::response::{
    FetchAttribute, MailboxData, ResponseStatus, ServerResponse, StatusCode, StatusItem,
};
use std::ops::RangeInclusive;
use vstd::prelude::*;

verus! {

/// Responses that the server sends that are not related to the current command.
/// [RFC 3501](https://tools.ietf.org/html/rfc3501#section-7) states that clients need to be able
/// to accept any response at any time.
///
/// Note that `Recent`, `Exists` and `Expunge` responses refer to the currently `SELECT`ed folder,
/// so the user must take care when interpreting these.
#[derive(Debug, PartialEq, Eq)]
pub enum UnsolicitedResponse {
    /// An unsolicited `BYE` response.
    Bye {
        /// Optional response code.
        code: Option<StatusCode>,
        /// Information text that may be presented to the user.
        information: Option<String>,
    },
    /// An unsolicited `EXISTS` response that reports the number of messages in the mailbox.
    Exists(u32),
    /// An unsolicited `EXPUNGE` response that reports that the specified message sequence number
    /// has been permanently removed from the mailbox.
    Expunge(u32),
    /// An unsolicited `FETCH` response.
    Fetch {
        /// Message identifier.
        id: u32,
        /// Attribute values for this message.
        attributes: Vec<FetchAttribute>,
    },
    /// An unsolicited `FLAGS` response that identifies the flags that are applicable in the
    /// mailbox.
    Flags(Vec<Flag>),
    /// An unsolicited METADATA response (RFC 5464, section 4.4.2) that reports a change in a
    /// server or mailbox annotation.
    Metadata {
        /// Mailbox name for which annotations were changed.
        mailbox: String,
        /// List of annotations that were changed.
        metadata_entries: Vec<String>,
    },
    /// An unsolicited `OK` response.
    Okay {
        /// Optional response code.
        code: Option<StatusCode>,
        /// Information text that may be presented to the user.
        information: Option<String>,
    },
    /// An unsolicited `RECENT` response indicating the number of messages with the `\Recent`
    /// flag set.
    Recent(u32),
    /// An unsolicited `STATUS` response.
    Status {
        /// The mailbox that this status response is for.
        mailbox: String,
        /// The attributes of this mailbox.
        attributes: Vec<StatusItem>,
    },
    /// An unsolicited `VANISHED` response (RFC 7162) that reports a sequence-set of `UID`s that
    /// have been expunged from the mailbox.
    Vanished {
        /// Whether the `EARLIER` tag was set on the response
        earlier: bool,
        /// The list of `UID`s which have been removed
        uids: Vec<RangeInclusive<u32>>,
    },
}

/// Whether a response is one that the server may send unilaterally, at any time.
pub open spec fn is_unilateral(r: ServerResponse) -> bool {
    match r {
        ServerResponse::Data { status, .. } => status == ResponseStatus::Bye || status
            == ResponseStatus::Okay,
        ServerResponse::Expunge(_) => true,
        ServerResponse::Fetch(_, _) => true,
        ServerResponse::MailboxData(d) => match d {
            MailboxData::Exists(_) => true,
            MailboxData::Flags(_) => true,
            MailboxData::MetadataUnsolicited { .. } => true,
            MailboxData::Recent(_) => true,
            MailboxData::Status { .. } => true,
            _ => false,
        },
        ServerResponse::Vanished { .. } => true,
        _ => false,
    }
}

/// Whether `u` is the unsolicited response that the unilateral response `r` reports.
pub open spec fn is_unsolicited_of(u: UnsolicitedResponse, r: ServerResponse) -> bool {
    match r {
        ServerResponse::Data { status, code, information } => if status == ResponseStatus::Bye {
            u == UnsolicitedResponse::Bye { code, information }
        } else {
            u == UnsolicitedResponse::Okay { code, information }
        },
        ServerResponse::Expunge(n) => u == UnsolicitedResponse::Expunge(n),
        ServerResponse::Fetch(id, attributes) => u == UnsolicitedResponse::Fetch { id, attributes },
        ServerResponse::MailboxData(d) => match d {
            MailboxData::Exists(n) => u == UnsolicitedResponse::Exists(n),
            MailboxData::Flags(ss) => u matches UnsolicitedResponse::Flags(fs) && are_flags_of(
                fs@,
                ss@,
            ),
            MailboxData::MetadataUnsolicited { mailbox, values } => u
                == UnsolicitedResponse::Metadata { mailbox, metadata_entries: values },
            MailboxData::Recent(n) => u == UnsolicitedResponse::Recent(n),
            MailboxData::Status { mailbox, status } => u == UnsolicitedResponse::Status {
                mailbox,
                attributes: status,
            },
            _ => false,
        },
        ServerResponse::Vanished { earlier, uids } => u == UnsolicitedResponse::Vanished {
            earlier,
            uids,
        },
        _ => false,
    }
}

/// Each response that a server may send at any time is reported as the unsolicited response
/// of the same kind with the same data: `EXISTS`, `RECENT` and `EXPUNGE` with their number, an
/// untagged `OK` as `Okay` and `BYE` as `Bye` with their code and text; untagged `NO` and `BAD`
/// are no such response; and a response is reported in one way only.
pub proof fn lemma_unsolicited_kinds(
    n: u32,
    code: Option<StatusCode>,
    information: Option<String>,
    r: ServerResponse,
    u: UnsolicitedResponse,
    v: UnsolicitedResponse,
)
    ensures
        is_unsolicited_of(u, ServerResponse::MailboxData(MailboxData::Exists(n))) <==> u == UnsolicitedResponse::Exists(n),
        is_unsolicited_of(u, ServerResponse::MailboxData(MailboxData::Recent(n))) <==> u == UnsolicitedResponse::Recent(n),
        is_unsolicited_of(u, ServerResponse::Expunge(n)) <==> u == UnsolicitedResponse::Expunge(n),
        is_unsolicited_of(u, ServerResponse::Data { status: ResponseStatus::Okay, code, information })
            <==> u == (UnsolicitedResponse::Okay { code, information }),
        is_unsolicited_of(u, ServerResponse::Data { status: ResponseStatus::Bye, code, information })
            <==> u == (UnsolicitedResponse::Bye { code, information }),
        !is_unilateral(ServerResponse::Data { status: ResponseStatus::No, code, information }),
        !is_unilateral(ServerResponse::Data { status: ResponseStatus::Bad, code, information }),
        is_unsolicited_of(u, r) && is_unsolicited_of(v, r) && !(r matches ServerResponse::MailboxData(MailboxData::Flags(_)))
            ==> u == v,
{
}

impl UnsolicitedResponse {
    /// Converts a response that the server may send unilaterally into an
    /// [`UnsolicitedResponse`]; any other response is handed back unchanged.
    pub fn try_from(response: ServerResponse) -> (res: Result<UnsolicitedResponse, ServerResponse>)
        ensures
            match res {
                Ok(u) => is_unilateral(response) && is_unsolicited_of(u, response),
                Err(r) => !is_unilateral(response) && r == response,
            },
    {
        match response {
            ServerResponse::Data { status: ResponseStatus::Bye, code, information } => Ok(
                UnsolicitedResponse::Bye { code, information },
            ),
            ServerResponse::Data { status: ResponseStatus::Okay, code, information } => Ok(
                UnsolicitedResponse::Okay { code, information },
            ),
            ServerResponse::Expunge(n) => Ok(UnsolicitedResponse::Expunge(n)),
            ServerResponse::Fetch(id, attributes) => Ok(UnsolicitedResponse::Fetch { id, attributes }),
            ServerResponse::MailboxData(MailboxData::Exists(n)) => Ok(UnsolicitedResponse::Exists(n)),
            ServerResponse::MailboxData(MailboxData::Flags(flags)) => Ok(
                UnsolicitedResponse::Flags(Flag::from_strs(flags)),
            ),
            ServerResponse::MailboxData(MailboxData::MetadataUnsolicited { mailbox, values }) => Ok(
                UnsolicitedResponse::Metadata { mailbox, metadata_entries: values },
            ),
            ServerResponse::MailboxData(MailboxData::Recent(n)) => Ok(UnsolicitedResponse::Recent(n)),
            ServerResponse::MailboxData(MailboxData::Status { mailbox, status }) => Ok(
                UnsolicitedResponse::Status { mailbox, attributes: status },
            ),
            ServerResponse::Vanished { earlier, uids } => Ok(UnsolicitedResponse::Vanished { earlier, uids }),
            other => Err(other),
        }
    }
}

} // verus!
