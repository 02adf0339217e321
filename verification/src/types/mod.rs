//! This module contains types used throughout the IMAP protocol.

pub mod flag;
pub use self::flag::Flag;

pub mod unsolicited_response;
pub use self::unsolicited_response::UnsolicitedResponse;

pub mod deleted;
pub use self::deleted::{Deleted, DeletedMessages};

pub mod mailbox;
pub use self::mailbox::Mailbox;

pub mod name;
pub use self::name::{Name, Names};

pub mod capabilities;
pub use self::capabilities::Capabilities;

pub mod fetch;
pub use self::fetch::{Fetch, Fetches, InternalDate};

pub mod quota;
pub use self::quota::{Quota, QuotaLimit, QuotaLimitName, QuotaRoot};

pub mod acls;
pub use self::acls::{
    Acl, AclEntry, AclModifyMode, AclResponse, AclRightError, AclRights, ListRights,
    ListRightsResponse, MyRights, MyRightsResponse,
};

pub mod id;
pub use self::id::IdResponse;

pub mod appended;
pub use self::appended::Appended;

use vstd::prelude::*;

verus! {

/// The unique identifier of a message.
pub type Uid = u32;

} // verus!
