use imap::response::{AclRight, QuotaResourceName};
use imap::testing;
use imap::types::{AclRights, Flag, IdResponse, Mailbox, QuotaLimit, QuotaLimitName};
use std::convert::TryInto;

#[test]
fn flag_texts() {
    assert_eq!(Flag::from_str("\\Seen"), Flag::Seen);
    assert_eq!(Flag::from_str("\\*"), Flag::MayCreate);
    assert_eq!(Flag::from_str("$Forwarded"), Flag::Custom("$Forwarded".to_string()));
    assert_eq!(Flag::system("\\Deleted"), Some(Flag::Deleted));
    assert_eq!(Flag::system("\\Unknown"), None);
    assert_eq!(Flag::Answered.to_string(), "\\Answered");
    assert_eq!(Flag::Custom("x".to_string()).to_string(), "x");
    let flags = Flag::from_strs(vec!["\\Draft".to_string(), "y".to_string()]);
    assert_eq!(flags, vec![Flag::Draft, Flag::Custom("y".to_string())]);
}

#[test]
fn flag_round_trip() {
    for f in [Flag::Seen, Flag::Answered, Flag::Flagged, Flag::Deleted, Flag::Draft, Flag::Recent, Flag::MayCreate] {
        assert_eq!(Flag::from_str(&f.to_string()), f);
    }
    for s in ["\\Seen", "custom", "\\*"] {
        assert_eq!(Flag::from_str(s).to_string(), s);
    }
}

#[test]
fn id_response_fields() {
    let id = IdResponse::parse(b"* ID (\"name\" \"Cyrus\" \"version\" NIL \"os\" \"x\")");
    assert_eq!(id.len(), 3);
    assert_eq!(id.get(b"name"), Some("Cyrus".to_string()));
    assert_eq!(id.get(b"version"), None);
    assert_eq!(id.get(b"vendor"), None);
    assert_eq!(id.to_string(), "name=\"Cyrus\"; version=NIL; os=\"x\"; ");
}

#[test]
fn id_response_nil_and_invalid() {
    assert_eq!(IdResponse::parse(b"* ID NIL").len(), 0);
    assert_eq!(IdResponse::parse(b"* id nil").len(), 0);
    assert_eq!(IdResponse::parse(b"* LIST () \".\" foo").len(), 0);
    // A later field of the same name takes the place of the earlier one.
    let id = IdResponse::parse(b"* ID (\"a\" \"1\" \"a\" \"2\")");
    assert_eq!(id.len(), 1);
    assert_eq!(id.get(b"a"), Some("2".to_string()));
}

#[test]
fn mailbox_default() {
    let m = Mailbox::default();
    assert_eq!(m.exists, 0);
    assert_eq!(m.recent, 0);
    assert!(m.flags.is_empty());
    assert_eq!(m.unseen, None);
    assert!(!m.is_read_only);
}

#[test]
fn quota_limit_text() {
    let l = QuotaLimit { name: QuotaLimitName::Storage, amount: 500 };
    assert_eq!(l.to_string(), "STORAGE 500");
    assert_eq!(QuotaLimitName::Message.to_string(), "MESSAGE");
    assert_eq!(QuotaLimitName::Atom("X-NUM".to_string()).to_string(), "X-NUM");
}

#[test]
fn quota_response() {
    let q = testing::quota_response::parse(b"* QUOTA my_root (STORAGE 10 500)\r\n".to_vec());
    assert_eq!(q.root_name(), "my_root");
    assert_eq!(q.resources().len(), 1);
    assert_eq!(q.resources()[0].name, QuotaResourceName::Storage);
    assert_eq!(q.resources()[0].usage, 10);
    assert_eq!(q.resources()[0].limit, 500);
    assert!(testing::quota_response::parse_checked(b"* 1 EXISTS\r\n".to_vec()).is_none());
}

#[test]
fn quota_root_response() {
    let input = b"* QUOTAROOT INBOX my_root\r\n* QUOTA my_root (STORAGE 10 500)\r\n".to_vec();
    let q = testing::quota_root_response::parse(input);
    assert_eq!(q.mailbox_name(), "INBOX");
    assert_eq!(q.quota_root_names(), vec!["my_root"]);
    assert_eq!(q.quotas().len(), 1);
    assert_eq!(q.quotas()[0].root_name, "my_root");
}

#[test]
fn acl_response() {
    let r = testing::acl_response::parse(b"* ACL INBOX user1 lr user2 lrx\r\n".to_vec());
    let acl = r.parsed();
    assert_eq!(acl.mailbox(), "INBOX");
    assert_eq!(acl.acls().len(), 2);
    assert_eq!(acl.acls()[0].identifier, "user1");
    let lr: AclRights = "lr".try_into().unwrap();
    assert_eq!(acl.acls()[0].rights, lr);
    assert_eq!(acl.acls()[1].rights.to_string(), "lrx");
}

#[test]
fn list_rights_response() {
    let r = testing::list_rights_response::parse(b"* LISTRIGHTS INBOX myuser lr x k\r\n".to_vec());
    let l = r.parsed();
    assert_eq!(l.mailbox(), "INBOX");
    assert_eq!(l.identifier(), "myuser");
    assert_eq!(l.required().to_string(), "lr");
    assert!(l.optional().contains('x'));
    assert!(l.optional().contains(AclRight::CreateMailbox));
}

#[test]
fn my_rights_response() {
    let r = testing::my_rights_response::parse(b"* MYRIGHTS INBOX lrxk\r\n".to_vec());
    let m = r.parsed();
    assert_eq!(m.mailbox(), "INBOX");
    assert_eq!(m.rights().to_string(), "klrx");
    assert!(testing::my_rights_response::parse_checked(b"* ACL INBOX a l\r\n".to_vec()).is_none());
}

#[test]
fn testing_builders() {
    let caps = testing::capabilities::parse(b"* CAPABILITY IMAP4rev1 STARTTLS AUTH=GSSAPI LOGINDISABLED\r\n".to_vec());
    assert_eq!(caps.len(), 4);
    assert!(caps.has_str("STARTTLS"));
    assert!(caps.has_str("imap4rev1"));
    let fetches = testing::fetches::parse(b"* 24 FETCH (FLAGS (\\Seen) UID 4827943)\r\n* 25 FETCH (FLAGS (\\Seen))\r\n".to_vec());
    assert_eq!(fetches.len(), 2);
    let fetch = fetches.iter().next().unwrap();
    assert_eq!(fetch.message, 24);
    assert_eq!(fetch.uid, Some(4827943));
    assert_eq!(fetch.flags(), &[Flag::Seen]);
    let names = testing::names::parse(b"* LIST (\\HasNoChildren) \".\" \"INBOX\"\r\n".to_vec());
    assert_eq!(names.len(), 1);
    assert_eq!(names.get(0).unwrap().name(), "INBOX");
    assert_eq!(names.get(0).unwrap().delimiter(), Some("."));
    let ext = testing::extended_names::parse(b"* LIST () \".\" foo\r\n* STATUS foo (HIGHESTMODSEQ 122)\r\n".to_vec());
    assert_eq!(ext.len(), 1);
}

#[test]
fn fetch_sections() {
    let fetches = testing::fetches::parse(
        b"* 1 FETCH (RFC822.HEADER {5}\r\nhead: RFC822.TEXT {4}\r\ntext INTERNALDATE \"17-Jul-1996 02:44:25 -0700\")\r\n".to_vec(),
    );
    let f = fetches.iter().next().unwrap();
    assert_eq!(f.header(), Some(&b"head:"[..]));
    assert_eq!(f.text(), Some(&b"text"[..]));
    assert_eq!(f.body(), None);
    assert_eq!(f.internal_date_str(), Some("17-Jul-1996 02:44:25 -0700"));
}

#[test]
fn mailbox_text() {
    let mut m = Mailbox::default();
    assert_eq!(
        m.to_string(),
        "flags: [], exists: 0, recent: 0, unseen: None, permanent_flags: [],uid_next: None, uid_validity: None, highest_mod_seq: None, is_read_only: false"
    );
    m.flags = vec![Flag::Seen, Flag::Custom("$x\"".to_string())];
    m.exists = 12;
    m.uid_next = Some(7);
    m.highest_mod_seq = Some(90000000000);
    m.is_read_only = true;
    assert_eq!(
        m.to_string(),
        "flags: [Seen, Custom(\"$x\\\"\")], exists: 12, recent: 0, unseen: None, permanent_flags: [],uid_next: Some(7), uid_validity: None, highest_mod_seq: Some(90000000000), is_read_only: true"
    );
}

#[test]
fn id_response_lossy_value() {
    let id = IdResponse::parse(b"* ID (\"k\" \"a\xffb\")");
    assert_eq!(id.get(b"k"), Some("a\u{FFFD}b".to_string()));
}

#[test]
fn fetch_internal_date() {
    let fetches = testing::fetches::parse(
        b"* 1 FETCH (INTERNALDATE \"17-Jul-1996 02:44:25 -0700\")\r\n* 2 FETCH (INTERNALDATE \"yesterday\")\r\n".to_vec(),
    );
    let mut it = fetches.iter();
    let d = it.next().unwrap().internal_date().unwrap();
    assert_eq!(d.timestamp, 837596665);
    assert_eq!(d.utc_offset, -7 * 3600);
    assert_eq!(it.next().unwrap().internal_date(), None);
}
