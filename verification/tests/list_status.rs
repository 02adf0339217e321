use imap::extensions::list_status::{list_status_command, ExtendedNames};
use imap::response::MailboxAttribute;
use std::collections::VecDeque;

#[test]
fn parse_list_status_test() {
    let lines = b"\
                * LIST () \".\" foo\r\n\
                * STATUS foo (HIGHESTMODSEQ 122)\r\n\
                * LIST () \".\" foo.bar\r\n\
                * STATUS foo.bar (HIGHESTMODSEQ 132)\r\n\
                * LIST (\\UnMarked) \".\" feeds\r\n\
                * LIST () \".\" feeds.test\r\n\
                * STATUS feeds.test (HIGHESTMODSEQ 757)\r\n";
    let mut send = VecDeque::new();
    let fetches = ExtendedNames::parse(lines.to_vec(), &mut send).unwrap();
    assert!(send.is_empty());
    assert!(!fetches.is_empty());
    assert_eq!(fetches.len(), 4);
    let (name, status) = fetches.get(0).unwrap();
    assert_eq!(&name.name, "foo");
    assert!(status.is_some());
    assert_eq!(status.as_ref().unwrap().highest_mod_seq, Some(122));
    let (name, status) = fetches.get(1).unwrap();
    assert_eq!(&name.name, "foo.bar");
    assert!(status.is_some());
    assert_eq!(status.as_ref().unwrap().highest_mod_seq, Some(132));
    let (name, status) = fetches.get(2).unwrap();
    assert_eq!(&name.name, "feeds");
    assert_eq!(name.attributes.len(), 1);
    assert_eq!(name.attributes.get(0).unwrap(), &MailboxAttribute::Unmarked);
    assert!(status.is_none());
    let (name, status) = fetches.get(3).unwrap();
    assert_eq!(&name.name, "feeds.test");
    assert!(status.is_some());
    assert_eq!(status.as_ref().unwrap().highest_mod_seq, Some(757));
    assert!(fetches.get(4).is_none());
    assert_eq!(fetches.iter().count(), 4);
}

#[test]
fn list_status_command_text() {
    let c = list_status_command(Some(""), Some("*"), "(MESSAGES UNSEEN)").unwrap();
    assert_eq!(c, "LIST \"\" * RETURN (STATUS (MESSAGES UNSEEN))");
    let c = list_status_command(None, None, "(UIDNEXT)").unwrap();
    assert_eq!(c, "LIST \"\" \"\" RETURN (STATUS (UIDNEXT))");
    assert!(list_status_command(Some("a\rb"), None, "(UIDNEXT)").is_err());
}
