use imap::client::{
    append_command, auth_challenge, auth_response, copy_command, delete_command,
    examine_command, fetch_command, frame_line, list_command, login_command, quote,
    rename_command, select_command, status_command, store_command, subscribe_command,
    unsubscribe_command, validate_str, ReadStep, ResponseReader, Tagger,
};
use imap::error::{Error, ParseError};
use imap::parse::{parse_authenticate_response, parse_mailbox, parse_mailbox_checked};
use imap::types::{Capabilities, Flag, Mailbox};
use std::collections::VecDeque;

/// Reads a whole reply, line by line, as a client does; returns the data and where the tagged
/// response starts.
fn read_reply(reply: &[u8], tag: u32) -> Result<(Vec<u8>, usize), Error> {
    let mut lines = reply.split_inclusive(|b| *b == b'\n');
    let mut data: Vec<u8> = Vec::new();
    let mut reader = ResponseReader::new(tag, data.len());
    loop {
        let start_new = data.len();
        if reader.needs_line() {
            match lines.next() {
                Some(l) => data.extend_from_slice(l),
                None => return Err(Error::ConnectionLost),
            }
        }
        match reader.step_checked(&data, start_new).expect("tag of the tagged response") {
            ReadStep::Continue => {}
            ReadStep::Complete { at, .. } => return Ok((data, at)),
            ReadStep::Failed(e) => return Err(e),
        }
    }
}

/// The bytes a client writes for its first command.
fn first_command_line(command: &str) -> Vec<u8> {
    let mut tagger = Tagger::new();
    let tagged = tagger.create_command(command.to_string());
    frame_line(tagged.as_bytes())
}

#[test]
fn read_response() {
    let response = "a0 OK Logged in.\r\n";
    let (data, at) = read_reply(response.as_bytes(), 0).unwrap();
    assert_eq!(Vec::<u8>::new(), data[..at].to_vec());
}

#[test]
fn fetch_body() {
    let response = "a0 OK Logged in.\r\n\
                    * 2 FETCH (BODY[TEXT] {3}\r\nfoo)\r\n\
                    a0 OK FETCH completed\r\n";
    let (first, at) = read_reply(response.as_bytes(), 0).unwrap();
    assert_eq!(at, 0);
    let rest = &response.as_bytes()[first.len()..];
    let (second, at) = read_reply(rest, 0).unwrap();
    assert_eq!(&second[..at], b"* 2 FETCH (BODY[TEXT] {3}\r\nfoo)\r\n");
}

#[test]
fn read_response_bad() {
    let response = "a1 BAD [PARSE] Bad syntax\r\n";
    match read_reply(response.as_bytes(), 1) {
        Err(Error::Bad(b)) => assert_eq!(b.information, "Bad syntax"),
        other => panic!("unexpected: {:?}", other),
    }
    match read_reply(b"a1 NO\r\n", 1) {
        Err(Error::No(n)) => assert_eq!(n.information, "no explanation given"),
        other => panic!("unexpected: {:?}", other),
    }
}

#[test]
fn read_response_wrong_tag() {
    let mut reader = ResponseReader::new(2, 0);
    let data = b"a1 OK done\r\n".to_vec();
    assert!(reader.step_checked(&data, 0).is_none());
}

#[test]
fn create_command() {
    let base_command = "CHECK";
    let mut tagger = Tagger::new();

    let expected_command = format!("a1 {}", base_command);
    let command = tagger.create_command(String::from(base_command));
    assert!(command == expected_command, "expected command doesn't equal actual command");

    let expected_command2 = format!("a2 {}", base_command);
    let command2 = tagger.create_command(String::from(base_command));
    assert!(command2 == expected_command2, "expected command doesn't equal actual command");
}

#[test]
fn client_login() {
    let username = "username";
    let password = "password";
    let command = format!("a1 LOGIN {} {}\r\n", quote(username), quote(password));
    let written = first_command_line(&login_command(username, password).unwrap());
    assert!(written == command.as_bytes().to_vec(), "Invalid login command");
}

#[test]
fn client_logout() {
    assert!(first_command_line("LOGOUT") == b"a1 LOGOUT\r\n".to_vec(), "Invalid logout command");
}

#[test]
fn rename() {
    let current_mailbox_name = "INBOX";
    let new_mailbox_name = "NEWINBOX";
    let command = format!(
        "a1 RENAME {} {}\r\n",
        quote(current_mailbox_name),
        quote(new_mailbox_name)
    );
    let written = first_command_line(&rename_command(current_mailbox_name, new_mailbox_name));
    assert!(written == command.as_bytes().to_vec(), "Invalid rename command");
}

#[test]
fn subscribe() {
    let mailbox = "INBOX";
    let command = format!("a1 SUBSCRIBE {}\r\n", quote(mailbox));
    let written = first_command_line(&subscribe_command(mailbox));
    assert!(written == command.as_bytes().to_vec(), "Invalid subscribe command");
}

#[test]
fn unsubscribe() {
    let mailbox = "INBOX";
    let command = format!("a1 UNSUBSCRIBE {}\r\n", quote(mailbox));
    let written = first_command_line(&unsubscribe_command(mailbox));
    assert!(written == command.as_bytes().to_vec(), "Invalid unsubscribe command");
}

#[test]
fn expunge() {
    assert!(first_command_line("EXPUNGE") == b"a1 EXPUNGE\r\n".to_vec(), "Invalid expunge command");
}

#[test]
fn check() {
    assert!(first_command_line("CHECK") == b"a1 CHECK\r\n".to_vec(), "Invalid check command");
}

fn selected_mailbox(response: &[u8]) -> Mailbox {
    let (data, _at) = read_reply(response, 1).unwrap();
    let mut unsolicited = VecDeque::new();
    parse_mailbox_checked(&data, &mut unsolicited).expect("a reply that can be read").unwrap()
}

#[test]
fn examine() {
    let response = b"* FLAGS (\\Answered \\Flagged \\Deleted \\Seen \\Draft)\r\n\
        * OK [PERMANENTFLAGS ()] Read-only mailbox.\r\n\
        * 1 EXISTS\r\n\
        * 1 RECENT\r\n\
        * OK [UNSEEN 1] First unseen.\r\n\
        * OK [UIDVALIDITY 1257842737] UIDs valid\r\n\
        * OK [UIDNEXT 2] Predicted next UID\r\n\
        a1 OK [READ-ONLY] Select completed.\r\n"
        .to_vec();
    let expected_mailbox = Mailbox {
        flags: vec![Flag::Answered, Flag::Flagged, Flag::Deleted, Flag::Seen, Flag::Draft],
        exists: 1,
        recent: 1,
        unseen: Some(1),
        permanent_flags: vec![],
        uid_next: Some(2),
        uid_validity: Some(1257842737),
        highest_mod_seq: None,
        is_read_only: true,
    };
    let mailbox_name = "INBOX";
    let command = format!("a1 EXAMINE {}\r\n", quote(mailbox_name));
    let written = first_command_line(&examine_command(mailbox_name).unwrap());
    assert!(written == command.as_bytes().to_vec(), "Invalid examine command");
    assert_eq!(selected_mailbox(&response), expected_mailbox);
}

#[test]
fn select() {
    let response = b"* FLAGS (\\Answered \\Flagged \\Deleted \\Seen \\Draft)\r\n\
        * OK [PERMANENTFLAGS (\\* \\Answered \\Flagged \\Deleted \\Draft \\Seen)] \
          Read-only mailbox.\r\n\
        * 1 EXISTS\r\n\
        * 1 RECENT\r\n\
        * OK [UNSEEN 1] First unseen.\r\n\
        * OK [UIDVALIDITY 1257842737] UIDs valid\r\n\
        * OK [UIDNEXT 2] Predicted next UID\r\n\
        a1 OK [READ-ONLY] Select completed.\r\n"
        .to_vec();
    let expected_mailbox = Mailbox {
        flags: vec![Flag::Answered, Flag::Flagged, Flag::Deleted, Flag::Seen, Flag::Draft],
        exists: 1,
        recent: 1,
        unseen: Some(1),
        permanent_flags: vec![
            Flag::MayCreate,
            Flag::Answered,
            Flag::Flagged,
            Flag::Deleted,
            Flag::Draft,
            Flag::Seen,
        ],
        uid_next: Some(2),
        uid_validity: Some(1257842737),
        highest_mod_seq: None,
        is_read_only: true,
    };
    let mailbox_name = "INBOX";
    let command = format!("a1 SELECT {}\r\n", quote(mailbox_name));
    let written = first_command_line(&select_command(mailbox_name).unwrap());
    assert!(written == command.as_bytes().to_vec(), "Invalid select command");
    assert_eq!(selected_mailbox(&response), expected_mailbox);
}

#[test]
fn capability() {
    let response = b"* CAPABILITY IMAP4rev1 STARTTLS AUTH=GSSAPI LOGINDISABLED\r\n\
        a1 OK CAPABILITY completed\r\n"
        .to_vec();
    let expected_capabilities = vec!["IMAP4rev1", "STARTTLS", "AUTH=GSSAPI", "LOGINDISABLED"];
    assert!(first_command_line("CAPABILITY") == b"a1 CAPABILITY\r\n".to_vec(), "Invalid capability command");
    let (data, at) = read_reply(&response, 1).unwrap();
    let mut unsolicited = VecDeque::new();
    let capabilities = Capabilities::parse(data[..at].to_vec(), &mut unsolicited).unwrap();
    assert_eq!(capabilities.len(), 4);
    for e in expected_capabilities {
        assert!(capabilities.has_str(e));
    }
}

#[test]
fn create() {
    let mailbox_name = "INBOX";
    let command = format!("a1 CREATE {}\r\n", quote(mailbox_name));
    let written = first_command_line(&imap::client::create_command(mailbox_name).unwrap());
    assert!(written == command.as_bytes().to_vec(), "Invalid create command");
}

#[test]
fn delete() {
    let mailbox_name = "INBOX";
    let command = format!("a1 DELETE {}\r\n", quote(mailbox_name));
    let written = first_command_line(&delete_command(mailbox_name).unwrap());
    assert!(written == command.as_bytes().to_vec(), "Invalid delete command");
}

#[test]
fn noop() {
    assert!(first_command_line("NOOP") == b"a1 NOOP\r\n".to_vec(), "Invalid noop command");
}

#[test]
fn close() {
    assert!(first_command_line("CLOSE") == b"a1 CLOSE\r\n".to_vec(), "Invalid close command");
}

fn generic_with_uid(cmd: &str, seq: &str, query: &str, prefix: &str, built: String) {
    let line = format!("a1{}{} {} {}\r\n", prefix, cmd, seq, query);
    assert!(first_command_line(&built) == line.as_bytes().to_vec(), "Invalid command");
}

#[test]
fn store() {
    generic_with_uid("STORE", "2.4", "+FLAGS (\\Deleted)", " ", store_command(false, "2.4", "+FLAGS (\\Deleted)"));
}

#[test]
fn uid_store() {
    generic_with_uid("STORE", "2.4", "+FLAGS (\\Deleted)", " UID ", store_command(true, "2.4", "+FLAGS (\\Deleted)"));
}

#[test]
fn copy() {
    generic_with_uid("COPY", "2:4", "MEETING", " ", copy_command(false, "2:4", "MEETING"));
}

#[test]
fn uid_copy() {
    generic_with_uid("COPY", "2:4", "MEETING", " UID ", copy_command(true, "2:4", "MEETING"));
}

#[test]
fn fetch() {
    generic_with_uid("FETCH", "1", "BODY[]", " ", fetch_command(false, "1", "BODY[]"));
}

#[test]
fn uid_fetch() {
    generic_with_uid("FETCH", "1", "BODY[]", " UID ", fetch_command(true, "1", "BODY[]"));
}

#[test]
fn quote_backslash() {
    assert_eq!("\"test\\\\text\"", quote(r"test\text"));
}

#[test]
fn quote_dquote() {
    assert_eq!("\"test\\\"text\"", quote("test\"text"));
}

#[test]
fn validate_random() {
    assert_eq!(
        "\"~iCQ_k;>[&\\\"sVCvUW`e<<P!wJ\"",
        &validate_str("~iCQ_k;>[&\"sVCvUW`e<<P!wJ").unwrap()
    );
}

#[test]
fn validate_newline() {
    if let Err(ref e) = validate_str("test\nstring") {
        if let &Error::Validate(ref ve) = e {
            if ve.0 == '\n' {
                return;
            }
        }
        panic!("Wrong error: {:?}", e);
    }
    panic!("No error");
}

#[test]
#[allow(unreachable_patterns)]
fn validate_carriage_return() {
    if let Err(ref e) = validate_str("test\rstring") {
        if let &Error::Validate(ref ve) = e {
            if ve.0 == '\r' {
                return;
            }
        }
        panic!("Wrong error: {:?}", e);
    }
    panic!("No error");
}

#[test]
fn validate_newline_before_carriage_return() {
    match validate_str("a\rb\nc") {
        Err(Error::Validate(ve)) => assert_eq!(ve.0, '\n'),
        other => panic!("unexpected: {:?}", other),
    }
    match login_command("user", "pa\rss") {
        Err(Error::Validate(ve)) => assert_eq!(ve.0, '\r'),
        other => panic!("unexpected: {:?}", other),
    }
    match login_command("us\rer", "pa\nss") {
        Err(Error::Validate(ve)) => assert_eq!(ve.0, '\r'),
        other => panic!("unexpected: {:?}", other),
    }
}

#[test]
fn command_lines() {
    assert_eq!(status_command("INBOX", "(MESSAGES)").unwrap(), "STATUS \"INBOX\" (MESSAGES)");
    assert_eq!(list_command(false, "", "*"), "LIST \"\" *");
    assert_eq!(list_command(true, "a\"b", "%"), "LSUB \"a\\\"b\" %");
    assert_eq!(append_command("INBOX", 1234), "APPEND \"INBOX\" {1234}");
    let mut tagger = Tagger::new();
    for _ in 0..9 {
        tagger.create_command("NOOP".to_string());
    }
    assert_eq!(tagger.create_command("NOOP".to_string()), "a10 NOOP");
    assert_eq!(tagger.tag(), 10);
}

#[test]
fn authenticate_response() {
    assert_eq!(parse_authenticate_response("+ YWJj\r\n").unwrap(), "YWJj");
    assert_eq!(parse_authenticate_response("+ \r\n").unwrap(), "");
    match parse_authenticate_response("+YWJj\r\n") {
        Err(Error::Parse(ParseError::Authentication(l, None))) => assert_eq!(l, "+YWJj\r\n"),
        other => panic!("unexpected: {:?}", other),
    }
    assert!(parse_authenticate_response("+ YWJj\n").is_err());
}

#[test]
fn authenticate_challenges() {
    assert_eq!(auth_challenge(b"+ YWJj\r\n").unwrap(), Some(b"abc".to_vec()));
    assert_eq!(auth_challenge(b"+\r\n").unwrap(), Some(Vec::new()));
    assert_eq!(auth_challenge(b"a1 OK done\r\n").unwrap(), None);
    match auth_challenge(b"+ !!!\r\n") {
        Err(Error::Parse(ParseError::Authentication(d, Some(_)))) => assert_eq!(d, "!!!"),
        other => panic!("unexpected: {:?}", other),
    }
    match auth_challenge(b"+ \xff\r\n") {
        Err(Error::Parse(ParseError::DataNotUtf8(v, _))) => assert_eq!(v, b"+ \xff\r\n".to_vec()),
        other => panic!("unexpected: {:?}", other),
    }
    assert_eq!(auth_response(b"abc"), "YWJj");
}

#[test]
fn mailbox_reply_checked() {
    let mut unsolicited = VecDeque::new();
    assert!(parse_mailbox_checked(b"* NO oops\r\n", &mut unsolicited).is_none());
    assert!(parse_mailbox_checked(b"a1 OK done\r\n* 1 EXISTS\r\n", &mut unsolicited).is_none());
    assert!(unsolicited.is_empty());
    match parse_mailbox(b"", &mut unsolicited) {
        Err(Error::Parse(ParseError::Invalid(v))) => assert!(v.is_empty()),
        other => panic!("unexpected: {:?}", other),
    }
    let m = parse_mailbox(b"* 3 EXISTS\r\n* 2 EXPUNGE\r\n", &mut unsolicited).unwrap();
    assert_eq!(m.exists, 3);
    assert_eq!(unsolicited.pop_front(), Some(imap::types::UnsolicitedResponse::Expunge(2)));
}
