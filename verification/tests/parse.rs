use imap::error::{Error as ImapError, ParseError as ImapParseError};
use imap::proto::may_panic;
use imap::parse::{parse_expunge, parse_id_seq, parse_id_set, parse_idle, parse_noop, parse_status};
use imap::response::{MailboxAttribute, ServerCapability, StatusItem};
use imap::types::{Capabilities, Fetches, Flag, Names, UnsolicitedResponse};
use std::collections::{HashSet, VecDeque};

#[test]
fn parse_capability_test() {
    let expected_capabilities = vec![
        ServerCapability::Imap4rev1,
        ServerCapability::Atom("STARTTLS".to_string()),
        ServerCapability::Auth("GSSAPI".to_string()),
        ServerCapability::Atom("LOGINDISABLED".to_string()),
    ];
    let lines = b"* CAPABILITY IMAP4rev1 STARTTLS AUTH=GSSAPI LOGINDISABLED\r\n";
    let mut send = VecDeque::new();
    let capabilities = Capabilities::parse(lines.to_vec(), &mut send).unwrap();
    // shouldn't be any unexpected responses parsed
    assert!(send.is_empty());
    assert_eq!(capabilities.len(), 4);
    for e in expected_capabilities {
        assert!(capabilities.has(&e));
    }
}

#[test]
fn parse_capability_case_insensitive_test() {
    // Test that "IMAP4REV1" (instead of "IMAP4rev1") is accepted
    let expected_capabilities = vec![
        ServerCapability::Imap4rev1,
        ServerCapability::Atom("STARTTLS".to_string()),
    ];
    let lines = b"* CAPABILITY IMAP4REV1 STARTTLS\r\n";
    let mut send = VecDeque::new();
    let capabilities = Capabilities::parse(lines.to_vec(), &mut send).unwrap();
    // shouldn't be any unexpected responses parsed
    assert!(send.is_empty());
    assert_eq!(capabilities.len(), 2);
    for e in expected_capabilities {
        assert!(capabilities.has(&e));
    }
}

#[test]
#[should_panic]
fn parse_capability_invalid_test() {
    let mut send = VecDeque::new();
    let lines = b"* JUNK IMAP4rev1 STARTTLS AUTH=GSSAPI LOGINDISABLED\r\n";
    Capabilities::parse(lines.to_vec(), &mut send).unwrap();
    assert!(send.is_empty());
}

#[test]
fn parse_names_test() {
    let lines = b"* LIST (\\HasNoChildren) \".\" \"INBOX\"\r\n";
    let mut send = VecDeque::new();
    let names = Names::parse(lines.to_vec(), &mut send).unwrap();
    assert!(send.is_empty());
    assert_eq!(names.len(), 1);
    let first = names.iter().next().unwrap();
    assert_eq!(
        first.attributes(),
        &[MailboxAttribute::Extension("\\HasNoChildren".to_string())]
    );
    assert_eq!(first.delimiter(), Some("."));
    assert_eq!(first.name(), "INBOX");
}

#[test]
fn parse_fetches_empty() {
    let lines = b"";
    let mut send = VecDeque::new();
    let fetches = Fetches::parse(lines.to_vec(), &mut send).unwrap();
    assert!(send.is_empty());
    assert!(fetches.is_empty());
}

#[test]
fn parse_fetches_test() {
    let lines = b"\
                * 24 FETCH (FLAGS (\\Seen) UID 4827943)\r\n\
                * 25 FETCH (FLAGS (\\Seen))\r\n";
    let mut send = VecDeque::new();
    let fetches = Fetches::parse(lines.to_vec(), &mut send).unwrap();
    assert!(send.is_empty());
    assert_eq!(fetches.len(), 2);
    let mut iter = fetches.iter();
    let first = iter.next().unwrap();
    assert_eq!(first.message, 24);
    assert_eq!(first.flags(), &[Flag::Seen]);
    assert_eq!(first.uid, Some(4827943));
    assert_eq!(first.body(), None);
    assert_eq!(first.header(), None);
    let second = iter.next().unwrap();
    assert_eq!(second.message, 25);
    assert_eq!(second.flags(), &[Flag::Seen]);
    assert_eq!(second.uid, None);
    assert_eq!(second.body(), None);
    assert_eq!(second.header(), None);
}

#[test]
fn parse_fetches_w_unilateral() {
    // https://github.com/mattnenterprise/rust-imap/issues/81
    let lines = b"\
        * 37 FETCH (UID 74)\r\n\
        * 1 RECENT\r\n";
    let mut send = VecDeque::new();
    let fetches = Fetches::parse(lines.to_vec(), &mut send).unwrap();
    assert_eq!(send.pop_front(), Some(UnsolicitedResponse::Recent(1)));
    assert_eq!(fetches.len(), 1);
    let first = fetches.iter().next().unwrap();
    assert_eq!(first.message, 37);
    assert_eq!(first.uid, Some(74));
}

#[test]
fn parse_fetches_w_dovecot_info() {
    // Dovecot will sometimes send informational unsolicited
    // OK messages while performing long operations.
    // * OK Searched 91% of the mailbox, ETA 0:01
    let lines = b"\
        * OK Searched 91% of the mailbox, ETA 0:01\r\n\
        * 37 FETCH (UID 74)\r\n";
    let mut send = VecDeque::new();
    let fetches = Fetches::parse(lines.to_vec(), &mut send).unwrap();
    assert_eq!(
        send.pop_front(),
        Some(UnsolicitedResponse::Okay {
            code: None,
            information: Some(String::from("Searched 91% of the mailbox, ETA 0:01")),
        })
    );
    assert_eq!(fetches.len(), 1);
    let first = fetches.iter().next().unwrap();
    assert_eq!(first.message, 37);
    assert_eq!(first.uid, Some(74));
}

#[test]
fn parse_names_w_unilateral() {
    let lines = b"\
                * LIST (\\HasNoChildren) \".\" \"INBOX\"\r\n\
                * 4 EXPUNGE\r\n";
    let mut send = VecDeque::new();
    let names = Names::parse(lines.to_vec(), &mut send).unwrap();

    assert_eq!(send.pop_front().unwrap(), UnsolicitedResponse::Expunge(4));

    assert_eq!(names.len(), 1);
    let first = names.iter().next().unwrap();
    assert_eq!(
        first.attributes(),
        &[MailboxAttribute::Extension("\\HasNoChildren".to_string())]
    );
    assert_eq!(first.delimiter(), Some("."));
    assert_eq!(first.name(), "INBOX");
}

#[test]
fn parse_capabilities_w_unilateral() {
    let expected_capabilities = vec![
        ServerCapability::Imap4rev1,
        ServerCapability::Atom("STARTTLS".to_string()),
        ServerCapability::Auth("GSSAPI".to_string()),
        ServerCapability::Atom("LOGINDISABLED".to_string()),
    ];
    let lines = b"\
                * CAPABILITY IMAP4rev1 STARTTLS AUTH=GSSAPI LOGINDISABLED\r\n\
                * STATUS dev.github (MESSAGES 10 UIDNEXT 11 UIDVALIDITY 1408806928 UNSEEN 0)\r\n\
                * 4 EXISTS\r\n";
    let mut send = VecDeque::new();
    let capabilities = Capabilities::parse(lines.to_vec(), &mut send).unwrap();

    assert_eq!(capabilities.len(), 4);
    for e in expected_capabilities {
        assert!(capabilities.has(&e));
    }

    assert_eq!(
        send.pop_front().unwrap(),
        UnsolicitedResponse::Status {
            mailbox: "dev.github".to_string(),
            attributes: vec![
                StatusItem::Messages(10),
                StatusItem::UidNext(11),
                StatusItem::UidValidity(1408806928),
                StatusItem::Unseen(0)
            ]
        }
    );
    assert_eq!(send.pop_front().unwrap(), UnsolicitedResponse::Exists(4));
}

#[test]
fn parse_ids_w_unilateral() {
    let lines = b"\
        * SEARCH 23 42 4711\r\n\
        * 1 RECENT\r\n\
        * STATUS INBOX (MESSAGES 10 UIDNEXT 11 UIDVALIDITY 1408806928 UNSEEN 0)\r\n";
    let mut send = VecDeque::new();
    let ids = parse_id_set(lines, &mut send).unwrap();

    assert_eq!(ids, [23, 42, 4711].iter().cloned().collect());

    assert_eq!(send.pop_front().unwrap(), UnsolicitedResponse::Recent(1));
    assert_eq!(
        send.pop_front().unwrap(),
        UnsolicitedResponse::Status {
            mailbox: "INBOX".to_string(),
            attributes: vec![
                StatusItem::Messages(10),
                StatusItem::UidNext(11),
                StatusItem::UidValidity(1408806928),
                StatusItem::Unseen(0)
            ]
        }
    );
}

#[test]
fn parse_ids_test() {
    let lines = b"* SEARCH 1600 1698 1739 1781 1795 1885 1891 1892 1893 1898 1899 1901 1911 1926 1932 1933 1993 1994 2007 2032 2033 2041 2053 2062 2063 2065 2066 2072 2078 2079 2082 2084 2095 2100 2101 2102 2103 2104 2107 2116 2120 2135 2138 2154 2163 2168 2172 2189 2193 2198 2199 2205 2212 2213 2221 2227 2267 2275 2276 2295 2300 2328 2330 2332 2333 2334\r\n\
        * SEARCH 2335 2336 2337 2338 2339 2341 2342 2347 2349 2350 2358 2359 2362 2369 2371 2372 2373 2374 2375 2376 2377 2378 2379 2380 2381 2382 2383 2384 2385 2386 2390 2392 2397 2400 2401 2403 2405 2409 2411 2414 2417 2419 2420 2424 2426 2428 2439 2454 2456 2467 2468 2469 2490 2515 2519 2520 2521\r\n";
    let mut send = VecDeque::new();
    let ids = parse_id_set(lines, &mut send).unwrap();
    assert!(send.is_empty());
    let ids: HashSet<u32> = ids.iter().cloned().collect();
    assert_eq!(
        ids,
        [
            1600, 1698, 1739, 1781, 1795, 1885, 1891, 1892, 1893, 1898, 1899, 1901, 1911, 1926,
            1932, 1933, 1993, 1994, 2007, 2032, 2033, 2041, 2053, 2062, 2063, 2065, 2066, 2072,
            2078, 2079, 2082, 2084, 2095, 2100, 2101, 2102, 2103, 2104, 2107, 2116, 2120, 2135,
            2138, 2154, 2163, 2168, 2172, 2189, 2193, 2198, 2199, 2205, 2212, 2213, 2221, 2227,
            2267, 2275, 2276, 2295, 2300, 2328, 2330, 2332, 2333, 2334, 2335, 2336, 2337, 2338,
            2339, 2341, 2342, 2347, 2349, 2350, 2358, 2359, 2362, 2369, 2371, 2372, 2373, 2374,
            2375, 2376, 2377, 2378, 2379, 2380, 2381, 2382, 2383, 2384, 2385, 2386, 2390, 2392,
            2397, 2400, 2401, 2403, 2405, 2409, 2411, 2414, 2417, 2419, 2420, 2424, 2426, 2428,
            2439, 2454, 2456, 2467, 2468, 2469, 2490, 2515, 2519, 2520, 2521
        ]
        .iter()
        .cloned()
        .collect()
    );

    let lines = b"* SEARCH\r\n";
    let mut send = VecDeque::new();
    let ids = parse_id_set(lines, &mut send).unwrap();
    assert!(send.is_empty());
    let ids: HashSet<u32> = ids.iter().cloned().collect();
    assert_eq!(ids, HashSet::<u32>::new());

    let lines = b"* SORT\r\n";
    let mut send = VecDeque::new();
    let ids = parse_id_seq(lines, &mut send).unwrap();
    assert!(send.is_empty());
    let ids: Vec<u32> = ids.iter().cloned().collect();
    assert_eq!(ids, Vec::<u32>::new());
}

#[test]
fn parse_vanished_test() {
    // VANISHED can appear if the user has enabled QRESYNC (RFC 7162), in response to
    // SELECT/EXAMINE (QRESYNC); UID FETCH (VANISHED); or EXPUNGE commands. In the first
    // two cases the VANISHED response will be a different type than expected
    // and so goes into the unsolicited responses channel.
    let lines = b"* VANISHED 3\r\n";
    let mut send = VecDeque::new();
    let resp = parse_expunge(lines.to_vec(), &mut send).unwrap();

    // Should be not empty, and have no seqs
    assert!(!resp.is_empty());
    assert_eq!(None, resp.seqs().into_iter().next());

    // Should have one UID response
    let mut uids = resp.uids().into_iter();
    assert_eq!(Some(3), uids.next());
    assert_eq!(None, uids.next());

    // Should be nothing in the unsolicited responses channel
    assert!(send.is_empty());

    // Test VANISHED mixed with FETCH
    let lines = b"* VANISHED (EARLIER) 3:8,12,50:60\r\n\
                  * 49 FETCH (UID 117 FLAGS (\\Seen \\Answered) MODSEQ (90060115194045001))\r\n";

    let fetches = Fetches::parse(lines.to_vec(), &mut send).unwrap();
    match send.pop_front().unwrap() {
        UnsolicitedResponse::Vanished { earlier, uids } => {
            assert!(earlier);
            assert_eq!(uids.len(), 3);
            assert_eq!(*uids[0].start(), 3);
            assert_eq!(*uids[0].end(), 8);
            assert_eq!(*uids[1].start(), 12);
            assert_eq!(*uids[1].end(), 12);
            assert_eq!(*uids[2].start(), 50);
            assert_eq!(*uids[2].end(), 60);
        }
        what => panic!("Unexpected response in unsolicited responses: {:?}", what),
    }
    assert!(send.is_empty());
    assert_eq!(fetches.len(), 1);
    let first = fetches.iter().next().unwrap();
    assert_eq!(first.message, 49);
    assert_eq!(first.flags(), &[Flag::Seen, Flag::Answered]);
    assert_eq!(first.uid, Some(117));
    assert_eq!(first.body(), None);
    assert_eq!(first.header(), None);
}

#[test]
fn parse_expunge_seqs() {
    let mut send = VecDeque::new();
    let d = parse_expunge(b"* 3 EXPUNGE\r\n* 2 RECENT\r\n* 5 EXPUNGE\r\n".to_vec(), &mut send).unwrap();
    assert_eq!(d.seqs(), vec![3, 5]);
    assert_eq!(send.pop_front(), Some(UnsolicitedResponse::Recent(2)));
    match parse_expunge(b"* LIST () \".\" x\r\n".to_vec(), &mut send) {
        Err(imap::Error::Unexpected(_)) => {}
        other => panic!("unexpected: {:?}", other),
    }
    match parse_expunge(b"* 3 EXPUNGE\r\ngarbage\r\n".to_vec(), &mut send) {
        Err(imap::Error::Parse(imap::error::ParseError::Invalid(b))) => assert_eq!(b, b"garbage\r\n".to_vec()),
        other => panic!("unexpected: {:?}", other),
    }
}

#[test]
fn parse_noop_and_status() {
    let mut send = VecDeque::new();
    parse_noop(b"* 3 EXISTS\r\n".to_vec(), &mut send).unwrap();
    assert_eq!(send.pop_front(), Some(UnsolicitedResponse::Exists(3)));
    let m = parse_status(b"* STATUS INBOX (MESSAGES 10 UIDNEXT 11 UNSEEN 2)\r\n* STATUS other (MESSAGES 1)\r\n", "INBOX", &mut send).unwrap();
    assert_eq!(m.exists, 10);
    assert_eq!(m.uid_next, Some(11));
    assert_eq!(m.unseen, Some(2));
    assert!(matches!(send.pop_front(), Some(UnsolicitedResponse::Status { .. })));
    assert!(matches!(parse_status(b"* 1 EXISTS\r\n", "INBOX", &mut send), Err(imap::Error::MissingStatusResponse)));
}

#[test]
fn parse_idle_responses() {
    let (rest, r) = parse_idle(b"* 4 EXISTS\r\n* 1 RECENT\r\n");
    assert_eq!(rest, b"* 1 RECENT\r\n");
    assert_eq!(r.unwrap().unwrap(), UnsolicitedResponse::Exists(4));
    let (rest, r) = parse_idle(b"* 4 EXI");
    assert_eq!(rest, b"* 4 EXI");
    assert!(r.is_none());
    let (_, r) = parse_idle(b"* LIST () \".\" x\r\n");
    assert!(matches!(r, Some(Err(imap::Error::Unexpected(_)))));
}

#[test]
fn replies_the_grammar_would_panic_on_are_invalid() {
    let mut send = VecDeque::new();
    match Fetches::parse(b"* 1 FETCH (INTERNALDATE NIL)\r\n".to_vec(), &mut send) {
        Err(ImapError::Parse(ImapParseError::Invalid(b))) => assert_eq!(b, b"* 1 FETCH (INTERNALDATE NIL)\r\n".to_vec()),
        other => panic!("unexpected: {:?}", other.map(|f| f.len())),
    }
    assert!(may_panic(b"* 1 FETCH (UID 4 internaldate nil)\r\n"));
    let metadata = b"* METADATA \"INBOX\" (/shared/comment {1}\r\n\xc3\xa9)\r\n".to_vec();
    assert!(may_panic(&metadata));
    assert!(matches!(parse_noop(metadata, &mut send), Err(ImapError::Parse(ImapParseError::Invalid(_)))));
    assert!(send.is_empty());
}

#[test]
fn replies_the_grammar_reads_are_not_refused() {
    // INTERNALDATE NIL in a flag list, in a literal, in a quoted string, or in a later response.
    assert!(!may_panic(b"* 1 FETCH (FLAGS (x INTERNALDATE NIL))\r\n"));
    assert!(!may_panic(b"* 2 FETCH (BODY[] {16}\r\nINTERNALDATE NIL)\r\n"));
    assert!(!may_panic(b"* 3 FETCH (ENVELOPE (\" INTERNALDATE NIL\" NIL NIL NIL NIL NIL NIL NIL NIL NIL))\r\n"));
    assert!(!may_panic(b"* 4 EXISTS\r\n* 5 FETCH (INTERNALDATE NIL)\r\n"));
    // UTF-8 and binary data in METADATA and other responses.
    assert!(!may_panic("* METADATA \"INBOX\" (/shared/comment {2}\r\n\u{e9})\r\n".as_bytes()));
    assert!(!may_panic(b"* METADATA \"INBOX\" (/shared/comment \"x\")\r\n* 1 FETCH (BODY[] {1}\r\n\xff)\r\n"));
    assert!(!may_panic(b"* STATUS {3}\r\n]\xc3\xa9 (MESSAGES 1)\r\n"));

    let mut send = VecDeque::new();
    let m = parse_status(b"* STATUS {3}\r\n]\xc3\xa9 (MESSAGES 1)\r\n", "]\u{e9}", &mut send).unwrap();
    assert_eq!(m.exists, 1);
    let names = Names::parse(b"* LIST () \"/\" {3}\r\n]\xc3\xa9\r\n".to_vec(), &mut send).unwrap();
    assert_eq!(names.len(), 1);
    assert_eq!(names.get(0).unwrap().name(), "]\u{e9}");
    let d = parse_expunge(b"* STATUS {3}\r\n]\xc3\xa9 (MESSAGES 1)\r\n".to_vec(), &mut send).unwrap();
    assert!(d.seqs().is_empty());
    assert_eq!(send.len(), 1);
}
