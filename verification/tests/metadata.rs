use imap::client::{ReadStep, ResponseReader};
use imap::error::Error;
use imap::extensions::metadata::{get_metadata_command, get_metadata_reply, set_metadata_command, MetadataDepth};
use imap::response::{Metadata, StatusCode};
use std::collections::VecDeque;

/// Reads one reply to the command with tag `tag` from the front of `reply`: the data, where the
/// tagged response starts, and the code of that response.
fn read_reply(reply: &[u8], tag: u32) -> (Vec<u8>, usize, Option<StatusCode>) {
    let mut lines = reply.split_inclusive(|b| *b == b'\n');
    let mut data: Vec<u8> = Vec::new();
    let mut reader = ResponseReader::new(tag, 0);
    loop {
        let start_new = data.len();
        if reader.needs_line() {
            data.extend_from_slice(lines.next().expect("a complete reply"));
        }
        match reader.step_checked(&data, start_new).expect("tag of the tagged response") {
            ReadStep::Continue => {}
            ReadStep::Complete { at, code } => return (data, at, code),
            ReadStep::Failed(e) => panic!("unexpected error: {:?}", e),
        }
    }
}

fn validate_char(res: Result<String, Error>) -> char {
    match res {
        Err(Error::Validate(v)) => v.0,
        other => panic!("expected a validation error, got {:?}", other),
    }
}

fn annotation(entry: &str, value: Option<&str>) -> Metadata {
    Metadata { entry: entry.to_string(), value: value.map(|v| v.to_string()) }
}

#[test]
fn test_getmetadata() {
    let response = "a1 OK Logged in.\r\n* METADATA \"\" (/shared/vendor/vendor.coi/a {3}\r\nAAA /shared/vendor/vendor.coi/b {3}\r\nBBB /shared/vendor/vendor.coi/c {3}\r\nCCC)\r\na2 OK GETMETADATA Completed\r\n";
    let (login, _, _) = read_reply(response.as_bytes(), 1);
    let command = get_metadata_command(
        None,
        &["/shared/vendor/vendor.coi", "/shared/comment"],
        MetadataDepth::Infinity,
        Option::None,
    )
    .unwrap();
    assert_eq!(
        command,
        "GETMETADATA (DEPTH infinity) \"\" (\"/shared/vendor/vendor.coi\" \"/shared/comment\")"
    );
    let (data, at, code) = read_reply(&response.as_bytes()[login.len()..], 2);
    let mut unsolicited = VecDeque::new();
    let r = get_metadata_reply(&data[..at], code, None, &mut unsolicited);

    match r {
        Ok((v, missed)) => {
            assert_eq!(missed, None);
            assert_eq!(v.len(), 3);
            assert_eq!(v[0].entry, "/shared/vendor/vendor.coi/a");
            assert_eq!(v[0].value.as_ref().expect("None is not expected"), "AAA");
            assert_eq!(v[1].entry, "/shared/vendor/vendor.coi/b");
            assert_eq!(v[1].value.as_ref().expect("None is not expected"), "BBB");
            assert_eq!(v[2].entry, "/shared/vendor/vendor.coi/c");
            assert_eq!(v[2].value.as_ref().expect("None is not expected"), "CCC");
        }
        Err(e) => panic!("Unexpected error: {:?}", e),
    }
    assert!(unsolicited.is_empty());
}

#[test]
fn getmetadata_long_entries() {
    let reply = b"* METADATA \"INBOX\" (/private/comment \"hi\")\r\na3 OK [METADATA LONGENTRIES 2199] done\r\n";
    let (data, at, code) = read_reply(reply, 3);
    let mut unsolicited = VecDeque::new();
    let (v, missed) = get_metadata_reply(&data[..at], code.clone(), Some(100), &mut unsolicited).unwrap();
    assert_eq!(v, vec![annotation("/private/comment", Some("hi"))]);
    assert_eq!(missed, Some(2199));
    // Without a size limit the code is not read.
    let (_, missed) = get_metadata_reply(&data[..at], code, None, &mut unsolicited).unwrap();
    assert_eq!(missed, None);
    let command =
        get_metadata_command(Some("INBOX"), &["/private/comment"], MetadataDepth::One, Some(100))
            .unwrap();
    assert_eq!(command, "GETMETADATA (DEPTH 1 MAXSIZE 100) \"INBOX\" (\"/private/comment\")");
}

#[test]
fn test_getmetadata_validation_entry1() {
    let r = get_metadata_command(
        None,
        &["/shared/vendor\n/vendor.coi", "/shared/comment", "/some/other/entry"],
        MetadataDepth::Infinity,
        None,
    );
    assert_eq!(validate_char(r), '\n');
}

#[test]
fn test_getmetadata_validation_entry2() {
    let r = get_metadata_command(
        Some("INBOX"),
        &["/shared/vendor/vendor.coi", "/\rshared/comment"],
        MetadataDepth::Infinity,
        None,
    );
    assert_eq!(validate_char(r), '\r');
}

#[test]
fn test_getmetadata_validation_mailbox() {
    let r = get_metadata_command(
        Some("INB\nOX"),
        &["/shared/vendor/vendor.coi", "/shared/comment"],
        MetadataDepth::Infinity,
        None,
    );
    assert_eq!(validate_char(r), '\n');
}

#[test]
fn test_setmetadata_validation_mailbox() {
    let r = set_metadata_command(
        "INB\nOX",
        &[annotation("/shared/vendor/vendor.coi", None), annotation("/shared/comment", Some("value"))],
    );
    assert_eq!(validate_char(r), '\n');
}

#[test]
fn test_setmetadata_validation_entry1() {
    let r = set_metadata_command(
        "INBOX",
        &[annotation("/shared/\nvendor/vendor.coi", None), annotation("/shared/comment", Some("value"))],
    );
    assert_eq!(validate_char(r), '\n');
}

#[test]
fn test_setmetadata_validation_entry2_key() {
    let r = set_metadata_command(
        "INBOX",
        &[annotation("/shared/vendor/vendor.coi", None), annotation("/shared\r/comment", Some("value"))],
    );
    assert_eq!(validate_char(r), '\r');
}

#[test]
fn test_setmetadata_validation_entry2_value() {
    let r = set_metadata_command(
        "INBOX",
        &[annotation("/shared/vendor/vendor.coi", None), annotation("/shared/comment", Some("va\nlue"))],
    );
    assert_eq!(validate_char(r), '\n');
}

#[test]
fn test_setmetadata_validation_entry() {
    let r = set_metadata_command("INBOX", &[annotation("/shared/\nvendor/vendor.coi", None)]);
    assert_eq!(validate_char(r), '\n');
}

#[test]
fn setmetadata_command_text() {
    let r = set_metadata_command(
        "INBOX",
        &[annotation("/shared/vendor/vendor.coi", None), annotation("/shared/comment", Some("value"))],
    )
    .unwrap();
    assert_eq!(r, "SETMETADATA \"INBOX\" (\"/shared/vendor/vendor.coi\" NIL \"/shared/comment\" \"value\")");
    let item = annotation("/a", Some("b\"c")).format_as_cmd_list_item().unwrap();
    assert_eq!(item, "\"/a\" \"b\\\"c\"");
    assert_eq!(MetadataDepth::Zero.depth_str(), "0");
    assert_eq!(MetadataDepth::default().depth_str(), "0");
}
