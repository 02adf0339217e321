# imap

An IMAP client library ([RFC 3501](https://tools.ietf.org/html/rfc3501) and several
extensions) whose protocol logic is verified with Verus.

- `src/` is the verified library: command building and quoting, the tagging of commands, the
  reader that follows a reply line by line to its tagged response, the parsers that turn a reply
  into mailboxes, fetches, names, capabilities, quotas, ACLs, metadata and `ID` fields while
  passing unsolicited responses on in order, and the decisions of `IDLE` and of connection
  setup (TLS, `STARTTLS` or plain text). Server bytes are read by `imap-proto`'s response
  grammar behind one trusted function (`src/proto.rs`); base64, UTF-8 and a regular expression
  are called behind small trusted wrappers.
- `app/` owns the sockets: it reads and writes lines, sets up TLS with `native-tls` or
  `rustls-connector`, and runs the loops that the library's decisions drive.
- `tests/` runs the library on concrete replies.
