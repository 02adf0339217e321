//! Commands sent to the server: quoting of string arguments and command lines.

use crate::error::{Bad, Error, No, ParseError, Result, ValidateError};
use crate::parse::{auth_data, parse_authenticate_response};
use crate::proto::{imap_line, parse_line};
use crate::response::{Line, ResponseStatus, ServerResponse, StatusCode};
use crate::utils::{decimal, digits_value, lemma_decimal_denotes, lemma_decimal_injective, push_char, push_decimal, push_str, str_eq};
use vstd::prelude::*;

verus! {

/// The escaped form of one character inside an IMAP quoted string.
pub open spec fn escape_char(c: char) -> Seq<char> {
    if c == '\\' {
        seq!['\\', '\\']
    } else if c == '"' {
        seq!['\\', '"']
    } else {
        seq![c]
    }
}

/// Every backslash and double quote of `s` preceded by a backslash.
pub open spec fn escape(s: Seq<char>) -> Seq<char>
    decreases s.len(),
{
    if s.len() == 0 {
        seq![]
    } else {
        escape(s.drop_last()) + escape_char(s.last())
    }
}

/// `s` as an IMAP quoted string.
pub open spec fn quoted(s: Seq<char>) -> Seq<char> {
    seq!['"'] + escape(s) + seq!['"']
}

/// The escaped form of a non-empty string ends with its last character.
proof fn lemma_escape_last(s: Seq<char>)
    requires
        s.len() > 0,
    ensures
        escape(s) == escape(s.drop_last()) + escape_char(s.last()),
        escape(s).len() == escape(s.drop_last()).len() + escape_char(s.last()).len(),
        escape(s).len() > 0,
        escape(s).last() == s.last(),
{
}

/// Two strings with the same escaped form are the same string.
proof fn lemma_escape_injective(s: Seq<char>, t: Seq<char>)
    requires
        escape(s) == escape(t),
    ensures
        s == t,
    decreases s.len(),
{
    if s.len() == 0 {
        if t.len() > 0 {
            lemma_escape_last(t);
        }
    } else if t.len() == 0 {
        lemma_escape_last(s);
    } else {
        lemma_escape_last(s);
        lemma_escape_last(t);
        let c = s.last();
        assert(t.last() == c);
        let k = escape(s.drop_last()).len() as int;
        assert(escape(s).subrange(0, k) == escape(s.drop_last()));
        assert(escape(t).subrange(0, k) == escape(t.drop_last()));
        lemma_escape_injective(s.drop_last(), t.drop_last());
        assert(s == s.drop_last().push(c));
        assert(t == t.drop_last().push(c));
    }
}

/// Quoting loses nothing: two strings that quote to the same text are the same string, so the
/// server reads back the value that was meant.
pub proof fn lemma_quoted_injective(s: Seq<char>, t: Seq<char>)
    requires
        quoted(s) == quoted(t),
    ensures
        s == t,
{
    let (a, b) = (quoted(s), quoted(t));
    assert(a.subrange(1, a.len() - 1) == escape(s));
    assert(b.subrange(1, b.len() - 1) == escape(t));
    lemma_escape_injective(s, t);
}

/// Escaping goes character by character: a backslash and a double quote each get a backslash
/// before them, and every other character stands as it is.
pub proof fn lemma_escape_chars(s: Seq<char>, c: char)
    ensures
        escape(seq![]) == Seq::<char>::empty(),
        escape(s.push(c)) == escape(s) + if c == '\\' || c == '"' {
            seq!['\\', c]
        } else {
            seq![c]
        },
{
    assert(s.push(c).drop_last() == s);
}

/// Quotes `value` as an IMAP quoted string: a backslash goes before each backslash and double
/// quote, and the whole is put between double quotes.
pub fn quote(value: &str) -> (q: String)
    ensures
        q@ == quoted(value@),
{
    broadcast use vstd::string::group_string_axioms;
    let mut q = String::new();
    push_char(&mut q, '"');
    let ghost v = value@;
    for c in it: value.chars()
        invariant
            it.seq() == v,
            q@ == seq!['"'] + escape(v.take(it.index() as int)),
    {
        assert(v.take(it.index() + 1).drop_last() == v.take(it.index() as int));
        if c == '\\' {
            push_char(&mut q, '\\');
            push_char(&mut q, '\\');
        } else if c == '"' {
            push_char(&mut q, '\\');
            push_char(&mut q, '"');
        } else {
            push_char(&mut q, c);
        }
    }
    assert(v.take(v.len() as int) == v);
    push_char(&mut q, '"');
    q
}

/// Whether `s` holds the character `c`.
pub fn has_char(s: &str, c: char) -> (b: bool)
    ensures
        b == s@.contains(c),
{
    broadcast use vstd::string::group_string_axioms;
    let ghost v = s@;
    let mut found = false;
    for d in it: s.chars()
        invariant
            it.seq() == v,
            found == v.take(it.index() as int).contains(c),
    {
        assert(v.take(it.index() + 1) == v.take(it.index() as int).push(d));
        if d == c {
            found = true;
            assert(v.take(it.index() + 1)[it.index() as int] == c);
        } else {
            assert(v.take(it.index() + 1).contains(c) ==> v.take(it.index() as int).contains(c));
        }
    }
    assert(v.take(v.len() as int) == v);
    found
}

/// The outcome of [`validate_str`] on a string whose characters are `v`.
pub open spec fn validate_error(v: Seq<char>) -> Option<char> {
    if v.contains('\n') {
        Some('\n')
    } else if v.contains('\r') {
        Some('\r')
    } else {
        None
    }
}

/// A string is refused as an argument exactly when it holds a line feed or a carriage return,
/// and the character reported is the line feed where it holds one.
pub proof fn lemma_validate_error(v: Seq<char>)
    ensures
        validate_error(v) is None <==> (!v.contains('\n') && !v.contains('\r')),
        v.contains('\n') ==> validate_error(v) == Some('\n'),
        !v.contains('\n') && v.contains('\r') ==> validate_error(v) == Some('\r'),
{
}

/// Quotes `value` for use as an IMAP string argument. A line feed or carriage return cannot
/// stand in a quoted string: the first of the two that `value` holds (line feed is checked
/// first) is returned as a [`ValidateError`].
pub fn validate_str(value: &str) -> (res: Result<String>)
    ensures
        match res {
            Ok(q) => validate_error(value@) is None && q@ == quoted(value@),
            Err(Error::Validate(ValidateError(c))) => validate_error(value@) == Some(c),
            Err(_) => false,
        },
{
    if has_char(value, '\n') {
        return Err(Error::Validate(ValidateError('\n')));
    }
    if has_char(value, '\r') {
        return Err(Error::Validate(ValidateError('\r')));
    }
    Ok(quote(value))
}


/// The tag that the client puts before the command numbered `n`: `a` and `n` in decimal.
pub open spec fn tag_text(n: nat) -> Seq<char> {
    seq!['a'] + decimal(n)
}

/// Tags never repeat on a connection: two commands carry the same tag only if they carry the
/// same number, and a [`Tagger`] gives each command the next number.
pub proof fn lemma_tags_distinct(n: nat, m: nat)
    requires
        tag_text(n) == tag_text(m),
    ensures
        n == m,
{
    assert(tag_text(n).drop_first() == decimal(n));
    assert(tag_text(m).drop_first() == decimal(m));
    lemma_decimal_injective(n, m);
}

/// The tag of the command numbered `n` is the letter `a` followed by the ASCII digits that denote
/// `n` in base ten.
pub proof fn lemma_tag_denotes_number(n: nat)
    ensures
        tag_text(n)[0] == 'a',
        forall|i: int| 1 <= i < tag_text(n).len() ==> 0x30 <= #[trigger] (tag_text(n)[i] as int) <= 0x39,
        digits_value(tag_text(n).drop_first()) == n,
{
    lemma_decimal_denotes(n);
    assert(tag_text(n).drop_first() == decimal(n));
    assert forall|i: int| 1 <= i < tag_text(n).len() implies 0x30 <= #[trigger] (tag_text(n)[i] as int) <= 0x39 by {
        assert(tag_text(n)[i] == decimal(n)[i - 1]);
    }
}

/// The tags of the commands that a client sends: the `n`-th command of a connection carries
/// the tag `a<n>`.
pub struct Tagger {
    tag: u32,
}

impl View for Tagger {
    type V = u32;

    /// The number of the last command tagged; 0 before the first.
    closed spec fn view(&self) -> u32 {
        self.tag
    }
}

impl Tagger {
    /// A tagger for a new connection: no command has been tagged.
    pub fn new() -> (t: Tagger)
        ensures
            t@ == 0,
    {
        Tagger { tag: 0 }
    }

    /// The number of the last command tagged.
    pub fn tag(&self) -> (n: u32)
        ensures
            n == self@,
    {
        self.tag
    }

    /// Tags `command` with the next number: the tag, a space and the command.
    pub fn create_command(&mut self, command: String) -> (c: String)
        requires
            old(self)@ < u32::MAX,
        ensures
            final(self)@ == old(self)@ + 1,
            c@ == tag_text(final(self)@ as nat) + seq![' '] + command@,
    {
        self.tag = self.tag + 1;
        let mut c = String::new();
        push_char(&mut c, 'a');
        push_decimal(&mut c, self.tag as u64);
        push_char(&mut c, ' ');
        push_str(&mut c, command.as_str());
        c
    }
}

/// A command line as it is written to the server: its bytes and CRLF.
pub fn frame_line(buf: &[u8]) -> (line: Vec<u8>)
    ensures
        line@ == buf@ + seq![0x0du8, 0x0au8],
{
    let mut line = vstd::slice::slice_to_vec(buf);
    line.push(0x0d);
    line.push(0x0a);
    line
}

/// What the reader of a command's reply does after it has tried to parse a line.
pub enum ReadStep {
    /// Read another line and try again.
    Continue,
    /// The tagged `OK` response starts at the given position of the data; the data before it is
    /// the reply.
    Complete { at: usize, code: Option<StatusCode> },
    /// The reply ends with this error.
    Failed(Error),
}

/// The explanation that a `BAD` or `NO` response gives, or a default one.
pub open spec fn explanation(information: Option<String>) -> Seq<char> {
    match information {
        Some(s) => s@,
        None => "no explanation given"@,
    }
}

/// Whether `e` is the error that a tagged response with `status`, `code` and `information` ends
/// a reply with, the reply data being `data`: `BAD` and `NO` become [`Error::Bad`] and
/// [`Error::No`] with the explanation, any other status an invalid reply.
pub open spec fn is_done_error(
    e: Error,
    status: ResponseStatus,
    code: Option<StatusCode>,
    information: Option<String>,
    data: Seq<u8>,
) -> bool {
    match status {
        ResponseStatus::Bad => e matches Error::Bad(b) && b.code == code && b.information@ == explanation(information),
        ResponseStatus::No => e matches Error::No(n) && n.code == code && n.information@ == explanation(information),
        _ => e matches Error::Parse(ParseError::Invalid(v)) && v@ == data,
    }
}

/// The reader of the reply to the command with a given tag: the lines of the reply are read
/// into one buffer, and each is parsed, from where the last incomplete response started, until
/// the tagged response comes.
pub struct ResponseReader {
    match_tag: String,
    continue_from: Option<usize>,
    try_first: bool,
}

impl ResponseReader {
    /// The tag that the tagged response must carry.
    pub closed spec fn spec_match_tag(&self) -> Seq<char> {
        self.match_tag@
    }

    /// Where the next line to parse starts, when the buffer held `start_new` bytes before the
    /// last line was read into it: at the start, where the buffer held data before the reader
    /// began; else where the last incomplete response started, if any; else at the new line.
    pub closed spec fn line_start(&self, start_new: usize) -> usize {
        if self.try_first {
            0
        } else {
            match self.continue_from {
                Some(c) => c,
                None => start_new,
            }
        }
    }

    /// Whether the reader will parse what the buffer holds before reading a line.
    pub closed spec fn spec_try_first(&self) -> bool {
        self.try_first
    }

    /// Whether a step on `data` is one the reader can take: the line starts within the data,
    /// and a tagged response there carries the tag of the command.
    pub open spec fn can_step(&self, data: Seq<u8>, start_new: usize) -> bool {
        let ls = self.line_start(start_new);
        &&& ls <= data.len()
        &&& match imap_line(data.skip(ls as int)) {
            Line::Parsed { response: ServerResponse::Done { tag, .. }, .. } => tag@ == self.spec_match_tag(),
            _ => true,
        }
    }

    /// Whether a step on `data`, where `data` held `start_new` bytes before the last line was
    /// read, may leave the reader as `after` and return `r`: the line at [`Self::line_start`] is
    /// parsed; a tagged `OK` completes the reply before it, with its code; a tagged `BAD` or
    /// `NO`, or any other tagged status, fails it ([`is_done_error`]); an untagged response
    /// lets the reader go on with the next line; an incomplete one makes it parse from the same
    /// start once more is read; bytes that do not parse fail the reply as invalid.
    pub open spec fn steps_to(&self, after: ResponseReader, data: Seq<u8>, start_new: usize, r: ReadStep) -> bool {
        let ls = self.line_start(start_new);
        &&& after.spec_match_tag() == self.spec_match_tag()
        &&& !after.spec_try_first()
        &&& match imap_line(data.skip(ls as int)) {
            Line::Parsed { response: ServerResponse::Done { status, code, information, .. }, .. } =>
                if status == ResponseStatus::Okay {
                    r matches ReadStep::Complete { at, code: c } && at == ls && c == code
                } else {
                    r matches ReadStep::Failed(e) && is_done_error(e, status, code, information, data)
                },
            Line::Parsed { .. } => r is Continue && forall|n: usize| #[trigger] after.line_start(n) == n,
            Line::Incomplete => r is Continue && forall|n: usize| #[trigger] after.line_start(n) == ls,
            Line::Invalid => r matches ReadStep::Failed(Error::Parse(ParseError::Invalid(v))) && v@ == data,
        }
    }

    /// A reader of the reply to the command tagged `tag`; `data_len` is how much the buffer
    /// already holds.
    pub fn new(tag: u32, data_len: usize) -> (r: ResponseReader)
        ensures
            r.spec_match_tag() == tag_text(tag as nat),
            r.spec_try_first() == (data_len > 0),
            !r.spec_try_first() ==> forall|n: usize| #[trigger] r.line_start(n) == n,
    {
        let mut match_tag = String::new();
        push_char(&mut match_tag, 'a');
        push_decimal(&mut match_tag, tag as u64);
        ResponseReader { match_tag, continue_from: None, try_first: data_len > 0 }
    }

    /// Whether a line must be read into the buffer before the next step.
    pub fn needs_line(&self) -> (b: bool)
        ensures
            b == !self.spec_try_first(),
    {
        !self.try_first
    }

    /// Parses the line that starts at [`Self::line_start`] of `data`, where `data` held
    /// `start_new` bytes before the last line was read, and acts on it ([`Self::steps_to`]).
    pub fn step(&mut self, data: &[u8], start_new: usize) -> (r: ReadStep)
        requires
            old(self).can_step(data@, start_new),
        ensures
            old(self).steps_to(*final(self), data@, start_new, r),
    {
        let line_start = if self.try_first {
            0
        } else {
            match self.continue_from {
                Some(c) => c,
                None => start_new,
            }
        };
        self.try_first = false;
        self.continue_from = None;
        let line = &data[line_start..data.len()];
        assert(line@ == data@.skip(line_start as int));
        match parse_line(line) {
            Line::Parsed { response: ServerResponse::Done { status, code, information, .. }, .. } => {
                match status {
                    ResponseStatus::Okay => ReadStep::Complete { at: line_start, code },
                    ResponseStatus::Bad => {
                        let information = explain(information);
                        ReadStep::Failed(Error::Bad(Bad { information, code }))
                    },
                    ResponseStatus::No => {
                        let information = explain(information);
                        ReadStep::Failed(Error::No(No { information, code }))
                    },
                    _ => ReadStep::Failed(Error::Parse(ParseError::Invalid(vstd::slice::slice_to_vec(data)))),
                }
            },
            Line::Parsed { .. } => ReadStep::Continue,
            Line::Incomplete => {
                self.continue_from = Some(line_start);
                ReadStep::Continue
            },
            Line::Invalid => ReadStep::Failed(Error::Parse(ParseError::Invalid(vstd::slice::slice_to_vec(data)))),
        }
    }

    /// Whether [`Self::step`] can be taken on `data` ([`Self::can_step`]).
    pub fn check_step(&self, data: &[u8], start_new: usize) -> (b: bool)
        ensures
            b == self.can_step(data@, start_new),
    {
        let line_start = if self.try_first {
            0
        } else {
            match self.continue_from {
                Some(c) => c,
                None => start_new,
            }
        };
        if line_start > data.len() {
            return false;
        }
        let line = &data[line_start..data.len()];
        assert(line@ == data@.skip(line_start as int));
        match parse_line(line) {
            Line::Parsed { response: ServerResponse::Done { tag, .. }, .. } => str_eq(tag.as_str(), self.match_tag.as_str()),
            _ => true,
        }
    }

    /// Takes [`Self::step`] where it can be taken, and returns `None`, with the reader unchanged,
    /// where it cannot ([`Self::can_step`]).
    pub fn step_checked(&mut self, data: &[u8], start_new: usize) -> (r: Option<ReadStep>)
        ensures
            !old(self).can_step(data@, start_new) ==> r is None && *final(self) == *old(self),
            old(self).can_step(data@, start_new) ==> (r matches Some(s) && old(self).steps_to(
                *final(self),
                data@,
                start_new,
                s,
            )),
    {
        if self.check_step(data, start_new) {
            Some(self.step(data, start_new))
        } else {
            None
        }
    }
}

/// A reply is complete only at the tagged `OK` response of its own command: where a step that
/// the reader can take completes the reply at `at`, the response at `at` is a tagged `OK` that
/// carries the tag of the command, and its code is the one returned.
pub proof fn lemma_completes_at_own_tag(
    reader: ResponseReader,
    after: ResponseReader,
    data: Seq<u8>,
    start_new: usize,
    at: usize,
    code: Option<StatusCode>,
)
    requires
        reader.can_step(data, start_new),
        reader.steps_to(after, data, start_new, ReadStep::Complete { at, code }),
    ensures
        at == reader.line_start(start_new),
        imap_line(data.skip(at as int)) matches Line::Parsed {
            response: ServerResponse::Done { tag, status, code: c, .. },
            ..
        } && tag@ == reader.spec_match_tag() && status == ResponseStatus::Okay && c == code,
{
}

/// The explanation that a `BAD` or `NO` response gives, or a default one.
fn explain(information: Option<String>) -> (s: String)
    ensures
        s@ == explanation(information),
{
    match information {
        Some(s) => s,
        None => {
            let s = "no explanation given";
            s.to_owned()
        },
    }
}


/// The first character that [`validate_str`] refuses among the values `vs`, taken in order.
pub open spec fn first_invalid(vs: Seq<Seq<char>>) -> Option<char>
    decreases vs.len(),
{
    if vs.len() == 0 {
        None
    } else {
        match validate_error(vs[0]) {
            Some(c) => Some(c),
            None => first_invalid(vs.drop_first()),
        }
    }
}

/// Whether `res` is what building a command from the string arguments `values` gives, the
/// command being `text` where every value is valid: the first invalid character otherwise.
pub open spec fn validated(res: Result<String>, values: Seq<Seq<char>>, text: Seq<char>) -> bool {
    match res {
        Ok(c) => first_invalid(values) is None && c@ == text,
        Err(Error::Validate(ValidateError(ch))) => first_invalid(values) == Some(ch),
        Err(_) => false,
    }
}

/// Builds `name`, a space and one quoted string argument.
fn command_1(name: &str, value: &str) -> (res: Result<String>)
    ensures
        validated(res, seq![value@], name@ + seq![' '] + quoted(value@)),
{
    proof {
        reveal_with_fuel(first_invalid, 2);
        assert(seq![value@][0] == value@);
        assert(seq![value@].drop_first() =~= Seq::<Seq<char>>::empty());
    }
    match validate_str(value) {
        Ok(q) => {
            let mut c = name.to_owned();
            push_char(&mut c, ' ');
            push_str(&mut c, q.as_str());
            assert(c@ =~= name@ + seq![' '] + quoted(value@));
            Ok(c)
        },
        Err(e) => Err(e),
    }
}

/// Builds `name`, a space, and two arguments separated by a space.
fn command_2(name: &str, a: &str, b: &str) -> (c: String)
    ensures
        c@ == name@ + seq![' '] + a@ + seq![' '] + b@,
{
    let mut c = name.to_owned();
    push_char(&mut c, ' ');
    push_str(&mut c, a);
    push_char(&mut c, ' ');
    push_str(&mut c, b);
    c
}

/// The `LOGIN` command: the user name and the password as quoted strings.
pub fn login_command(username: &str, password: &str) -> (res: Result<String>)
    ensures
        validated(
            res,
            seq![username@, password@],
            "LOGIN "@ + quoted(username@) + seq![' '] + quoted(password@),
        ),
{
    proof {
        reveal_with_fuel(first_invalid, 3);
        assert(seq![username@, password@][0] == username@);
        assert(seq![username@, password@].drop_first() =~= seq![password@]);
        assert(seq![password@][0] == password@);
        assert(seq![password@].drop_first() =~= Seq::<Seq<char>>::empty());
    }
    let u = match validate_str(username) {
        Ok(u) => u,
        Err(e) => return Err(e),
    };
    let p = match validate_str(password) {
        Ok(p) => p,
        Err(e) => return Err(e),
    };
    let mut c = "LOGIN ".to_owned();
    push_str(&mut c, u.as_str());
    push_char(&mut c, ' ');
    push_str(&mut c, p.as_str());
    assert(c@ =~= "LOGIN "@ + quoted(username@) + seq![' '] + quoted(password@));
    Ok(c)
}

/// The `SELECT` command for a mailbox.
pub fn select_command(mailbox_name: &str) -> (res: Result<String>)
    ensures
        validated(res, seq![mailbox_name@], "SELECT"@ + seq![' '] + quoted(mailbox_name@)),
{
    command_1("SELECT", mailbox_name)
}

/// The `EXAMINE` command for a mailbox.
pub fn examine_command(mailbox_name: &str) -> (res: Result<String>)
    ensures
        validated(res, seq![mailbox_name@], "EXAMINE"@ + seq![' '] + quoted(mailbox_name@)),
{
    command_1("EXAMINE", mailbox_name)
}

/// The `CREATE` command for a mailbox.
pub fn create_command(mailbox_name: &str) -> (res: Result<String>)
    ensures
        validated(res, seq![mailbox_name@], "CREATE"@ + seq![' '] + quoted(mailbox_name@)),
{
    command_1("CREATE", mailbox_name)
}

/// The `DELETE` command for a mailbox.
pub fn delete_command(mailbox_name: &str) -> (res: Result<String>)
    ensures
        validated(res, seq![mailbox_name@], "DELETE"@ + seq![' '] + quoted(mailbox_name@)),
{
    command_1("DELETE", mailbox_name)
}

/// The `STATUS` command for a mailbox and the data items asked for, as given.
pub fn status_command(mailbox_name: &str, data_items: &str) -> (res: Result<String>)
    ensures
        validated(
            res,
            seq![mailbox_name@],
            "STATUS"@ + seq![' '] + quoted(mailbox_name@) + seq![' '] + data_items@,
        ),
{
    match command_1("STATUS", mailbox_name) {
        Ok(c) => {
            let mut c = c;
            push_char(&mut c, ' ');
            push_str(&mut c, data_items);
            assert(c@ =~= "STATUS"@ + seq![' '] + quoted(mailbox_name@) + seq![' '] + data_items@);
            Ok(c)
        },
        Err(e) => Err(e),
    }
}

/// The `RENAME` command: both names quoted, without validation.
pub fn rename_command(current_mailbox_name: &str, new_mailbox_name: &str) -> (c: String)
    ensures
        c@ == "RENAME"@ + seq![' '] + quoted(current_mailbox_name@) + seq![' '] + quoted(
            new_mailbox_name@,
        ),
{
    let a = quote(current_mailbox_name);
    let b = quote(new_mailbox_name);
    command_2("RENAME", a.as_str(), b.as_str())
}

/// The `SUBSCRIBE` command: the name quoted, without validation.
pub fn subscribe_command(mailbox: &str) -> (c: String)
    ensures
        c@ == "SUBSCRIBE "@ + quoted(mailbox@),
{
    let mut c = "SUBSCRIBE ".to_owned();
    let q = quote(mailbox);
    push_str(&mut c, q.as_str());
    c
}

/// The `UNSUBSCRIBE` command: the name quoted, without validation.
pub fn unsubscribe_command(mailbox: &str) -> (c: String)
    ensures
        c@ == "UNSUBSCRIBE "@ + quoted(mailbox@),
{
    let mut c = "UNSUBSCRIBE ".to_owned();
    let q = quote(mailbox);
    push_str(&mut c, q.as_str());
    c
}

/// The `FETCH` command (`UID FETCH` where `uid`) for a set of messages and a query, as given.
pub fn fetch_command(uid: bool, sequence_set: &str, query: &str) -> (c: String)
    ensures
        c@ == (if uid { "UID FETCH"@ } else { "FETCH"@ }) + seq![' '] + sequence_set@ + seq![' ']
            + query@,
{
    if uid {
        command_2("UID FETCH", sequence_set, query)
    } else {
        command_2("FETCH", sequence_set, query)
    }
}

/// The `STORE` command (`UID STORE` where `uid`) for a set of messages and a query, as given.
pub fn store_command(uid: bool, sequence_set: &str, query: &str) -> (c: String)
    ensures
        c@ == (if uid { "UID STORE"@ } else { "STORE"@ }) + seq![' '] + sequence_set@ + seq![' ']
            + query@,
{
    if uid {
        command_2("UID STORE", sequence_set, query)
    } else {
        command_2("STORE", sequence_set, query)
    }
}

/// The `COPY` command (`UID COPY` where `uid`) for a set of messages and a mailbox, as given.
pub fn copy_command(uid: bool, sequence_set: &str, mailbox_name: &str) -> (c: String)
    ensures
        c@ == (if uid { "UID COPY"@ } else { "COPY"@ }) + seq![' '] + sequence_set@ + seq![' ']
            + mailbox_name@,
{
    if uid {
        command_2("UID COPY", sequence_set, mailbox_name)
    } else {
        command_2("COPY", sequence_set, mailbox_name)
    }
}

/// The `LIST` command (`LSUB` where `subscribed`): the reference name quoted, the pattern as
/// given.
pub fn list_command(subscribed: bool, reference_name: &str, mailbox_search_pattern: &str) -> (c:
    String)
    ensures
        c@ == (if subscribed { "LSUB"@ } else { "LIST"@ }) + seq![' '] + quoted(reference_name@)
            + seq![' '] + mailbox_search_pattern@,
{
    let q = quote(reference_name);
    if subscribed {
        command_2("LSUB", q.as_str(), mailbox_search_pattern)
    } else {
        command_2("LIST", q.as_str(), mailbox_search_pattern)
    }
}

/// The `APPEND` command: the folder between double quotes, as given, and the size of the
/// content as a literal announcement.
pub fn append_command(folder: &str, content_len: usize) -> (c: String)
    ensures
        c@ == "APPEND \""@ + folder@ + "\" {"@ + decimal(content_len as nat) + "}"@,
{
    let mut c = "APPEND \"".to_owned();
    push_str(&mut c, folder);
    push_str(&mut c, "\" {");
    push_decimal(&mut c, content_len as u64);
    push_str(&mut c, "}");
    c
}

/// The `AUTHENTICATE` command for a mechanism, as given.
pub fn authenticate_command(auth_type: &str) -> (c: String)
    ensures
        c@ == "AUTHENTICATE "@ + auth_type@,
{
    let mut c = "AUTHENTICATE ".to_owned();
    push_str(&mut c, auth_type);
    c
}


/// What `base64` decodes the text to with the standard alphabet and padding, if it is valid.
pub uninterp spec fn base64_decoded(text: Seq<char>) -> Option<Seq<u8>>;

/// What `base64` encodes the bytes to with the standard alphabet and padding.
pub uninterp spec fn base64_encoded(bytes: Seq<u8>) -> Seq<char>;

/// Decodes base64 text with `base64::engine::general_purpose::STANDARD`. The contract claims
/// that the outcome depends on the text alone; which bytes come out is not stated.
#[verifier::external_body]
fn decode_base64(text: &str) -> (r: core::result::Result<Vec<u8>, base64::DecodeError>)
    ensures
        match r {
            Ok(v) => base64_decoded(text@) == Some(v@),
            Err(_) => base64_decoded(text@) is None,
        },
{
    base64::Engine::decode(&base64::engine::general_purpose::STANDARD, text)
}

/// Encodes bytes as base64 text with `base64::engine::general_purpose::STANDARD`. The contract
/// claims that the text depends on the bytes alone; which text it is, is not stated.
#[verifier::external_body]
fn encode_base64(bytes: &[u8]) -> (s: String)
    ensures
        s@ == base64_encoded(bytes@),
{
    base64::Engine::encode(&base64::engine::general_purpose::STANDARD, bytes)
}

/// Reads bytes as UTF-8 text, as `std::str::from_utf8` does: the text where the bytes are valid
/// UTF-8, an error otherwise.
#[verifier::external_body]
pub(crate) fn utf8_text(bytes: &[u8]) -> (r: core::result::Result<&str, std::str::Utf8Error>)
    ensures
        match r {
            Ok(t) => vstd::utf8::valid_utf8(bytes@) && t@ == vstd::utf8::decode_utf8(bytes@),
            Err(_) => !vstd::utf8::valid_utf8(bytes@),
        },
{
    std::str::from_utf8(bytes)
}

/// Whether `line` is the bare continuation `+` and CRLF.
pub open spec fn is_empty_challenge(line: Seq<u8>) -> bool {
    line == seq![0x2bu8, 0x0d, 0x0a]
}

/// Whether `line` is a continuation with data: it starts with `+ `.
pub open spec fn is_data_challenge(line: Seq<u8>) -> bool {
    line.len() >= 2 && line[0] == 0x2b && line[1] == 0x20
}

/// What a client makes of a line it reads while authenticating: a bare continuation is an
/// empty challenge; a continuation with data is the base64 data it carries, decoded; any other
/// line ends the exchange (`None`) and is the start of the tagged reply. A continuation that is
/// not UTF-8, has no data, or whose data is not base64 fails the exchange.
pub fn auth_challenge(line: &[u8]) -> (res: Result<Option<Vec<u8>>>)
    ensures
        ({
            let l = line@;
            if is_empty_challenge(l) {
                res matches Ok(Some(c)) && c@.len() == 0
            } else if is_data_challenge(l) {
                match res {
                    Ok(Some(c)) => vstd::utf8::valid_utf8(l) && (auth_data(vstd::utf8::decode_utf8(l)) matches Some(d)
                        && base64_decoded(d) == Some(c@)),
                    Err(Error::Parse(ParseError::DataNotUtf8(v, _))) => !vstd::utf8::valid_utf8(l) && v@ == l,
                    Err(Error::Parse(ParseError::Authentication(t, None))) => vstd::utf8::valid_utf8(l)
                        && auth_data(vstd::utf8::decode_utf8(l)) is None && t@ == vstd::utf8::decode_utf8(l),
                    Err(Error::Parse(ParseError::Authentication(t, Some(_)))) => vstd::utf8::valid_utf8(l)
                        && auth_data(vstd::utf8::decode_utf8(l)) == Some(t@) && base64_decoded(t@) is None,
                    _ => false,
                }
            } else {
                res matches Ok(None)
            }
        }),
{
    if line.len() == 3 && line[0] == 0x2b && line[1] == 0x0d && line[2] == 0x0a {
        assert(line@ =~= seq![0x2bu8, 0x0d, 0x0a]);
        return Ok(Some(Vec::new()));
    }
    if !(line.len() >= 2 && line[0] == 0x2b && line[1] == 0x20) {
        assert(!is_empty_challenge(line@));
        return Ok(None);
    }
    let text = match utf8_text(line) {
        Ok(t) => t,
        Err(e) => return Err(Error::Parse(ParseError::DataNotUtf8(vstd::slice::slice_to_vec(line), e))),
    };
    let data = match parse_authenticate_response(text) {
        Ok(d) => d,
        Err(e) => return Err(e),
    };
    match decode_base64(data) {
        Ok(c) => Ok(Some(c)),
        Err(e) => Err(Error::Parse(ParseError::Authentication(data.to_owned(), Some(e)))),
    }
}

/// The line a client sends in answer to a challenge: the authenticator's response, base64
/// encoded.
pub fn auth_response(raw: &[u8]) -> (s: String)
    ensures
        s@ == base64_encoded(raw@),
{
    encode_base64(raw)
}

} // verus!
