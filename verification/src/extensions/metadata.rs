//! Adds support for the IMAP METADATA extension specified in [RFC
//! 5464](https://tools.ietf.org/html/rfc5464).
//!
//! Mailboxes or the server as a whole may have zero or more annotations associated with them. An
//! annotation contains a uniquely named entry, which has a value. Annotations can be added to
//! mailboxes when a mailbox name is provided as the first argument to the `SETMETADATA` command,
//! or to the server as a whole when the first argument is empty.
//!
//! For example, a general comment being added to a mailbox may have an entry name of "/comment"
//! and a value of "Really useful mailbox".

use crate::client::{first_invalid, quoted, validate_error, validate_str, validated};
use crate::error::{Error, ParseError, Result, ValidateError};
use crate::parse::{
    first_unexpected_at, lemma_read_len_all, lemma_read_len_at, lemma_skip_push, lemma_step,
    none_unexpected, passes_on, read_result, reports, split_responses, split_spec,
    try_handle_unilateral, unilateral,
};
use crate::response::{MailboxData, Metadata, ServerResponse, StatusCode};
use crate::types::UnsolicitedResponse;
use crate::utils::{decimal, iter_join, joined, push_decimal, push_str, texts};
use std::collections::VecDeque;
use vstd::prelude::*;

verus! {

/// Represents variants of the `DEPTH` parameter for the `GETMETADATA` command.
///
/// When a non-zero depth is specified with the `GETMETADATA` command, it extends the list of entry
/// values returned by the server. For each entry name specified in the `GETMETADATA` command, the
/// server returns the value of the specified entry name (if it exists), plus all entries below the
/// entry name up to the specified `DEPTH`.
///
/// See also [RFC 5464, section 4.2.2](https://tools.ietf.org/html/rfc5464#section-4.2.2).
#[derive(Debug, Copy, Clone)]
pub enum MetadataDepth {
    /// No entries below the specified entry are returned.
    Zero,
    /// Only entries immediately below the specified entry are returned.
    ///
    /// Thus, a depth of one for an entry `/a` will match `/a` as well as its children entries
    /// (e.g., `/a/b`), but will not match grandchildren entries (e.g., `/a/b/c`).
    One,
    /// All entries below the specified entry are returned
    Infinity,
}

impl Default for MetadataDepth {
    fn default() -> (d: Self)
        ensures
            d == MetadataDepth::Zero,
    {
        MetadataDepth::Zero
    }
}

/// The text of a depth in the `GETMETADATA` command.
pub open spec fn depth_text(d: MetadataDepth) -> Seq<char> {
    match d {
        MetadataDepth::Zero => "0"@,
        MetadataDepth::One => "1"@,
        MetadataDepth::Infinity => "infinity"@,
    }
}

impl MetadataDepth {
    /// The text of this depth in the `GETMETADATA` command.
    pub fn depth_str<'a>(self) -> (s: &'a str)
        ensures
            s@ == depth_text(self),
    {
        match self {
            MetadataDepth::Zero => "0",
            MetadataDepth::One => "1",
            MetadataDepth::Infinity => "infinity",
        }
    }
}

/// The values of `vs` followed by those of `ws` hold the first invalid character of `vs`, or
/// else that of `ws`.
pub proof fn lemma_first_invalid_concat(vs: Seq<Seq<char>>, ws: Seq<Seq<char>>)
    ensures
        first_invalid(vs + ws) == (if first_invalid(vs) is Some {
            first_invalid(vs)
        } else {
            first_invalid(ws)
        }),
    decreases vs.len(),
{
    if vs.len() > 0 {
        assert((vs + ws)[0] == vs[0]);
        assert((vs + ws).drop_first() == vs.drop_first() + ws);
        lemma_first_invalid_concat(vs.drop_first(), ws);
    } else {
        assert(vs + ws == ws);
    }
}

/// The arguments of the entries `es` that are validated, in order.
pub open spec fn entry_texts(es: Seq<&str>) -> Seq<Seq<char>> {
    es.map_values(|e: &str| e@)
}

/// The entries `es` as quoted strings.
pub open spec fn quoted_entries(es: Seq<&str>) -> Seq<Seq<char>> {
    es.map_values(|e: &str| quoted(e@))
}

/// The mailbox argument of `GETMETADATA`: the name as a quoted string, or an empty one.
pub open spec fn mailbox_argument(mailbox: Option<&str>) -> Seq<char> {
    match mailbox {
        Some(m) => quoted(m@),
        None => "\"\""@,
    }
}

/// The string arguments that `GETMETADATA` validates, in order: the entries, then the mailbox.
pub open spec fn get_metadata_values(mailbox: Option<&str>, entries: Seq<&str>) -> Seq<Seq<char>> {
    match mailbox {
        Some(m) => entry_texts(entries).push(m@),
        None => entry_texts(entries),
    }
}

/// The `GETMETADATA` command line.
pub open spec fn get_metadata_text(
    mailbox: Option<&str>,
    entries: Seq<&str>,
    depth: MetadataDepth,
    maxsize: Option<usize>,
) -> Seq<char> {
    "GETMETADATA (DEPTH "@ + depth_text(depth) + match maxsize {
        Some(n) => " MAXSIZE "@ + decimal(n as nat),
        None => seq![],
    } + ") "@ + mailbox_argument(mailbox) + " ("@ + joined(quoted_entries(entries), seq![' '])
        + ")"@
}

/// Validates each string of `values` in order, quoting it; the first invalid one is the error.
fn validate_all(values: &[&str]) -> (res: Result<Vec<String>>)
    ensures
        match res {
            Ok(v) => first_invalid(entry_texts(values@)) is None && texts(v@) == quoted_entries(
                values@,
            ),
            Err(Error::Validate(ValidateError(c))) => first_invalid(entry_texts(values@)) == Some(
                c,
            ),
            Err(_) => false,
        },
{
    let mut out: Vec<String> = Vec::new();
    let mut i: usize = 0;
    while i < values.len()
        invariant
            i <= values@.len(),
            first_invalid(entry_texts(values@.take(i as int))) is None,
            texts(out@) == quoted_entries(values@.take(i as int)),
        decreases values@.len() - i,
    {
        let ghost before = entry_texts(values@.take(i as int));
        proof {
            reveal_with_fuel(first_invalid, 2);
            assert(entry_texts(values@.take(i + 1)) == before + seq![values@[i as int]@]);
            assert(seq![values@[i as int]@][0] == values@[i as int]@);
            assert(seq![values@[i as int]@].drop_first() =~= Seq::<Seq<char>>::empty());
            lemma_first_invalid_concat(before, seq![values@[i as int]@]);
            assert(entry_texts(values@) == entry_texts(values@.take(i + 1)) + entry_texts(values@.skip(i + 1)));
            lemma_first_invalid_concat(entry_texts(values@.take(i + 1)), entry_texts(values@.skip(i + 1)));
        }
        match validate_str(values[i]) {
            Ok(q) => {
                let ghost old_out = out@;
                out.push(q);
                proof {
                    assert(texts(out@) == texts(old_out).push(q@));
                    assert(quoted_entries(values@.take(i + 1)) == quoted_entries(values@.take(i as int)).push(quoted(values@[i as int]@)));
                }
            },
            Err(e) => {
                return Err(e);
            },
        }
        i = i + 1;
    }
    proof {
        assert(values@.take(values@.len() as int) == values@);
    }
    Ok(out)
}

/// The `GETMETADATA` command ([`get_metadata_text`]): the entries, then the mailbox, are
/// validated in order ([`get_metadata_values`]).
pub fn get_metadata_command(
    mailbox: Option<&str>,
    entries: &[&str],
    depth: MetadataDepth,
    maxsize: Option<usize>,
) -> (res: Result<String>)
    ensures
        validated(
            res,
            get_metadata_values(mailbox, entries@),
            get_metadata_text(mailbox, entries@, depth, maxsize),
        ),
{
    let v = match validate_all(entries) {
        Ok(v) => v,
        Err(e) => {
            proof {
                match mailbox {
                    Some(m) => {
                        lemma_first_invalid_concat(entry_texts(entries@), seq![m@]);
                        assert(entry_texts(entries@).push(m@) == entry_texts(entries@) + seq![m@]);
                    },
                    None => {},
                }
            }
            return Err(e);
        },
    };
    let s = iter_join(v.as_slice(), " ");
    proof {
        reveal_strlit(" ");
        assert(" "@ =~= seq![' ']);
    }
    let mut command = "GETMETADATA (DEPTH ".to_owned();
    push_str(&mut command, depth.depth_str());
    match maxsize {
        Some(size) => {
            push_str(&mut command, " MAXSIZE ");
            push_decimal(&mut command, size as u64);
        },
        None => {},
    }
    push_str(&mut command, ") ");
    match mailbox {
        Some(m) => {
            proof {
                reveal_with_fuel(first_invalid, 2);
                assert(seq![m@][0] == m@);
                assert(seq![m@].drop_first() =~= Seq::<Seq<char>>::empty());
                lemma_first_invalid_concat(entry_texts(entries@), seq![m@]);
                assert(entry_texts(entries@).push(m@) == entry_texts(entries@) + seq![m@]);
            }
            match validate_str(m) {
                Ok(q) => push_str(&mut command, q.as_str()),
                Err(e) => return Err(e),
            }
        },
        None => push_str(&mut command, "\"\""),
    }
    push_str(&mut command, " (");
    push_str(&mut command, s.as_str());
    push_str(&mut command, ")");
    assert(command@ =~= get_metadata_text(mailbox, entries@, depth, maxsize));
    Ok(command)
}

/// The string arguments of one annotation that `SETMETADATA` validates: the entry, then the
/// value if any.
pub open spec fn annotation_values(m: Metadata) -> Seq<Seq<char>> {
    match m.value {
        Some(v) => seq![m.entry@, v@],
        None => seq![m.entry@],
    }
}

/// The string arguments of the annotations `ms`, in order.
pub open spec fn annotations_values(ms: Seq<Metadata>) -> Seq<Seq<char>>
    decreases ms.len(),
{
    if ms.len() == 0 {
        seq![]
    } else {
        annotations_values(ms.drop_last()) + annotation_values(ms.last())
    }
}

/// An annotation as an item of the `SETMETADATA` list: the entry and the value as quoted
/// strings, `NIL` for no value.
pub open spec fn annotation_text(m: Metadata) -> Seq<char> {
    quoted(m.entry@) + seq![' '] + match m.value {
        Some(v) => quoted(v@),
        None => "NIL"@,
    }
}

/// The `SETMETADATA` command line.
pub open spec fn set_metadata_text(mbox: Seq<char>, ms: Seq<Metadata>) -> Seq<char> {
    "SETMETADATA "@ + quoted(mbox) + " ("@ + joined(ms.map_values(|m: Metadata| annotation_text(m)), seq![' ']) + ")"@
}

impl Metadata {
    /// This annotation as an item of the `SETMETADATA` list ([`annotation_text`]); the entry,
    /// then the value, are validated.
    pub fn format_as_cmd_list_item(&self) -> (res: Result<String>)
        ensures
            validated(res, annotation_values(*self), annotation_text(*self)),
    {
        proof {
            reveal_with_fuel(first_invalid, 3);
            reveal_strlit("NIL");
        }
        let e = match validate_str(self.entry.as_str()) {
            Ok(e) => e,
            Err(err) => return Err(err),
        };
        let mut item = e;
        push_str(&mut item, " ");
        proof {
            reveal_strlit(" ");
            assert(" "@ =~= seq![' ']);
        }
        match &self.value {
            Some(v) => {
                assert(annotation_values(*self)[0] == self.entry@);
                assert(annotation_values(*self).drop_first() =~= seq![v@]);
                assert(seq![v@][0] == v@);
                assert(seq![v@].drop_first() =~= Seq::<Seq<char>>::empty());
                match validate_str(v.as_str()) {
                    Ok(q) => push_str(&mut item, q.as_str()),
                    Err(err) => return Err(err),
                }
            },
            None => {
                assert(annotation_values(*self)[0] == self.entry@);
                assert(annotation_values(*self).drop_first() =~= Seq::<Seq<char>>::empty());
                push_str(&mut item, "NIL");
            },
        }
        assert(item@ =~= annotation_text(*self));
        Ok(item)
    }
}

/// The `SETMETADATA` command ([`set_metadata_text`]): the annotations, then the mailbox, are
/// validated in order.
pub fn set_metadata_command(mbox: &str, annotations: &[Metadata]) -> (res: Result<String>)
    ensures
        validated(
            res,
            annotations_values(annotations@).push(mbox@),
            set_metadata_text(mbox@, annotations@),
        ),
{
    let ghost tail = seq![mbox@];
    let mut items: Vec<String> = Vec::new();
    let mut i: usize = 0;
    while i < annotations.len()
        invariant
            i <= annotations@.len(),
            first_invalid(annotations_values(annotations@.take(i as int))) is None,
            texts(items@) == annotations@.take(i as int).map_values(|m: Metadata| annotation_text(m)),
        decreases annotations@.len() - i,
    {
        let ghost before = annotations_values(annotations@.take(i as int));
        proof {
            assert(annotations@.take(i + 1).drop_last() == annotations@.take(i as int));
            assert(annotations@.take(i + 1).last() == annotations@[i as int]);
            lemma_first_invalid_concat(before, annotation_values(annotations@[i as int]));
        }
        match annotations[i].format_as_cmd_list_item() {
            Ok(item) => {
                let ghost old_items = items@;
                items.push(item);
                proof {
                    assert(texts(items@) == texts(old_items).push(item@));
                    assert(annotations@.take(i + 1).map_values(|m: Metadata| annotation_text(m))
                        == annotations@.take(i as int).map_values(|m: Metadata| annotation_text(m)).push(annotation_text(annotations@[i as int])));
                }
            },
            Err(e) => {
                proof {
                    annotations_prefix_invalid(annotations@, i as int);
                    lemma_first_invalid_concat(annotations_values(annotations@), seq![mbox@]);
                    assert(annotations_values(annotations@).push(mbox@) == annotations_values(annotations@) + seq![mbox@]);
                }
                return Err(e);
            },
        }
        i = i + 1;
    }
    proof {
        assert(annotations@.take(annotations@.len() as int) == annotations@);
        reveal_with_fuel(first_invalid, 2);
        assert(seq![mbox@][0] == mbox@);
        assert(seq![mbox@].drop_first() =~= Seq::<Seq<char>>::empty());
        lemma_first_invalid_concat(annotations_values(annotations@), seq![mbox@]);
        assert(annotations_values(annotations@).push(mbox@) == annotations_values(annotations@) + seq![mbox@]);
    }
    let s = iter_join(items.as_slice(), " ");
    let q = match validate_str(mbox) {
        Ok(q) => q,
        Err(e) => {
            assert(first_invalid(annotations_values(annotations@)) is None);
            assert(first_invalid(seq![mbox@]) == validate_error(mbox@));
            return Err(e);
        },
    };
    let mut command = "SETMETADATA ".to_owned();
    push_str(&mut command, q.as_str());
    push_str(&mut command, " (");
    push_str(&mut command, s.as_str());
    push_str(&mut command, ")");
    proof {
        reveal_strlit(" ");
        assert(" "@ =~= seq![' ']);
    }
    assert(command@ =~= set_metadata_text(mbox@, annotations@));
    Ok(command)
}

/// Where the annotation at `i` has an invalid argument and none before it has, the first
/// invalid argument of all of them is that one's.
proof fn annotations_prefix_invalid(ms: Seq<Metadata>, i: int)
    requires
        0 <= i < ms.len(),
        first_invalid(annotations_values(ms.take(i))) is None,
        first_invalid(annotation_values(ms[i])) is Some,
    ensures
        first_invalid(annotations_values(ms)) == first_invalid(annotation_values(ms[i])),
    decreases ms.len(),
{
    if i == ms.len() - 1 {
        assert(ms.drop_last() == ms.take(i));
        assert(ms.last() == ms[i]);
        lemma_first_invalid_concat(annotations_values(ms.take(i)), annotation_values(ms[i]));
    } else {
        assert(ms.drop_last().take(i) == ms.take(i));
        assert(ms.drop_last()[i] == ms[i]);
        annotations_prefix_invalid(ms.drop_last(), i);
        lemma_first_invalid_concat(annotations_values(ms.drop_last()), annotation_values(ms.last()));
    }
}


/// Whether `r` is a `METADATA` response that the client asked for.
pub open spec fn takes_metadata() -> spec_fn(ServerResponse) -> bool {
    |r: ServerResponse| r matches ServerResponse::MailboxData(MailboxData::MetadataSolicited { .. })
}

/// The annotations of the solicited `METADATA` responses of `rs`, in order.
pub open spec fn solicited_metadata(rs: Seq<ServerResponse>) -> Seq<Metadata>
    decreases rs.len(),
{
    if rs.len() == 0 {
        seq![]
    } else {
        match rs.last() {
            ServerResponse::MailboxData(MailboxData::MetadataSolicited { values, .. }) =>
                solicited_metadata(rs.drop_last()) + values@,
            _ => solicited_metadata(rs.drop_last()),
        }
    }
}

/// Reads the reply to `GETMETADATA`: the annotations of its `METADATA` responses, in order;
/// every other response is passed on as unsolicited.
pub fn parse_metadata(lines: &[u8], unsolicited: &mut VecDeque<UnsolicitedResponse>) -> (res:
    Result<Vec<Metadata>>)
    ensures
        read_result(res, lines@, takes_metadata(), unilateral()),
        passes_on(final(unsolicited)@, old(unsolicited)@, lines@, takes_metadata(), unilateral()),
        res matches Ok(v) ==> v@ == solicited_metadata(split_spec(lines@).0),
{
    let ghost wanted = takes_metadata();
    let ghost passed = unilateral();
    let (rs, tail) = split_responses(lines);
    let ghost all = rs@;
    let ghost old_q = unsolicited@;
    let mut res: Vec<Metadata> = Vec::new();
    proof {
        assert(all.take(0) =~= Seq::<ServerResponse>::empty());
        assert(unsolicited@.skip(old_q.len() as int) =~= Seq::<UnsolicitedResponse>::empty());
        assert(unsolicited@.take(old_q.len() as int) =~= old_q);
    }
    for r in it: rs
        invariant
            it.seq() == all,
            all == split_spec(lines@).0,
            wanted == takes_metadata(),
            passed == unilateral(),
            old_q == old(unsolicited)@,
            none_unexpected(all.take(it.index() as int), wanted, passed),
            unsolicited@.len() >= old_q.len(),
            unsolicited@.take(old_q.len() as int) == old_q,
            reports(unsolicited@.skip(old_q.len() as int), all.take(it.index() as int), wanted, passed),
            res@ == solicited_metadata(all.take(it.index() as int)),
    {
        let ghost i = it.index() as int;
        let ghost q = unsolicited@;
        proof {
            assert(all.take(i + 1).drop_last() == all.take(i));
            assert(all.take(i + 1).last() == all[i]);
        }
        match r {
            ServerResponse::MailboxData(MailboxData::MetadataSolicited { mailbox: _, values }) => {
                let mut values = values;
                res.append(&mut values);
                proof {
                    lemma_step(all, wanted, passed, i, q.skip(old_q.len() as int), q.skip(old_q.len() as int));
                }
            },
            other => {
                match try_handle_unilateral(other, unsolicited) {
                    Some(resp) => {
                        proof {
                            assert(first_unexpected_at(all, wanted, passed, i));
                            lemma_read_len_at(all, wanted, passed, i);
                        }
                        return Err(Error::Unexpected(resp));
                    },
                    None => {
                        proof {
                            lemma_skip_push(old_q, q, unsolicited@.last());
                            assert(q.push(unsolicited@.last()) == unsolicited@);
                            lemma_step(all, wanted, passed, i, q.skip(old_q.len() as int), unsolicited@.skip(old_q.len() as int));
                        }
                    },
                }
            },
        }
    }
    proof {
        assert(all.take(all.len() as int) == all);
        lemma_read_len_all(all, wanted, passed);
    }
    match tail {
        Some(b) => Err(Error::Parse(ParseError::Invalid(b))),
        None => Ok(res),
    }
}

/// The size that a `GETMETADATA` with a `MAXSIZE` reports of its largest entry left out: the
/// `METADATA LONGENTRIES` code of the tagged response, if it has one.
pub open spec fn long_entries(maxsize: Option<usize>, code: Option<StatusCode>) -> Option<u64> {
    match (maxsize, code) {
        (Some(_), Some(StatusCode::MetadataLongEntries(v))) => Some(v),
        _ => None,
    }
}

/// The depth argument of `GETMETADATA` is written as RFC 5464 writes it (`0`, `1`, `infinity`),
/// and the size of the largest entry left out is reported only where a size limit was given and
/// the tagged response carries a `METADATA LONGENTRIES` code, with that code's number.
pub proof fn lemma_metadata_texts(maxsize: Option<usize>, code: Option<StatusCode>)
    ensures
        depth_text(MetadataDepth::Zero) == "0"@,
        depth_text(MetadataDepth::One) == "1"@,
        depth_text(MetadataDepth::Infinity) == "infinity"@,
        long_entries(maxsize, code) is Some <==> (maxsize is Some && code matches Some(StatusCode::MetadataLongEntries(_))),
        long_entries(maxsize, code) is Some ==> long_entries(maxsize, code) == Some(code->Some_0->MetadataLongEntries_0),
{
}

/// Reads the reply to `GETMETADATA` ([`parse_metadata`]) given the code of its tagged `OK`
/// response: the annotations, and the size of the largest entry left out
/// ([`long_entries`]).
pub fn get_metadata_reply(
    lines: &[u8],
    code: Option<StatusCode>,
    maxsize: Option<usize>,
    unsolicited: &mut VecDeque<UnsolicitedResponse>,
) -> (res: Result<(Vec<Metadata>, Option<u64>)>)
    ensures
        read_result(res, lines@, takes_metadata(), unilateral()),
        passes_on(final(unsolicited)@, old(unsolicited)@, lines@, takes_metadata(), unilateral()),
        res matches Ok((v, missed)) ==> v@ == solicited_metadata(split_spec(lines@).0) && missed
            == long_entries(maxsize, code),
{
    let meta = match parse_metadata(lines, unsolicited) {
        Ok(m) => m,
        Err(e) => return Err(e),
    };
    let missed = match maxsize {
        Some(_) => match code {
            Some(StatusCode::MetadataLongEntries(v)) => Some(v),
            _ => None,
        },
        None => None,
    };
    Ok((meta, missed))
}

} // verus!
