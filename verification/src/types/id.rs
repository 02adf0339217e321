//! The reply to the `ID` command (RFC 2971).

use crate::utils::{push_char, push_str};
use vstd::prelude::*;

verus! {

/// Whether `b` is a space, tab, carriage return or line feed.
pub open spec fn is_space(b: u8) -> bool {
    b == 0x20 || b == 0x09 || b == 0x0d || b == 0x0a
}

/// `b` in lower case, where it is an ASCII letter.
pub open spec fn lower(b: u8) -> u8 {
    if 0x41 <= b && b <= 0x5a {
        (b + 32) as u8
    } else {
        b
    }
}

/// The position after the spaces of `s` from `i` on.
pub open spec fn skip_spaces(s: Seq<u8>, i: int) -> int
    decreases s.len() - i,
{
    if 0 <= i < s.len() && is_space(s[i]) {
        skip_spaces(s, i + 1)
    } else {
        i
    }
}

/// The position of the first double quote of `s` at or after `i`, if any.
pub open spec fn find_quote(s: Seq<u8>, i: int) -> Option<int>
    decreases s.len() - i,
{
    if i < 0 || i >= s.len() {
        None
    } else if s[i] == 0x22 {
        Some(i)
    } else {
        find_quote(s, i + 1)
    }
}

/// A quoted string at `i`: a double quote, bytes up to the next double quote, and that quote;
/// the position after it and the bytes between the quotes.
pub open spec fn quoted_at(s: Seq<u8>, i: int) -> Option<(int, Seq<u8>)> {
    if 0 <= i < s.len() && s[i] == 0x22 {
        match find_quote(s, i + 1) {
            Some(j) => Some((j + 1, s.subrange(i + 1, j))),
            None => None,
        }
    } else {
        None
    }
}

/// Whether `NIL`, in any case, stands at `i`.
pub open spec fn nil_at(s: Seq<u8>, i: int) -> bool {
    &&& 0 <= i
    &&& i + 3 <= s.len()
    &&& lower(s[i]) == 0x6e
    &&& lower(s[i + 1]) == 0x69
    &&& lower(s[i + 2]) == 0x6c
}

/// A quoted string or `NIL` at `i`: the position after it and its bytes, if any.
pub open spec fn nstring_at(s: Seq<u8>, i: int) -> Option<(int, Option<Seq<u8>>)> {
    match quoted_at(s, i) {
        Some((j, v)) => Some((j, Some(v))),
        None => if nil_at(s, i) {
            Some((i + 3, None))
        } else {
            None
        },
    }
}

/// A field at `i`: optional spaces, the name as a quoted string, at least one space, and the
/// value as a quoted string or `NIL`.
pub open spec fn pair_at(s: Seq<u8>, i: int) -> Option<(int, (Seq<u8>, Option<Seq<u8>>))> {
    match quoted_at(s, skip_spaces(s, i)) {
        None => None,
        Some((j, key)) => {
            let m = skip_spaces(s, j);
            if m == j {
                None
            } else {
                match nstring_at(s, m) {
                    None => None,
                    Some((e, v)) => Some((e, (key, v))),
                }
            }
        },
    }
}

/// The fields that follow a field that ended at `i`, each after at least one space, as far as
/// they can be read; and the position after the last of them.
pub open spec fn more_pairs(s: Seq<u8>, i: int) -> (int, Seq<(Seq<u8>, Option<Seq<u8>>)>)
    decreases s.len() - i,
{
    if i < 0 || i > s.len() {
        (i, seq![])
    } else {
        let m = skip_spaces(s, i);
        if m == i {
            (i, seq![])
        } else {
            match pair_at(s, m) {
                None => (i, seq![]),
                Some((e, p)) => if e <= i || e > s.len() {
                    (i, seq![])
                } else {
                    let (r, ps) = more_pairs(s, e);
                    (r, seq![p] + ps)
                },
            }
        }
    }
}

/// The fields of a list from `i`, separated by spaces, as far as they can be read (none if the
/// first cannot be); and the position after the last of them.
pub open spec fn pairs_at(s: Seq<u8>, i: int) -> (int, Seq<(Seq<u8>, Option<Seq<u8>>)>) {
    match pair_at(s, i) {
        None => (i, seq![]),
        Some((e, p)) => if e <= i || e > s.len() {
            (i, seq![])
        } else {
            let (r, ps) = more_pairs(s, e);
            (r, seq![p] + ps)
        },
    }
}

/// Whether `s` starts with `* ID ` in any case.
pub open spec fn id_prefix(s: Seq<u8>) -> bool {
    &&& s.len() >= 5
    &&& lower(s[0]) == 0x2a
    &&& lower(s[1]) == 0x20
    &&& lower(s[2]) == 0x69
    &&& lower(s[3]) == 0x64
    &&& lower(s[4]) == 0x20
}

/// The fields of an `ID` response: `* ID ` (in any case), then `NIL` (in any case) for no
/// fields, or a parenthesised list of fields ([`pairs_at`]); `None` where the bytes are not
/// such a response.
pub open spec fn id_fields(s: Seq<u8>) -> Option<Seq<(Seq<u8>, Option<Seq<u8>>)>> {
    if !id_prefix(s) {
        None
    } else if nil_at(s, 5) {
        Some(seq![])
    } else if 5 < s.len() && s[5] == 0x28 {
        let (r, ps) = pairs_at(s, 6);
        if 0 <= r < s.len() && s[r] == 0x29 {
            Some(ps)
        } else {
            None
        }
    } else {
        None
    }
}

/// The fields as a map, a later field of a name in place of an earlier one.
pub open spec fn fields_map(ps: Seq<(Seq<u8>, Option<Seq<u8>>)>) -> Map<Seq<u8>, Option<Seq<u8>>>
    decreases ps.len(),
{
    if ps.len() == 0 {
        Map::empty()
    } else {
        fields_map(ps.drop_last()).insert(ps.last().0, ps.last().1)
    }
}

/// The fields of an `ID` response map each name that occurs to the value of its last
/// occurrence, and hold no other name.
pub proof fn lemma_fields_map_last_wins(ps: Seq<(Seq<u8>, Option<Seq<u8>>)>)
    ensures
        forall|k: Seq<u8>| #[trigger] fields_map(ps).contains_key(k) <==> exists|i: int| 0 <= i < ps.len() && ps[i].0 == k,
        forall|i: int|
            0 <= i < ps.len() && (forall|j: int| i < j < ps.len() ==> (#[trigger] ps[j]).0 != ps[i].0) ==> fields_map(ps)[#[trigger] ps[i].0] == ps[i].1,
    decreases ps.len(),
{
    if ps.len() > 0 {
        let init = ps.drop_last();
        lemma_fields_map_last_wins(init);
        assert forall|k: Seq<u8>| #[trigger] fields_map(ps).contains_key(k) implies exists|i: int| 0 <= i < ps.len() && ps[i].0 == k by {
            if k != ps.last().0 {
                assert(fields_map(ps) == fields_map(init).insert(ps.last().0, ps.last().1));
                assert(fields_map(init).contains_key(k));
                let i = choose|i: int| 0 <= i < init.len() && init[i].0 == k;
                assert(ps[i] == init[i]);
            } else {
                assert(ps[ps.len() - 1].0 == k);
            }
        }
        assert forall|k: Seq<u8>| (exists|i: int| 0 <= i < ps.len() && ps[i].0 == k) implies #[trigger] fields_map(ps).contains_key(k) by {
            let i = choose|i: int| 0 <= i < ps.len() && ps[i].0 == k;
            assert(fields_map(ps) == fields_map(init).insert(ps.last().0, ps.last().1));
            if i < ps.len() - 1 && k != ps.last().0 {
                assert(init[i] == ps[i]);
                assert(init[i].0 == k);
                assert(fields_map(init).contains_key(k));
            }
        }
        assert forall|i: int|
            0 <= i < ps.len() && (forall|j: int| i < j < ps.len() ==> (#[trigger] ps[j]).0 != ps[i].0) implies fields_map(ps)[#[trigger] ps[i].0] == ps[i].1 by {
            if i < ps.len() - 1 {
                assert(ps[ps.len() - 1].0 != ps[i].0);
                assert(init[i] == ps[i]);
                assert forall|j: int| i < j < init.len() implies (#[trigger] init[j]).0 != init[i].0 by {
                    assert(init[j] == ps[j]);
                }
            }
        }
    }
}

/// An optional value as plain bytes.
pub open spec fn value_view(v: Option<Vec<u8>>) -> Option<Seq<u8>> {
    match v {
        Some(b) => Some(b@),
        None => None,
    }
}

/// A field as plain values.
pub open spec fn field_view(p: (Vec<u8>, Option<Vec<u8>>)) -> (Seq<u8>, Option<Seq<u8>>) {
    (p.0@, value_view(p.1))
}

/// Fields as plain values.
pub open spec fn fields_view(ps: Seq<(Vec<u8>, Option<Vec<u8>>)>) -> Seq<(Seq<u8>, Option<Seq<u8>>)> {
    ps.map_values(|p: (Vec<u8>, Option<Vec<u8>>)| field_view(p))
}

fn is_space_byte(b: u8) -> (r: bool)
    ensures
        r == is_space(b),
{
    b == 0x20 || b == 0x09 || b == 0x0d || b == 0x0a
}

pub(crate) fn lower_byte(b: u8) -> (r: u8)
    ensures
        r == lower(b),
{
    if 0x41 <= b && b <= 0x5a {
        b + 32
    } else {
        b
    }
}

fn skip_spaces_at(s: &[u8], i: usize) -> (j: usize)
    requires
        i <= s@.len(),
    ensures
        j == skip_spaces(s@, i as int),
        i <= j <= s@.len(),
{
    let mut j = i;
    while j < s.len() && is_space_byte(s[j])
        invariant
            i <= j <= s@.len(),
            skip_spaces(s@, i as int) == skip_spaces(s@, j as int),
        decreases s@.len() - j,
    {
        j = j + 1;
    }
    j
}

fn find_quote_at(s: &[u8], i: usize) -> (r: Option<usize>)
    ensures
        match r {
            Some(j) => find_quote(s@, i as int) == Some(j as int) && i <= j < s@.len(),
            None => find_quote(s@, i as int) is None,
        },
{
    let mut j = i;
    while j < s.len()
        invariant
            i <= j,
            find_quote(s@, i as int) == find_quote(s@, j as int),
        decreases s@.len() - j,
    {
        if s[j] == 0x22 {
            return Some(j);
        }
        j = j + 1;
    }
    None
}

fn quoted_string_at(s: &[u8], i: usize) -> (r: Option<(usize, Vec<u8>)>)
    ensures
        match r {
            Some((j, v)) => quoted_at(s@, i as int) == Some((j as int, v@)) && i < j <= s@.len(),
            None => quoted_at(s@, i as int) is None,
        },
{
    if i < s.len() && s[i] == 0x22 {
        match find_quote_at(s, i + 1) {
            Some(j) => {
                let v = vstd::slice::slice_to_vec(&s[i + 1..j]);
                Some((j + 1, v))
            },
            None => None,
        }
    } else {
        None
    }
}

fn nil_here(s: &[u8], i: usize) -> (r: bool)
    ensures
        r == nil_at(s@, i as int),
{
    i <= s.len() && s.len() - i >= 3 && lower_byte(s[i]) == 0x6e && lower_byte(s[i + 1]) == 0x69
        && lower_byte(s[i + 2]) == 0x6c
}

fn nstring_here(s: &[u8], i: usize) -> (r: Option<(usize, Option<Vec<u8>>)>)
    requires
        i <= s@.len(),
    ensures
        match r {
            Some((j, v)) => nstring_at(s@, i as int) == Some((j as int, value_view(v))) && i < j <= s@.len(),
            None => nstring_at(s@, i as int) is None,
        },
{
    match quoted_string_at(s, i) {
        Some((j, v)) => Some((j, Some(v))),
        None => if nil_here(s, i) {
            assert(i + 3 <= s.len());
            Some((i + 3, None))
        } else {
            None
        },
    }
}

fn pair_here(s: &[u8], i: usize) -> (r: Option<(usize, (Vec<u8>, Option<Vec<u8>>))>)
    requires
        i <= s@.len(),
    ensures
        match r {
            Some((e, p)) => pair_at(s@, i as int) == Some((e as int, field_view(p))) && i < e <= s@.len(),
            None => pair_at(s@, i as int) is None,
        },
{
    let k = skip_spaces_at(s, i);
    match quoted_string_at(s, k) {
        None => None,
        Some((j, key)) => {
            let m = skip_spaces_at(s, j);
            if m == j {
                None
            } else {
                match nstring_here(s, m) {
                    None => None,
                    Some((e, v)) => Some((e, (key, v))),
                }
            }
        },
    }
}

fn pairs_here(s: &[u8], i: usize) -> (r: (usize, Vec<(Vec<u8>, Option<Vec<u8>>)>))
    requires
        i <= s@.len(),
    ensures
        pairs_at(s@, i as int) == (r.0 as int, fields_view(r.1@)),
{
    let mut acc: Vec<(Vec<u8>, Option<Vec<u8>>)> = Vec::new();
    let (mut cur, first) = match pair_here(s, i) {
        None => {
            assert(fields_view(acc@) =~= Seq::<(Seq<u8>, Option<Seq<u8>>)>::empty());
            return (i, acc);
        },
        Some((e, p)) => (e, p),
    };
    acc.push(first);
    proof {
        assert(fields_view(acc@) =~= seq![field_view(first)]);
    }
    loop
        invariant
            i < cur <= s@.len(),
            pairs_at(s@, i as int) == (more_pairs(s@, cur as int).0, fields_view(acc@) + more_pairs(s@, cur as int).1),
        decreases s@.len() - cur,
    {
        let m = skip_spaces_at(s, cur);
        if m == cur {
            assert(fields_view(acc@) + seq![] =~= fields_view(acc@));
            return (cur, acc);
        }
        match pair_here(s, m) {
            None => {
                assert(fields_view(acc@) + seq![] =~= fields_view(acc@));
                return (cur, acc);
            },
            Some((e, p)) => {
                let ghost before = acc@;
                acc.push(p);
                proof {
                    assert(fields_view(acc@) =~= fields_view(before) + seq![field_view(p)]);
                    assert(fields_view(acc@) + more_pairs(s@, e as int).1 =~= fields_view(before) + (seq![field_view(p)] + more_pairs(s@, e as int).1));
                }
                cur = e;
            },
        }
    }
}

/// The fields of an `ID` response, read from its bytes ([`id_fields`]).
fn id_fields_of(s: &[u8]) -> (r: Option<Vec<(Vec<u8>, Option<Vec<u8>>)>>)
    ensures
        match r {
            Some(ps) => id_fields(s@) == Some(fields_view(ps@)),
            None => id_fields(s@) is None,
        },
{
    if !(s.len() >= 5 && lower_byte(s[0]) == 0x2a && lower_byte(s[1]) == 0x20 && lower_byte(s[2])
        == 0x69 && lower_byte(s[3]) == 0x64 && lower_byte(s[4]) == 0x20) {
        return None;
    }
    if nil_here(s, 5) {
        let v: Vec<(Vec<u8>, Option<Vec<u8>>)> = Vec::new();
        assert(fields_view(v@) =~= Seq::<(Seq<u8>, Option<Seq<u8>>)>::empty());
        return Some(v);
    }
    if 5 < s.len() && s[5] == 0x28 {
        let (r, ps) = pairs_here(s, 6);
        if r < s.len() && s[r] == 0x29 {
            Some(ps)
        } else {
            None
        }
    } else {
        None
    }
}

/// Whether two byte strings are equal.
fn bytes_eq(a: &[u8], b: &[u8]) -> (r: bool)
    ensures
        r == (a@ == b@),
{
    if a.len() != b.len() {
        return false;
    }
    let mut i: usize = 0;
    while i < a.len()
        invariant
            i <= a@.len(),
            a@.len() == b@.len(),
            forall|j: int| 0 <= j < i ==> a@[j] == b@[j],
        decreases a@.len() - i,
    {
        if a[i] != b[i] {
            assert(a@[i as int] != b@[i as int]);
            return false;
        }
        i = i + 1;
    }
    assert(a@ =~= b@);
    true
}

/// The position of the field named `key` among `fields`, if there is one.
fn find_field(fields: &Vec<(Vec<u8>, Option<Vec<u8>>)>, key: &[u8]) -> (r: Option<usize>)
    ensures
        match r {
            Some(i) => i < fields@.len() && fields@[i as int].0@ == key@,
            None => forall|j: int| 0 <= j < fields@.len() ==> #[trigger] fields@[j].0@ != key@,
        },
{
    let mut i: usize = 0;
    while i < fields.len()
        invariant
            i <= fields@.len(),
            forall|j: int| 0 <= j < i ==> #[trigger] fields@[j].0@ != key@,
        decreases fields@.len() - i,
    {
        if bytes_eq(fields[i].0.as_slice(), key) {
            return Some(i);
        }
        i = i + 1;
    }
    None
}

/// The text of bytes, as `String::from_utf8_lossy` reads it.
pub uninterp spec fn lossy_text(bytes: Seq<u8>) -> Seq<char>;

/// Reads bytes as UTF-8 text with `String::from_utf8_lossy`, which puts U+FFFD in place of each
/// invalid sequence. The contract claims that the text depends on the bytes alone, and that
/// bytes that are valid UTF-8 give the text they encode; which text invalid bytes give is not
/// stated.
#[verifier::external_body]
fn text_of_bytes(bytes: &[u8]) -> (s: String)
    ensures
        s@ == lossy_text(bytes@),
        vstd::utf8::valid_utf8(bytes@) ==> s@ == vstd::utf8::decode_utf8(bytes@),
{
    String::from_utf8_lossy(bytes).into_owned()
}

/// From [ID Response](https://datatracker.ietf.org/doc/html/rfc2971#section-3.2)
///
/// The fields of an `ID` response, each name once.
#[derive(Debug)]
pub struct IdResponse {
    fields: Vec<(Vec<u8>, Option<Vec<u8>>)>,
}

impl View for IdResponse {
    type V = Map<Seq<u8>, Option<Seq<u8>>>;

    closed spec fn view(&self) -> Map<Seq<u8>, Option<Seq<u8>>> {
        fields_map(fields_view(self.fields@))
    }
}

/// Whether the names of the fields `ps` differ from each other.
pub open spec fn names_differ(ps: Seq<(Seq<u8>, Option<Seq<u8>>)>) -> bool {
    forall|i: int, j: int| 0 <= i < j < ps.len() ==> (#[trigger] ps[i]).0 != (#[trigger] ps[j]).0
}

/// Where the names of the fields differ, the map has one entry for each field.
proof fn lemma_fields_map_distinct(ps: Seq<(Seq<u8>, Option<Seq<u8>>)>)
    requires
        names_differ(ps),
    ensures
        fields_map(ps).dom().finite(),
        fields_map(ps).dom().len() == ps.len(),
        forall|i: int| 0 <= i < ps.len() ==> #[trigger] fields_map(ps).contains_key(ps[i].0) && fields_map(ps)[ps[i].0] == ps[i].1,
        forall|k: Seq<u8>| #[trigger] fields_map(ps).contains_key(k) ==> exists|i: int| 0 <= i < ps.len() && ps[i].0 == k,
    decreases ps.len(),
{
    if ps.len() > 0 {
        let init = ps.drop_last();
        assert forall|i: int, j: int| 0 <= i < j < init.len() implies (#[trigger] init[i]).0 != (#[trigger] init[j]).0 by {
            assert(init[i] == ps[i] && init[j] == ps[j]);
        }
        lemma_fields_map_distinct(init);
        assert(!fields_map(init).contains_key(ps.last().0)) by {
            if fields_map(init).contains_key(ps.last().0) {
                let i = choose|i: int| 0 <= i < init.len() && init[i].0 == ps.last().0;
                assert(ps[i].0 != ps[ps.len() - 1].0);
            }
        }
        assert forall|i: int| 0 <= i < ps.len() implies #[trigger] fields_map(ps).contains_key(ps[i].0) && fields_map(ps)[ps[i].0] == ps[i].1 by {
            if i < ps.len() - 1 {
                assert(init[i] == ps[i]);
                assert(ps[i].0 != ps[ps.len() - 1].0);
            }
        }
        assert forall|k: Seq<u8>| #[trigger] fields_map(ps).contains_key(k) implies exists|i: int| 0 <= i < ps.len() && ps[i].0 == k by {
            if k != ps.last().0 {
                assert(fields_map(ps) == fields_map(init).insert(ps.last().0, ps.last().1));
                assert(fields_map(init).contains_key(k));
                let i = choose|i: int| 0 <= i < init.len() && init[i].0 == k;
                assert(ps[i] == init[i]);
            } else {
                assert(ps[ps.len() - 1].0 == k);
            }
        }
    }
}

impl IdResponse {
    /// The names of the fields differ from each other.
    #[verifier::type_invariant]
    closed spec fn names_once(&self) -> bool {
        names_differ(fields_view(self.fields@))
    }

    /// Parse from the server raw response: the fields of an `ID` response ([`id_fields`]), a
    /// later field of a name in place of an earlier one; no fields where the bytes are not an
    /// `ID` response.
    pub fn parse(data: &[u8]) -> (r: IdResponse)
        ensures
            r@ == match id_fields(data@) {
                Some(ps) => fields_map(ps),
                None => Map::empty(),
            },
    {
        let pairs = match id_fields_of(data) {
            Some(ps) => ps,
            None => {
                let r = IdResponse { fields: Vec::new() };
                assert(fields_view(r.fields@) =~= Seq::<(Seq<u8>, Option<Seq<u8>>)>::empty());
                return r;
            },
        };
        let ghost all = fields_view(pairs@);
        let mut fields: Vec<(Vec<u8>, Option<Vec<u8>>)> = Vec::new();
        proof {
            assert(fields_view(fields@) =~= Seq::<(Seq<u8>, Option<Seq<u8>>)>::empty());
            assert(all.take(0) =~= Seq::<(Seq<u8>, Option<Seq<u8>>)>::empty());
        }
        for p in it: pairs
            invariant
                fields_view(it.seq()) == all,
                names_differ(fields_view(fields@)),
                fields_map(fields_view(fields@)) == fields_map(all.take(it.index() as int)),
        {
            let ghost k = it.index() as int;
            proof {
                assert(all.take(k + 1).drop_last() == all.take(k));
                assert(all[k] == field_view(p));
                assert(all.take(k + 1).last() == field_view(p));
                lemma_fields_map_distinct(fields_view(fields@));
            }
            let found = find_field(&fields, p.0.as_slice());
            let ghost fv = field_view(p);
            let ghost before_vec = fields@;
            let ghost before = fields_view(fields@);
            if let Some(i) = found {
                let (key, value) = p;
                let old_key = fields[i].0.clone();
                fields.set(i, (old_key, value));
                proof {
                    let now = fields_view(fields@);
                    assert(now == before.update(i as int, (before[i as int].0, value_view(value))));
                    assert forall|a: int, b: int| 0 <= a < b < now.len() implies (#[trigger] now[a]).0 != (#[trigger] now[b]).0 by {
                        assert(now[a].0 == before[a].0 && now[b].0 == before[b].0);
                    }
                    lemma_fields_map_distinct(now);
                    assert(fv == (key@, value_view(value)));
                    assert(fields_map(now) =~= fields_map(before).insert(key@, value_view(value))) by {
                        assert forall|q: Seq<u8>| #[trigger] fields_map(now).contains_key(q) <==> fields_map(before).insert(key@, value_view(value)).contains_key(q) by {
                            if fields_map(now).contains_key(q) {
                                let a = choose|a: int| 0 <= a < now.len() && now[a].0 == q;
                                assert(now[a].0 == before[a].0);
                            }
                            if fields_map(before).contains_key(q) {
                                let a = choose|a: int| 0 <= a < before.len() && before[a].0 == q;
                                assert(now[a].0 == before[a].0);
                            }
                        }
                        assert forall|q: Seq<u8>| #[trigger] fields_map(now).contains_key(q) implies fields_map(now)[q] == fields_map(before).insert(key@, value_view(value))[q] by {
                            let a = choose|a: int| 0 <= a < now.len() && now[a].0 == q;
                            if a != i {
                                assert(now[a] == before[a]);
                            }
                        }
                    }
                }
            } else {
                fields.push(p);
                proof {
                    let now = fields_view(fields@);
                    assert(now == before.push(field_view(p)));
                    assert(now.drop_last() == before);
                    assert forall|a: int, b: int| 0 <= a < b < now.len() implies (#[trigger] now[a]).0 != (#[trigger] now[b]).0 by {
                        if b == now.len() - 1 {
                            assert(now[a] == before[a]);
                            assert(before_vec[a].0@ != p.0@);
                        } else {
                            assert(now[a] == before[a] && now[b] == before[b]);
                        }
                    }
                }
            }
        }
        proof {
            assert(all.take(all.len() as int) == all);
        }
        IdResponse { fields }
    }

    /// Get field as UTF-8: the text of the value of the field named `key`, if it has one.
    pub fn get(&self, key: &[u8]) -> (v: Option<String>)
        ensures
            match v {
                Some(t) => self@.contains_key(key@) && (self@[key@] matches Some(b) && t@ == lossy_text(b)
                    && (vstd::utf8::valid_utf8(b) ==> t@ == vstd::utf8::decode_utf8(b))),
                None => !self@.contains_key(key@) || self@[key@] is None,
            },
    {
        proof {
            use_type_invariant(self);
            lemma_fields_map_distinct(fields_view(self.fields@));
        }
        match find_field(&self.fields, key) {
            Some(i) => {
                proof {
                    let ps = fields_view(self.fields@);
                    assert(ps[i as int].0 == key@);
                    assert(fields_map(ps).contains_key(ps[i as int].0));
                    assert(ps[i as int].1 == value_view(self.fields@[i as int].1));
                }
                match &self.fields[i].1 {
                    Some(b) => Some(text_of_bytes(b.as_slice())),
                    None => None,
                }
            },
            None => {
                proof {
                    if self@.contains_key(key@) {
                        let a = choose|a: int| 0 <= a < fields_view(self.fields@).len() && fields_view(self.fields@)[a].0 == key@;
                        assert(self.fields@[a].0@ != key@);
                    }
                }
                None
            },
        }
    }

    /// Field length: the number of fields.
    pub fn len(&self) -> (n: usize)
        ensures
            n == self@.dom().len(),
    {
        proof {
            use_type_invariant(self);
            lemma_fields_map_distinct(fields_view(self.fields@));
        }
        self.fields.len()
    }

    /// The fields of this response, in the order in which they were first read.
    pub closed spec fn entries(&self) -> Seq<(Seq<u8>, Option<Seq<u8>>)> {
        fields_view(self.fields@)
    }

    /// The fields as text: for each field, its name, `=`, its value as text between double
    /// quotes or `NIL`, and `; `, in the order of [`IdResponse::entries`].
    pub fn to_string(&self) -> (s: String)
        ensures
            s@ == fields_text(self.entries()),
            fields_map(self.entries()) == self@,
    {
        let mut s = String::new();
        let mut i: usize = 0;
        while i < self.fields.len()
            invariant
                i <= self.fields@.len(),
                s@ == fields_text(fields_view(self.fields@).take(i as int)),
            decreases self.fields@.len() - i,
        {
            proof {
                assert(fields_view(self.fields@).take(i + 1).drop_last() == fields_view(self.fields@).take(i as int));
                assert(fields_view(self.fields@).take(i + 1).last() == field_view(self.fields@[i as int]));
            }
            let k = text_of_bytes(self.fields[i].0.as_slice());
            push_str(&mut s, k.as_str());
            push_char(&mut s, '=');
            match &self.fields[i].1 {
                Some(v) => {
                    let t = text_of_bytes(v.as_slice());
                    push_char(&mut s, '"');
                    push_str(&mut s, t.as_str());
                    push_char(&mut s, '"');
                },
                None => {
                    push_str(&mut s, "NIL");
                },
            }
            push_str(&mut s, "; ");
            i = i + 1;
        }
        proof {
            assert(fields_view(self.fields@).take(self.fields@.len() as int) == fields_view(self.fields@));
        }
        s
    }
}

/// The text of fields, as [`IdResponse::to_string`] writes them.
pub open spec fn fields_text(ps: Seq<(Seq<u8>, Option<Seq<u8>>)>) -> Seq<char>
    decreases ps.len(),
{
    if ps.len() == 0 {
        seq![]
    } else {
        fields_text(ps.drop_last()) + lossy_text(ps.last().0) + seq!['='] + match ps.last().1 {
            Some(v) => seq!['"'] + lossy_text(v) + seq!['"'],
            None => "NIL"@,
        } + "; "@
    }
}

impl Clone for IdResponse {
    fn clone(&self) -> (c: Self)
        ensures
            c@ == self@,
            c.entries() == self.entries(),
    {
        proof {
            use_type_invariant(self);
        }
        let mut fields: Vec<(Vec<u8>, Option<Vec<u8>>)> = Vec::new();
        let mut i: usize = 0;
        while i < self.fields.len()
            invariant
                i <= self.fields@.len(),
                fields_view(fields@) == fields_view(self.fields@).take(i as int),
            decreases self.fields@.len() - i,
        {
            let (k, v) = &self.fields[i];
            let k2 = vstd::slice::slice_to_vec(k.as_slice());
            let v2 = match v {
                Some(b) => Some(vstd::slice::slice_to_vec(b.as_slice())),
                None => None,
            };
            let ghost before = fields_view(fields@);
            fields.push((k2, v2));
            proof {
                assert(fields_view(fields@) == before.push(field_view((k2, v2))));
                assert(fields_view(self.fields@).take(i + 1) == fields_view(self.fields@).take(i as int).push(field_view(self.fields@[i as int])));
            }
            i = i + 1;
        }
        proof {
            assert(fields_view(self.fields@).take(self.fields@.len() as int) == fields_view(self.fields@));
        }
        IdResponse { fields }
    }
}

} // verus!
