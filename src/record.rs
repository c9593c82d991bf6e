//! The internal representation of a record, and its restoration to text.
//!
//! Internally a record is its fields joined by the unit separator, stored
//! verbatim. Restoring splits on the unit separator again and joins the
//! fields with a target delimiter, wrapping in quotes exactly the fields that
//! contain a quote or the target delimiter. Embedded quotes are not doubled.
use vstd::prelude::*;
use crate::fields::{split, split_fields, texts, QUOTE};
use crate::text::{append_chars, chars_of, string_from_chars};

verus! {

/// The private separator of the internal representation.
pub const UNIT_SEPARATOR: char = '\x1f';

/// The fields joined by `sep`: no separator before the first field nor after
/// the last, none at all for an empty sequence.
pub open spec fn join_spec(fields: Seq<Seq<char>>, sep: char) -> Seq<char>
    decreases fields.len(),
{
    if fields.len() == 0 {
        Seq::empty()
    } else if fields.len() == 1 {
        fields[0]
    } else {
        join_spec(fields.drop_last(), sep) + seq![sep] + fields.last()
    }
}

/// `s` cut at every occurrence of `c`: one piece more than `s` holds `c`,
/// empty pieces included.
pub open spec fn split_on(s: Seq<char>, c: char) -> Seq<Seq<char>>
    decreases s.len(),
{
    if s.len() == 0 {
        seq![Seq::empty()]
    } else {
        let prev = split_on(s.drop_last(), c);
        if s.last() == c {
            prev.push(Seq::empty())
        } else {
            prev.update(prev.len() - 1, prev.last().push(s.last()))
        }
    }
}

/// The internal representation of a sequence of fields.
pub open spec fn encode_spec(fields: Seq<Seq<char>>) -> Seq<char> {
    join_spec(fields, UNIT_SEPARATOR)
}

/// The fields held by an internal representation.
pub open spec fn decode_spec(s: Seq<char>) -> Seq<Seq<char>> {
    split_on(s, UNIT_SEPARATOR)
}

/// A field must be quoted under target delimiter `sep` when it contains the
/// quote character or `sep`.
pub open spec fn needs_quote_spec(f: Seq<char>, sep: char) -> bool {
    f.contains(QUOTE) || f.contains(sep)
}

/// A field as written under target delimiter `sep`.
pub open spec fn quote_field(f: Seq<char>, sep: char) -> Seq<char> {
    if needs_quote_spec(f, sep) {
        seq![QUOTE] + f + seq![QUOTE]
    } else {
        f
    }
}

/// The fields written with minimal quoting and joined by `sep`.
pub open spec fn render_spec(fields: Seq<Seq<char>>, sep: char) -> Seq<char> {
    join_spec(fields.map_values(|f: Seq<char>| quote_field(f, sep)), sep)
}

/// An internal representation restored to text under target delimiter `sep`.
pub open spec fn restore_spec(s: Seq<char>, sep: char) -> Seq<char> {
    render_spec(decode_spec(s), sep)
}

/// Joins `fields` with `sep`, without quoting.
pub fn join(fields: &Vec<String>, sep: char) -> (r: String)
    ensures
        r@ == join_spec(texts(fields@), sep),
{
    let mut out: Vec<char> = Vec::new();
    let ghost t = texts(fields@);
    for i in 0..fields.len()
        invariant
            t == texts(fields@),
            out@ == join_spec(t.take(i as int), sep),
    {
        let f = chars_of(fields[i].as_str());
        assert(t.take(i + 1).drop_last() =~= t.take(i as int));
        if i > 0 {
            out.push(sep);
        }
        append_chars(&mut out, &f);
    }
    assert(t.take(fields.len() as int) =~= t);
    string_from_chars(&out)
}

/// The internal representation of `fields`: joined by the unit separator,
/// stored verbatim.
pub fn encode(fields: &Vec<String>) -> (r: String)
    ensures
        r@ == encode_spec(texts(fields@)),
{
    join(fields, UNIT_SEPARATOR)
}

/// The fields of an internal representation: `internal` cut at every unit
/// separator.
pub fn decode(internal: &str) -> (r: Vec<String>)
    ensures
        texts(r@) == decode_spec(internal@),
{
    let s = chars_of(internal);
    let mut out: Vec<String> = Vec::new();
    let mut cur: Vec<char> = Vec::new();
    assert(s@.take(0) =~= Seq::<char>::empty());
    assert(texts(out@).push(cur@) =~= seq![Seq::<char>::empty()]);
    for i in 0..s.len()
        invariant
            split_on(s@.take(i as int), UNIT_SEPARATOR) == texts(out@).push(cur@),
    {
        let c = s[i];
        assert(s@.take(i + 1).drop_last() =~= s@.take(i as int));
        if c == UNIT_SEPARATOR {
            let piece = string_from_chars(&cur);
            let ghost prev = texts(out@);
            out.push(piece);
            cur = Vec::new();
            assert(texts(out@) =~= prev.push(piece@));
            assert(texts(out@).push(cur@) =~= prev.push(piece@).push(Seq::empty()));
        } else {
            let ghost prev = texts(out@);
            let ghost before = cur@;
            cur.push(c);
            assert(texts(out@).push(cur@) =~= prev.push(before).update(prev.len() as int,
                before.push(c)));
        }
    }
    assert(s@.take(s.len() as int) =~= s@);
    let ghost prev = texts(out@);
    let last = string_from_chars(&cur);
    out.push(last);
    assert(texts(out@) =~= prev.push(cur@));
    out
}

/// Whether the field `f` must be quoted under target delimiter `sep`.
fn needs_quote(f: &Vec<char>, sep: char) -> (r: bool)
    ensures
        r == needs_quote_spec(f@, sep),
{
    let mut found = false;
    for i in 0..f.len()
        invariant
            found == (f@.take(i as int).contains(QUOTE) || f@.take(i as int).contains(sep)),
    {
        let c = f[i];
        assert(f@.take(i + 1) =~= f@.take(i as int).push(c));
        if c == QUOTE || c == sep {
            assert(f@.take(i + 1)[i as int] == c);
            found = true;
        }
    }
    assert(f@.take(f.len() as int) =~= f@);
    found
}

/// The field as written under target delimiter `sep`: wrapped in quotes when
/// it contains a quote or `sep`, else unchanged.
fn requote(field: &String, sep: char) -> (r: String)
    ensures
        r@ == quote_field(field@, sep),
{
    let f = chars_of(field.as_str());
    if needs_quote(&f, sep) {
        let mut out: Vec<char> = Vec::new();
        out.push(QUOTE);
        append_chars(&mut out, &f);
        out.push(QUOTE);
        assert(out@ =~= seq![QUOTE] + f@ + seq![QUOTE]);
        string_from_chars(&out)
    } else {
        string_from_chars(&f)
    }
}

/// Writes `fields` with minimal quoting, joined by `sep`.
pub fn render(fields: &Vec<String>, sep: char) -> (r: String)
    ensures
        r@ == render_spec(texts(fields@), sep),
{
    let mut quoted: Vec<String> = Vec::new();
    for i in 0..fields.len()
        invariant
            texts(quoted@) =~= texts(fields@).take(i as int).map_values(
                |f: Seq<char>| quote_field(f, sep),
            ),
    {
        let q = requote(&fields[i], sep);
        let ghost prev = quoted@;
        quoted.push(q);
        assert(texts(quoted@) =~= texts(prev).push(q@));
        assert(texts(fields@).take(i + 1) =~= texts(fields@).take(i as int).push(fields@[i as int]@));
    }
    assert(texts(fields@).take(fields.len() as int) =~= texts(fields@));
    join(&quoted, sep)
}

/// Restores the internal representation `raw` to text under target
/// delimiter `sep`.
pub fn restore_record(raw: &String, sep: char) -> (r: String)
    ensures
        r@ == restore_spec(raw@, sep),
{
    render(&decode(raw.as_str()), sep)
}

/// The internal representation of the record `raw` split under `sep`.
pub fn parse_record(raw: &str, sep: char) -> (r: String)
    ensures
        r@ == encode_spec(split_fields(raw@, sep)),
{
    encode(&split(raw, sep))
}

} // verus!
