//! Quote-aware splitting of one raw record into its logical fields.
//!
//! Inside a field the scanner is either unquoted or quoted. A delimiter ends
//! the field only while unquoted. A lone quote toggles the state and is never
//! kept. Two quotes in a row are an escaped pair: while quoted they give one
//! literal quote, while unquoted they give nothing (an empty quoted span).
//! Three quotes in a row, met while unquoted, enter the quoted state and leave
//! the following two quotes to be read as an escaped pair.
use vstd::prelude::*;
use crate::text::{chars_of, string_from_chars};

verus! {

/// The quote character of the dialect.
pub const QUOTE: char = '"';

/// Adds `c` in front of the content of a scan result.
pub open spec fn prepend(c: char, r: (Seq<char>, int, bool)) -> (Seq<char>, int, bool) {
    (seq![c] + r.0, r.1, r.2)
}

/// Scans one field of `s` from position `i`, in the given quoting state.
/// The result is the field's content, the position where the next field
/// starts, and whether the field was ended by a delimiter (rather than by the
/// end of the record).
pub open spec fn scan(s: Seq<char>, sep: char, i: int, quoted: bool) -> (Seq<char>, int, bool)
    decreases s.len() - i,
{
    if i < 0 || i >= s.len() {
        (Seq::empty(), s.len() as int, false)
    } else if s[i] == sep {
        if quoted {
            prepend(sep, scan(s, sep, i + 1, quoted))
        } else {
            (Seq::empty(), i + 1, true)
        }
    } else if s[i] == QUOTE {
        if i + 1 < s.len() && s[i + 1] == QUOTE {
            if !quoted && i + 2 < s.len() && s[i + 2] == QUOTE {
                scan(s, sep, i + 1, true)
            } else if quoted {
                prepend(QUOTE, scan(s, sep, i + 2, quoted))
            } else {
                scan(s, sep, i + 2, quoted)
            }
        } else {
            scan(s, sep, i + 1, !quoted)
        }
    } else {
        prepend(s[i], scan(s, sep, i + 1, quoted))
    }
}

/// The fields of `s` from position `i` on: the field that starts there, then,
/// if a delimiter ended it, the fields after that delimiter.
pub open spec fn fields_from(s: Seq<char>, sep: char, i: int) -> Seq<Seq<char>>
    decreases s.len() - i,
{
    let r = scan(s, sep, i, false);
    if r.2 && i < r.1 <= s.len() {
        seq![r.0] + fields_from(s, sep, r.1)
    } else {
        seq![r.0]
    }
}

/// The logical fields of the record `s` under delimiter `sep`.
pub open spec fn split_fields(s: Seq<char>, sep: char) -> Seq<Seq<char>> {
    fields_from(s, sep, 0)
}

/// The contents of a sequence of strings.
pub open spec fn texts(v: Seq<String>) -> Seq<Seq<char>> {
    v.map_values(|f: String| f@)
}

/// Scans one field of `record` from `start`; see [`scan`].
fn scan_field(record: &Vec<char>, sep: char, start: usize) -> (r: (Vec<char>, usize, bool))
    requires
        start <= record.len(),
    ensures
        (r.0@, r.1 as int, r.2) == scan(record@, sep, start as int, false),
        start <= r.1 <= record.len(),
        r.2 ==> start < r.1,
{
    let mut acc: Vec<char> = Vec::new();
    let mut quoted = false;
    let mut i: usize = start;
    let len = record.len();
    while i < len
        invariant
            start <= i <= len,
            len == record.len(),
            scan(record@, sep, start as int, false) == (acc@ + scan(record@, sep, i as int, quoted).0,
                scan(record@, sep, i as int, quoted).1, scan(record@, sep, i as int, quoted).2),
        decreases len - i,
    {
        let c = record[i];
        let ghost before = acc@;
        if c == sep {
            if quoted {
                acc.push(c);
                i = i + 1;
                assert(before + seq![c] + scan(record@, sep, i as int, quoted).0 == before + (seq![c]
                    + scan(record@, sep, i as int, quoted).0));
            } else {
                return (acc, i + 1, true);
            }
        } else if c == QUOTE {
            if i + 1 < len && record[i + 1] == QUOTE {
                if !quoted && i + 2 < len && record[i + 2] == QUOTE {
                    quoted = true;
                    i = i + 1;
                } else if quoted {
                    acc.push(QUOTE);
                    i = i + 2;
                    assert(before + seq![QUOTE] + scan(record@, sep, i as int, quoted).0 == before
                        + (seq![QUOTE] + scan(record@, sep, i as int, quoted).0));
                } else {
                    i = i + 2;
                }
            } else {
                quoted = !quoted;
                i = i + 1;
            }
        } else {
            acc.push(c);
            i = i + 1;
            assert(before + seq![c] + scan(record@, sep, i as int, quoted).0 == before + (seq![c]
                + scan(record@, sep, i as int, quoted).0));
        }
    }
    assert(acc@ + Seq::<char>::empty() == acc@);
    (acc, len, false)
}

/// Hands out the fields of one record, one per call, in order. A record
/// yields one field more than it has delimiters outside quotes: an empty
/// record yields one empty field, and a record ending in a delimiter yields a
/// trailing empty field.
pub struct FieldIterator {
    record: Vec<char>,
    pos: usize,
    sep: char,
    done: bool,
}

impl FieldIterator {
    /// The iterator's state is consistent.
    pub closed spec fn wf(&self) -> bool {
        self.pos <= self.record.len()
    }

    /// The fields that this iterator has yet to hand out.
    pub closed spec fn remaining(&self) -> Seq<Seq<char>> {
        if self.done {
            Seq::empty()
        } else {
            fields_from(self.record@, self.sep, self.pos as int)
        }
    }

    /// Starts splitting `raw` on `sep`.
    pub fn new(raw: &str, sep: char) -> (r: Self)
        ensures
            r.wf(),
            r.remaining() == split_fields(raw@, sep),
    {
        FieldIterator { record: chars_of(raw), pos: 0, sep, done: false }
    }

    /// The next field, or `None` once every field has been handed out.
    pub fn next(&mut self) -> (r: Option<String>)
        requires
            old(self).wf(),
        ensures
            final(self).wf(),
            old(self).remaining().len() == 0 ==> r is None && final(self).remaining().len() == 0,
            old(self).remaining().len() > 0 ==> r is Some && r->0@ == old(self).remaining()[0]
                && final(self).remaining() == old(self).remaining().drop_first(),
    {
        if self.done {
            return None;
        }
        let (field, end, by_sep) = scan_field(&self.record, self.sep, self.pos);
        let ghost rest = fields_from(self.record@, self.sep, self.pos as int);
        self.pos = end;
        if !by_sep {
            self.done = true;
        }
        proof {
            if by_sep {
                assert(rest.drop_first() =~= fields_from(self.record@, self.sep, end as int));
            } else {
                assert(rest.drop_first() =~= Seq::<Seq<char>>::empty());
            }
        }
        Some(string_from_chars(&field))
    }
}

/// Splits the record `raw` into its logical fields under delimiter `sep`.
pub fn split(raw: &str, sep: char) -> (r: Vec<String>)
    ensures
        texts(r@) == split_fields(raw@, sep),
{
    let mut it = FieldIterator::new(raw, sep);
    let mut out: Vec<String> = Vec::new();
    loop
        invariant
            it.wf(),
            texts(out@) + it.remaining() == split_fields(raw@, sep),
        decreases it.remaining().len(),
    {
        let ghost before = it.remaining();
        match it.next() {
            Some(f) => {
                let ghost prev = out@;
                out.push(f);
                assert(texts(out@) =~= texts(prev).push(before[0]));
                assert(texts(out@) + it.remaining() =~= texts(prev) + before);
            },
            None => {
                assert(texts(out@) + it.remaining() =~= texts(out@));
                return out;
            },
        }
    }
}

} // verus!
