//! The row pipeline: the header is split, title-cased and written with the
//! output delimiter; each data row is split and encoded, the encoded rows are
//! sorted by their text, and each is restored with the output delimiter.
use vstd::prelude::*;
use vstd::multiset::Multiset;
use crate::fields::{split, split_fields, texts};
use crate::record::{encode_spec, parse_record, render, render_spec, restore_record, restore_spec};
use crate::text::chars_of;
use crate::title::{title_spec, to_title};

verus! {

broadcast use vstd::seq_lib::group_to_multiset_ensures;

/// The fixed delimiter of the output.
pub const OUTPUT_DELIMITER: char = ';';

/// The delimiter of an input whose header line is `header`: tab when the
/// header holds one, else comma.
pub open spec fn delimiter_of(header: Seq<char>) -> char {
    if header.contains('\t') {
        '\t'
    } else {
        ','
    }
}

/// `a` comes no later than `b` in character-code order: `a` is a prefix of
/// `b`, or at the first position where they differ `a` has the smaller code.
pub open spec fn lex_le(a: Seq<char>, b: Seq<char>) -> bool
    decreases a.len(),
{
    if a.len() == 0 {
        true
    } else if b.len() == 0 {
        false
    } else if a[0] != b[0] {
        a[0] < b[0]
    } else {
        lex_le(a.drop_first(), b.drop_first())
    }
}

/// Each text comes no later than every text after it.
pub open spec fn sorted(t: Seq<Seq<char>>) -> bool {
    forall|i: int, j: int| 0 <= i < j < t.len() ==> lex_le(#[trigger] t[i], #[trigger] t[j])
}

/// The internal representation of each data row under delimiter `sep`.
pub open spec fn encoded_rows(rows: Seq<Seq<char>>, sep: char) -> Seq<Seq<char>> {
    rows.map_values(|row: Seq<char>| encode_spec(split_fields(row, sep)))
}

/// The header line: its fields title-cased and written with the output
/// delimiter.
pub open spec fn header_spec(header: Seq<char>, sep: char) -> Seq<char> {
    render_spec(split_fields(header, sep).map_values(|f: Seq<char>| title_spec(f)), OUTPUT_DELIMITER)
}

/// Any two texts are ordered one way or the other.
pub proof fn lemma_lex_total(a: Seq<char>, b: Seq<char>)
    ensures
        lex_le(a, b) || lex_le(b, a),
    decreases a.len(),
{
    if a.len() > 0 && b.len() > 0 && a[0] == b[0] {
        lemma_lex_total(a.drop_first(), b.drop_first());
    }
}

/// The order is transitive.
pub proof fn lemma_lex_transitive(a: Seq<char>, b: Seq<char>, c: Seq<char>)
    requires
        lex_le(a, b),
        lex_le(b, c),
    ensures
        lex_le(a, c),
    decreases a.len(),
{
    if a.len() > 0 && b.len() > 0 && c.len() > 0 && a[0] == b[0] && b[0] == c[0] {
        lemma_lex_transitive(a.drop_first(), b.drop_first(), c.drop_first());
    }
}

/// Inserting at a place where everything before is no later and the next
/// text is no earlier keeps a sorted sequence sorted.
proof fn lemma_insert_sorted(t: Seq<Seq<char>>, j: int, x: Seq<char>)
    requires
        sorted(t),
        0 <= j <= t.len(),
        forall|k: int| 0 <= k < j ==> lex_le(#[trigger] t[k], x),
        j < t.len() ==> lex_le(x, t[j]),
    ensures
        sorted(t.insert(j, x)),
{
    let u = t.insert(j, x);
    t.insert_ensures(j, x);
    assert forall|a: int, b: int| 0 <= a < b < u.len() implies lex_le(#[trigger] u[a], #[trigger] u[b]) by {
        if b < j {
            assert(u[a] == t[a] && u[b] == t[b]);
        } else if b == j {
            assert(u[a] == t[a]);
        } else if a == j {
            assert(u[b] == t[b - 1]);
            if b - 1 > j {
                lemma_lex_transitive(x, t[j], t[b - 1]);
            }
        } else if a < j {
            assert(u[a] == t[a] && u[b] == t[b - 1]);
        } else {
            assert(u[a] == t[a - 1] && u[b] == t[b - 1]);
        }
    }
}

/// Inserting one element anywhere adds it to the multiset.
proof fn lemma_insert_multiset(t: Seq<Seq<char>>, j: int, x: Seq<char>)
    requires
        0 <= j <= t.len(),
    ensures
        t.insert(j, x).to_multiset() == t.to_multiset().insert(x),
{
    let u = t.insert(j, x);
    t.insert_ensures(j, x);
    assert(u.remove(j) =~= t);
    assert(u.contains(x)) by {
        assert(u[j] == x);
    }
    assert(u.to_multiset().remove(x) == t.to_multiset());
    assert(u.to_multiset() =~= t.to_multiset().insert(x));
}

/// The delimiter of an input whose header line is `header`.
pub fn sniff_delimiter(header: &str) -> (r: char)
    ensures
        r == delimiter_of(header@),
{
    let s = chars_of(header);
    for i in 0..s.len()
        invariant
            s@ == header@,
            !s@.take(i as int).contains('\t'),
    {
        if s[i] == '\t' {
            return '\t';
        }
        assert(s@.take(i + 1) =~= s@.take(i as int).push(s@[i as int]));
    }
    assert(s@.take(s.len() as int) =~= s@);
    ','
}

/// Whether `a` comes no later than `b` in character-code order.
pub fn lex_precedes(a: &String, b: &String) -> (r: bool)
    ensures
        r == lex_le(a@, b@),
{
    let ca = chars_of(a.as_str());
    let cb = chars_of(b.as_str());
    let mut i: usize = 0;
    assert(ca@.skip(0) =~= ca@ && cb@.skip(0) =~= cb@);
    while i < ca.len() && i < cb.len()
        invariant
            i <= ca.len() && i <= cb.len(),
            lex_le(a@, b@) == lex_le(ca@.skip(i as int), cb@.skip(i as int)),
        decreases ca.len() - i,
    {
        assert(ca@.skip(i as int).drop_first() =~= ca@.skip(i + 1));
        assert(cb@.skip(i as int).drop_first() =~= cb@.skip(i + 1));
        if ca[i] != cb[i] {
            return ca[i] < cb[i];
        }
        i = i + 1;
    }
    i == ca.len()
}

/// `rows` in character-code order of their text.
pub fn sort_records(rows: Vec<String>) -> (r: Vec<String>)
    ensures
        sorted(texts(r@)),
        texts(r@).to_multiset() == texts(rows@).to_multiset(),
{
    let ghost all = texts(rows@).to_multiset();
    let mut rest = rows;
    let mut out: Vec<String> = Vec::new();
    while rest.len() > 0
        invariant
            sorted(texts(out@)),
            texts(out@).to_multiset().add(texts(rest@).to_multiset()) == all,
        decreases rest.len(),
    {
        let ghost before = rest@;
        let x = rest.pop().unwrap();
        assert(texts(before) =~= texts(rest@).push(x@));
        let mut j: usize = 0;
        while j < out.len() && !lex_precedes(&x, &out[j])
            invariant
                j <= out.len(),
                forall|k: int| 0 <= k < j ==> lex_le(#[trigger] texts(out@)[k], x@),
            decreases out.len() - j,
        {
            proof {
                lemma_lex_total(x@, out@[j as int]@);
            }
            j = j + 1;
        }
        let ghost prev = texts(out@);
        proof {
            lemma_insert_sorted(prev, j as int, x@);
            lemma_insert_multiset(prev, j as int, x@);
        }
        out.insert(j, x);
        assert(texts(out@) =~= prev.insert(j as int, x@));
        assert(texts(out@).to_multiset().add(texts(rest@).to_multiset()) =~= all);
    }
    assert(texts(rest@).to_multiset() =~= Multiset::empty());
    assert(texts(out@).to_multiset().add(Multiset::empty()) =~= texts(out@).to_multiset());
    out
}

/// The header line of an input whose header is `header` and whose
/// delimiter is `sep`: its fields title-cased and written with the output
/// delimiter.
pub fn header_line(header: &str, sep: char) -> (r: String)
    ensures
        r@ == header_spec(header@, sep),
{
    let fields = split(header, sep);
    let mut titles: Vec<String> = Vec::new();
    for i in 0..fields.len()
        invariant
            texts(titles@) =~= texts(fields@).take(i as int).map_values(|f: Seq<char>| title_spec(f)),
    {
        let t = to_title(fields[i].as_str());
        let ghost prev = titles@;
        titles.push(t);
        assert(texts(titles@) =~= texts(prev).push(t@));
        assert(texts(fields@).take(i + 1) =~= texts(fields@).take(i as int).push(fields@[i as int]@));
    }
    assert(texts(fields@).take(fields.len() as int) =~= texts(fields@));
    render(&titles, OUTPUT_DELIMITER)
}

/// Normalises a table: the header line, and the data rows encoded, sorted by
/// their encoded text and restored with the output delimiter. The input
/// delimiter is sniffed from the header.
pub fn normalize_table(header: &str, rows: &Vec<String>) -> (r: (String, Vec<String>))
    ensures
        r.0@ == header_spec(header@, delimiter_of(header@)),
        exists|enc: Seq<Seq<char>>|
            #![trigger sorted(enc)]
            sorted(enc) && enc.to_multiset() == encoded_rows(texts(rows@), delimiter_of(header@)).to_multiset()
                && texts(r.1@) == enc.map_values(|e: Seq<char>| restore_spec(e, OUTPUT_DELIMITER)),
{
    let sep = sniff_delimiter(header);
    let head = header_line(header, sep);
    let mut encoded: Vec<String> = Vec::new();
    for i in 0..rows.len()
        invariant
            texts(encoded@) =~= encoded_rows(texts(rows@).take(i as int), sep),
    {
        let e = parse_record(rows[i].as_str(), sep);
        let ghost prev = encoded@;
        encoded.push(e);
        assert(texts(encoded@) =~= texts(prev).push(e@));
        assert(texts(rows@).take(i + 1) =~= texts(rows@).take(i as int).push(rows@[i as int]@));
    }
    assert(texts(rows@).take(rows.len() as int) =~= texts(rows@));
    let ordered = sort_records(encoded);
    let mut out: Vec<String> = Vec::new();
    for i in 0..ordered.len()
        invariant
            texts(out@) =~= texts(ordered@).take(i as int).map_values(
                |e: Seq<char>| restore_spec(e, OUTPUT_DELIMITER),
            ),
    {
        let line = restore_record(&ordered[i], OUTPUT_DELIMITER);
        let ghost prev = out@;
        out.push(line);
        assert(texts(out@) =~= texts(prev).push(line@));
        assert(texts(ordered@).take(i + 1) =~= texts(ordered@).take(i as int).push(ordered@[i as int]@));
    }
    assert(texts(ordered@).take(ordered.len() as int) =~= texts(ordered@));
    assert(sorted(texts(ordered@)));
    (head, out)
}

} // verus!
