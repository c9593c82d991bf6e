//! Laws relating the splitter, the internal representation and the restorer.
use vstd::prelude::*;
use crate::fields::{fields_from, scan, split_fields, QUOTE};
use crate::record::{
    decode_spec, encode_spec, join_spec, quote_field, restore_spec, split_on, UNIT_SEPARATOR,
};

verus! {

/// Cutting `x + b` at `c`, where `b` holds no `c`, extends the last piece of
/// `x` by `b`.
proof fn lemma_split_on_append(x: Seq<char>, b: Seq<char>, c: char)
    requires
        !b.contains(c),
    ensures
        split_on(x + b, c) == split_on(x, c).update(split_on(x, c).len() - 1, split_on(x, c).last() + b),
        split_on(x, c).len() >= 1,
    decreases b.len(),
{
    lemma_split_on_nonempty(x, c);
    if b.len() == 0 {
        assert(x + b =~= x);
        assert(split_on(x, c).last() + b =~= split_on(x, c).last());
        assert(split_on(x, c).update(split_on(x, c).len() - 1, split_on(x, c).last()) =~= split_on(x, c));
    } else {
        let b0 = b.drop_last();
        assert(!b0.contains(c)) by {
            assert forall|k: int| 0 <= k < b0.len() implies b0[k] != c by {
                assert(b0[k] == b[k]);
            }
        }
        lemma_split_on_append(x, b0, c);
        assert((x + b).drop_last() =~= x + b0);
        assert((x + b).last() == b.last());
        assert(b.last() != c) by {
            assert(b[b.len() - 1] == b.last());
        }
        assert(b0.push(b.last()) =~= b);
        let p = split_on(x, c);
        assert(p.last() + b0.push(b.last()) =~= (p.last() + b0).push(b.last()));
        assert(split_on(x + b, c) =~= p.update(p.len() - 1, p.last() + b));
    }
}

/// Cutting at `c` always gives at least one piece.
proof fn lemma_split_on_nonempty(x: Seq<char>, c: char)
    ensures
        split_on(x, c).len() >= 1,
    decreases x.len(),
{
    if x.len() > 0 {
        lemma_split_on_nonempty(x.drop_last(), c);
    }
}

/// Decoding inverts encoding for any non-empty sequence of fields none of
/// which holds the unit separator.
pub proof fn lemma_decode_encode(fields: Seq<Seq<char>>)
    requires
        fields.len() >= 1,
        forall|k: int| 0 <= k < fields.len() ==> !(#[trigger] fields[k]).contains(UNIT_SEPARATOR),
    ensures
        decode_spec(encode_spec(fields)) == fields,
    decreases fields.len(),
{
    if fields.len() == 1 {
        lemma_split_on_append(Seq::empty(), fields[0], UNIT_SEPARATOR);
        assert(Seq::<char>::empty() + fields[0] =~= fields[0]);
        assert(split_on(Seq::empty(), UNIT_SEPARATOR).last() + fields[0] =~= fields[0]);
        assert(decode_spec(encode_spec(fields)) =~= fields);
    } else {
        let init = fields.drop_last();
        lemma_decode_encode(init);
        let x = encode_spec(init) + seq![UNIT_SEPARATOR];
        assert(fields.last() == fields[fields.len() - 1]);
        lemma_split_on_append(x, fields.last(), UNIT_SEPARATOR);
        assert(x.drop_last() =~= encode_spec(init));
        assert(split_on(x, UNIT_SEPARATOR) == init.push(Seq::empty()));
        assert(Seq::<char>::empty() + fields.last() =~= fields.last());
        assert(decode_spec(encode_spec(fields)) =~= fields);
    }
}

/// Joining a first field in front of a non-empty sequence.
proof fn lemma_join_prepend(a: Seq<char>, rest: Seq<Seq<char>>, sep: char)
    requires
        rest.len() >= 1,
    ensures
        join_spec(seq![a] + rest, sep) == a + seq![sep] + join_spec(rest, sep),
    decreases rest.len(),
{
    let all = seq![a] + rest;
    if rest.len() == 1 {
        assert(all.drop_last() =~= seq![a]);
        assert(all.last() == rest[0]);
        assert(join_spec(seq![a], sep) == a);
        assert(join_spec(all, sep) == join_spec(all.drop_last(), sep) + seq![sep] + all.last());
    } else {
        lemma_join_prepend(a, rest.drop_last(), sep);
        assert(all.drop_last() =~= seq![a] + rest.drop_last());
        assert(all.last() == rest.last());
        assert(join_spec(all, sep) == join_spec(all.drop_last(), sep) + seq![sep] + all.last());
        assert(join_spec(rest, sep) == join_spec(rest.drop_last(), sep) + seq![sep] + rest.last());
        assert(a + seq![sep] + join_spec(rest.drop_last(), sep) + seq![sep] + rest.last()
            =~= a + seq![sep] + (join_spec(rest.drop_last(), sep) + seq![sep] + rest.last()));
    }
}

/// On quote-free text the unquoted scan reads up to the first delimiter.
proof fn lemma_scan_plain(s: Seq<char>, sep: char, i: int)
    requires
        !s.contains(QUOTE),
        0 <= i <= s.len(),
    ensures
        ({
            let r = scan(s, sep, i, false);
            if r.2 {
                i < r.1 <= s.len() && s[r.1 - 1] == sep && r.0 == s.subrange(i, r.1 - 1)
            } else {
                r.1 == s.len() && r.0 == s.subrange(i, s.len() as int)
            }
        }),
    decreases s.len() - i,
{
    if i < s.len() {
        assert(s[i] != QUOTE);
        if s[i] != sep {
            lemma_scan_plain(s, sep, i + 1);
            let r = scan(s, sep, i + 1, false);
            if r.2 {
                assert(seq![s[i]] + r.0 =~= s.subrange(i, r.1 - 1));
            } else {
                assert(seq![s[i]] + r.0 =~= s.subrange(i, s.len() as int));
            }
        } else {
            assert(s.subrange(i, i) =~= Seq::<char>::empty());
        }
    } else {
        assert(s.subrange(i, i) =~= Seq::<char>::empty());
    }
}

/// On quote-free text the fields from `i` on join back to the rest of the
/// text, and each is a piece of it.
proof fn lemma_fields_plain(s: Seq<char>, sep: char, i: int)
    requires
        !s.contains(QUOTE),
        0 <= i <= s.len(),
    ensures
        fields_from(s, sep, i).len() >= 1,
        join_spec(fields_from(s, sep, i), sep) == s.subrange(i, s.len() as int),
        !s.contains(UNIT_SEPARATOR) ==> forall|k: int|
            0 <= k < fields_from(s, sep, i).len() ==> !(#[trigger] fields_from(s, sep, i)[k]).contains(
                UNIT_SEPARATOR,
            ),
    decreases s.len() - i,
{
    lemma_scan_plain(s, sep, i);
    let r = scan(s, sep, i, false);
    let fs = fields_from(s, sep, i);
    assert forall|c: char| r.0.contains(c) implies s.contains(c) by {
        let k = choose|k: int| 0 <= k < r.0.len() && r.0[k] == c;
        assert(s[i + k] == c);
    }
    if r.2 {
        lemma_fields_plain(s, sep, r.1);
        let rest = fields_from(s, sep, r.1);
        assert(fs == seq![r.0] + rest);
        lemma_join_prepend(r.0, rest, sep);
        assert(s.subrange(i, r.1 - 1) + seq![sep] + s.subrange(r.1, s.len() as int)
            =~= s.subrange(i, s.len() as int));
        if !s.contains(UNIT_SEPARATOR) {
            assert forall|k: int| 0 <= k < fs.len() implies !(#[trigger] fs[k]).contains(
                UNIT_SEPARATOR,
            ) by {
                if k > 0 {
                    assert(fs[k] == rest[k - 1]);
                }
            }
        }
    } else {
        assert(fs == seq![r.0]);
    }
}

/// For text free of quotes and of the unit separator, splitting, encoding,
/// decoding and joining again with the original delimiter gives the text
/// back unchanged.
pub proof fn lemma_unquoted_round_trip(s: Seq<char>, sep: char)
    requires
        !s.contains(QUOTE),
        !s.contains(UNIT_SEPARATOR),
    ensures
        join_spec(decode_spec(encode_spec(split_fields(s, sep))), sep) == s,
{
    lemma_fields_plain(s, sep, 0);
    let fs = split_fields(s, sep);
    lemma_decode_encode(fs);
    assert(s.subrange(0, s.len() as int) =~= s);
}

/// Restoring an encoded record writes each field on its own: a field that
/// contains the target delimiter always comes out wrapped in quotes, and a
/// field that holds neither the delimiter nor a quote comes out unquoted and
/// unchanged, whatever quoting it had on input.
pub proof fn lemma_restore_quoting(fields: Seq<Seq<char>>, sep: char)
    requires
        fields.len() >= 1,
        forall|k: int| 0 <= k < fields.len() ==> !(#[trigger] fields[k]).contains(UNIT_SEPARATOR),
    ensures
        restore_spec(encode_spec(fields), sep) == join_spec(
            fields.map_values(|f: Seq<char>| quote_field(f, sep)),
            sep,
        ),
        forall|k: int|
            0 <= k < fields.len() && (#[trigger] fields[k]).contains(sep) ==> quote_field(fields[k], sep)
                == seq![QUOTE] + fields[k] + seq![QUOTE],
        forall|k: int|
            0 <= k < fields.len() && !(#[trigger] fields[k]).contains(sep) && !fields[k].contains(QUOTE)
                ==> quote_field(fields[k], sep) == fields[k],
{
    lemma_decode_encode(fields);
}

} // verus!
