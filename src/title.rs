//! Title casing of header fields.
//!
//! A leading byte-order mark is dropped, `_` counts as a space, runs of
//! spaces collapse to one, newlines vanish, the first character of each word
//! is upper-cased and every other character lower-cased, and trailing spaces
//! are trimmed.
use vstd::prelude::*;
use crate::text::{append_chars, chars_of, string_from_chars};

verus! {

/// The byte-order mark that may open the text.
pub const BOM: char = '\u{feff}';

/// Whether `char::is_lowercase` holds of `c`.
pub uninterp spec fn is_lower_char(c: char) -> bool;

/// What `char::to_uppercase` yields for `c`.
pub uninterp spec fn upper_chars(c: char) -> Seq<char>;

/// Whether `char::is_uppercase` holds of `c`.
pub uninterp spec fn is_upper_char(c: char) -> bool;

/// What `char::to_lowercase` yields for `c`.
pub uninterp spec fn lower_chars(c: char) -> Seq<char>;

/// Relies on `char::is_lowercase`: whether `c` has the Lowercase property.
#[verifier::external_body]
fn char_is_lowercase(c: char) -> (r: bool)
    ensures
        r == is_lower_char(c),
{
    c.is_lowercase()
}

/// Relies on `char::to_uppercase`: the full upper-case mapping of `c`.
#[verifier::external_body]
fn char_to_uppercase(c: char) -> (r: Vec<char>)
    ensures
        r@ == upper_chars(c),
{
    c.to_uppercase().collect()
}

/// Relies on `char::is_uppercase`: whether `c` has the Uppercase property.
#[verifier::external_body]
fn char_is_uppercase(c: char) -> (r: bool)
    ensures
        r == is_upper_char(c),
{
    c.is_uppercase()
}

/// Relies on `char::to_lowercase`: the full lower-case mapping of `c`.
#[verifier::external_body]
fn char_to_lowercase(c: char) -> (r: Vec<char>)
    ensures
        r@ == lower_chars(c),
{
    c.to_lowercase().collect()
}

/// `_` stands for a space; every other character for itself.
pub open spec fn space_equivalent(c: char) -> char {
    if c == '_' {
        ' '
    } else {
        c
    }
}

/// The characters kept from `s` at and after position `i`, each paired with
/// whether it opens a word. `after_space` tells whether the last kept
/// character was a space (or nothing was kept yet).
pub open spec fn layout_from(s: Seq<char>, i: int, after_space: bool) -> Seq<(char, bool)>
    decreases s.len() - i,
{
    if i < 0 || i >= s.len() {
        Seq::empty()
    } else {
        let c = space_equivalent(s[i]);
        if c == '\n' || (after_space && c == ' ') {
            layout_from(s, i + 1, after_space)
        } else {
            seq![(c, after_space)] + layout_from(s, i + 1, c == ' ')
        }
    }
}

/// The kept characters of `s` with their word-start flags, after dropping a
/// leading byte-order mark.
pub open spec fn title_layout_spec(s: Seq<char>) -> Seq<(char, bool)> {
    if s.len() > 0 && s[0] == BOM {
        layout_from(s, 1, true)
    } else {
        layout_from(s, 0, true)
    }
}

/// One kept character in its case: upper-cased at a word start when it is
/// lower case, lower-cased elsewhere when it is upper case, else unchanged.
pub open spec fn cased(c: char, word_start: bool) -> Seq<char> {
    if word_start {
        if is_lower_char(c) {
            upper_chars(c)
        } else {
            seq![c]
        }
    } else if is_upper_char(c) {
        lower_chars(c)
    } else {
        seq![c]
    }
}

/// The kept characters in their cases, concatenated.
pub open spec fn cased_all(l: Seq<(char, bool)>) -> Seq<char>
    decreases l.len(),
{
    if l.len() == 0 {
        Seq::empty()
    } else {
        cased_all(l.drop_last()) + cased(l.last().0, l.last().1)
    }
}

/// `s` without its trailing spaces.
pub open spec fn trim_trailing_spaces(s: Seq<char>) -> Seq<char>
    decreases s.len(),
{
    if s.len() > 0 && s.last() == ' ' {
        trim_trailing_spaces(s.drop_last())
    } else {
        s
    }
}

/// The title-cased form of `s`.
pub open spec fn title_spec(s: Seq<char>) -> Seq<char> {
    trim_trailing_spaces(cased_all(title_layout_spec(s)))
}

/// The characters of `input` that title casing keeps, each with whether it
/// opens a word: a leading byte-order mark and newlines are dropped, `_`
/// becomes a space, and a space is kept only after a kept non-space.
pub fn title_layout(input: &str) -> (r: Vec<(char, bool)>)
    ensures
        r@ == title_layout_spec(input@),
{
    let s = chars_of(input);
    let start: usize = if s.len() > 0 && s[0] == BOM {
        1
    } else {
        0
    };
    let mut out: Vec<(char, bool)> = Vec::new();
    let mut after_space = true;
    let mut i: usize = start;
    while i < s.len()
        invariant
            start <= i <= s.len(),
            s@ == input@,
            layout_from(s@, start as int, true) == out@ + layout_from(s@, i as int, after_space),
        decreases s.len() - i,
    {
        let c = if s[i] == '_' {
            ' '
        } else {
            s[i]
        };
        if !(c == '\n' || (after_space && c == ' ')) {
            let ghost before = out@;
            let ghost was_after = after_space;
            out.push((c, after_space));
            after_space = c == ' ';
            assert(before + (seq![(c, was_after)] + layout_from(s@, i + 1, after_space))
                =~= out@ + layout_from(s@, i + 1, after_space));
        }
        i = i + 1;
    }
    assert(out@ + Seq::<(char, bool)>::empty() =~= out@);
    out
}

/// Title-cases `input`; see the module documentation.
pub fn to_title(input: &str) -> (r: String)
    ensures
        r@ == title_spec(input@),
{
    let layout = title_layout(input);
    let mut out: Vec<char> = Vec::new();
    for i in 0..layout.len()
        invariant
            out@ == cased_all(layout@.take(i as int)),
    {
        let (c, word_start) = layout[i];
        let mapped = if word_start {
            if char_is_lowercase(c) {
                char_to_uppercase(c)
            } else {
                vec![c]
            }
        } else if char_is_uppercase(c) {
            char_to_lowercase(c)
        } else {
            vec![c]
        };
        assert(layout@.take(i + 1).drop_last() =~= layout@.take(i as int));
        append_chars(&mut out, &mapped);
    }
    assert(layout@.take(layout.len() as int) =~= layout@);
    let ghost full = out@;
    while out.len() > 0 && out[out.len() - 1] == ' '
        invariant
            trim_trailing_spaces(out@) == trim_trailing_spaces(full),
        decreases out.len(),
    {
        let ghost before = out@;
        out.pop();
        assert(out@ =~= before.drop_last());
    }
    string_from_chars(&out)
}

} // verus!
