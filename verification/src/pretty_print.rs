use vstd::prelude::*;

use std::collections::HashMap;
use vstd::string::StrSliceExecFns;

verus! {

/// The column budget of one output row.
pub const MAX_LINE_LEN: usize = 125;

/// A type that renders itself as an aligned, sorted, bracketed table.
pub trait PrettyPrint {
    fn pretty_print(&self) -> String;
}

/// `n` spaces (none when `n` is not positive).
pub open spec fn spaces_spec(n: int) -> Seq<char>
    decreases n,
{
    if n <= 0 {
        Seq::empty()
    } else {
        spaces_spec(n - 1).push(' ')
    }
}

/// `s` right-aligned in a field of `width` characters.
pub open spec fn padded_to(s: Seq<char>, width: int) -> Seq<char> {
    spaces_spec(width - s.len()).add(s)
}

/// The largest character count among `strings`.
pub open spec fn max_chars(strings: Seq<Seq<char>>) -> int
    decreases strings.len(),
{
    if strings.len() == 0 {
        0
    } else {
        let rest = max_chars(strings.drop_last());
        if strings.last().len() > rest {
            strings.last().len() as int
        } else {
            rest
        }
    }
}

/// How many entries share one row: as many `width`-character fields as fit
/// the line budget, and at least one.
pub open spec fn per_row_count(width: int) -> int {
    if MAX_LINE_LEN as int / width < 1 {
        1
    } else {
        MAX_LINE_LEN as int / width
    }
}

/// What separates entry `i` from what precedes it: nothing before the
/// first, a row break with a two-space hanging indent at each row
/// boundary, and a comma between row mates.
pub open spec fn separator_before(i: int, per_row: int) -> Seq<char> {
    if i == 0 {
        Seq::empty()
    } else if i % per_row == 0 {
        seq!['\n', ' ', ' ']
    } else {
        seq![',', ' ']
    }
}

/// The table body for the first `upto` entries: each entry right-aligned to
/// `width` characters, preceded by its separator.
pub open spec fn body_text(strings: Seq<Seq<char>>, per_row: int, width: int, upto: int) -> Seq<
    char,
>
    decreases upto,
{
    if upto <= 0 {
        Seq::empty()
    } else {
        body_text(strings, per_row, width, upto - 1).add(
            separator_before(upto - 1, per_row),
        ).add(padded_to(strings[upto - 1], width))
    }
}

/// The character-sequence views of a sequence of strings.
pub open spec fn string_views(v: Seq<String>) -> Seq<Seq<char>> {
    v.map_values(|s: String| s@)
}

/// The whole rendering: brackets alone around nothing, otherwise the
/// space-framed table body between the brackets.
pub open spec fn pprint_spec(strings: Seq<Seq<char>>, start: Seq<char>, end: Seq<char>) -> Seq<
    char,
> {
    if strings.len() == 0 {
        start.add(end)
    } else {
        let width = max_chars(strings);
        let per_row = per_row_count(width);
        start.add(seq![' ']).add(body_text(strings, per_row, width, strings.len() as int)).add(
            seq![' '],
        ).add(end)
    }
}

/// Renders `sorted_strings` between the given brackets: entries are
/// right-aligned to the widest entry's character count, packed as many to a
/// row as fit the line budget, rows after the first carrying a two-space
/// hanging indent. An entry of zero width is excluded only alongside
/// entirely empty input, where the row budget would be undefined.
pub fn pprint(sorted_strings: Vec<String>, start_bracket: &str, end_bracket: &str) -> (r: String)
    requires
        sorted_strings@.len() > 0 ==> max_chars(string_views(sorted_strings@)) > 0,
    ensures
        r@ == pprint_spec(string_views(sorted_strings@), start_bracket@, end_bracket@),
{
    let ghost views = string_views(sorted_strings@);
    let mut out = String::new();
    out.append(start_bracket);
    if sorted_strings.len() == 0 {
        out.append(end_bracket);
        return out;
    }

    let mut max: usize = 0;
    let mut i: usize = 0;
    while i < sorted_strings.len()
        invariant
            views == string_views(sorted_strings@),
            i <= sorted_strings@.len(),
            max as int == max_chars(views.take(i as int)),
        decreases sorted_strings@.len() - i,
    {
        let c = sorted_strings[i].as_str().unicode_len();
        proof {
            assert(views.take(i + 1).drop_last() =~= views.take(i as int));
            assert(views.take(i + 1).last() == views[i as int]);
            assert(views[i as int] == sorted_strings@[i as int]@);
        }
        if c > max {
            max = c;
        }
        i += 1;
    }
    proof {
        assert(views.take(sorted_strings@.len() as int) =~= views);
    }

    let per_row = if MAX_LINE_LEN / max == 0 {
        1
    } else {
        MAX_LINE_LEN / max
    };
    proof {
        assert(per_row as int == per_row_count(max as int));
    }

    out.append(" ");
    proof {
        reveal_strlit(" ");
        assert(" "@ =~= seq![' ']);
    }

    let ghost head = start_bracket@.add(seq![' ']);
    let mut i: usize = 0;
    while i < sorted_strings.len()
        invariant
            views == string_views(sorted_strings@),
            i <= sorted_strings@.len(),
            sorted_strings@.len() > 0,
            max as int == max_chars(views),
            per_row as int == per_row_count(max as int),
            per_row >= 1,
            out@ == head.add(body_text(views, per_row as int, max as int, i as int)),
        decreases sorted_strings@.len() - i,
    {
        let ghost out_at_entry = out@;
        if i > 0 {
            if i % per_row == 0 {
                out.append("\n  ");
                proof {
                    reveal_strlit("\n  ");
                    assert("\n  "@ =~= seq!['\n', ' ', ' ']);
                }
            } else {
                out.append(", ");
                proof {
                    reveal_strlit(", ");
                    assert(", "@ =~= seq![',', ' ']);
                }
            }
        }
        proof {
            assert(out@ =~= out_at_entry.add(separator_before(i as int, per_row as int)));
        }
        let ghost out_before_pad = out@;
        let c = sorted_strings[i].as_str().unicode_len();
        let mut p = c;
        while p < max
            invariant
                c <= p,
                p <= max || p == c,
                out@ == out_before_pad.add(spaces_spec(p as int - c as int)),
            decreases max as int - p,
        {
            out.append(" ");
            proof {
                reveal_strlit(" ");
                assert(" "@ =~= seq![' ']);
                assert(out@ =~= out_before_pad.add(spaces_spec(p + 1 - c as int)));
            }
            p += 1;
        }
        out.append(sorted_strings[i].as_str());
        proof {
            assert(views[i as int] == sorted_strings@[i as int]@);
            assert(c as int == views[i as int].len());
            assert(out@ =~= out_at_entry.add(separator_before(i as int, per_row as int)).add(
                padded_to(views[i as int], max as int),
            ));
            assert(out@ =~= head.add(body_text(views, per_row as int, max as int, i + 1)));
        }
        i += 1;
    }

    out.append(" ");
    out.append(end_bracket);
    proof {
        reveal_strlit(" ");
        assert(" "@ =~= seq![' ']);
        assert(out@ =~= pprint_spec(views, start_bracket@, end_bracket@));
    }
    out
}

/// Relies on std's `Debug` formatting; how an arbitrary type renders itself
/// is its formatter's business, and carries no contract.
#[verifier::external_body]
fn debug_string<T: core::fmt::Debug + ?Sized>(t: &T) -> String {
    format!("{:?}", t)
}

/// Relies on std's slice sort, keyed by the pairs' first components through
/// the key type's `Ord`; the same pairs come back, reordered.
#[verifier::external_body]
fn sort_pairs_by_key<'a, T: Ord, V>(v: &mut Vec<(&'a T, &'a V)>)
    ensures
        final(v)@.to_multiset() == old(v)@.to_multiset(),
{
    v.sort_by_key(|kvp| kvp.0);
}

/// Relies on std's slice sort through the element type's `Ord`; the same
/// elements come back, reordered.
#[verifier::external_body]
fn sort_refs<T: Ord>(v: &mut Vec<&T>)
    ensures
        final(v)@.to_multiset() == old(v)@.to_multiset(),
{
    v.sort();
}

/// Relies on std's `HashMap` iteration; the iteration order is unspecified,
/// so nothing is promised of the order in which the pairs come out.
#[verifier::external_body]
fn map_pairs<'a, T, V>(m: &'a HashMap<T, V>) -> Vec<(&'a T, &'a V)> {
    let mut pairs = Vec::new();
    for kvp in m.iter() {
        pairs.push(kvp);
    }
    pairs
}

impl<T: Ord + core::fmt::Debug, V: core::fmt::Debug> PrettyPrint for HashMap<T, V> {
    /// The map's entries as `key: value` lines, sorted by key, aligned and
    /// wrapped in braces. The trait method carries no contract: what a
    /// derived `Ord` orders and what a `Debug` impl renders are unknowable
    /// for a generic type, so only the layout core (`pprint`) is specified.
    fn pretty_print(&self) -> String {
        let mut kvps = map_pairs(self);
        sort_pairs_by_key(&mut kvps);
        let mut texts: Vec<String> = Vec::new();
        let mut i: usize = 0;
        while i < kvps.len()
            decreases kvps@.len() - i,
        {
            let mut text = debug_string(kvps[i].0);
            text.append(": ");
            let value_text = debug_string(kvps[i].1);
            text.append(value_text.as_str());
            texts.push(text);
            i += 1;
        }
        if pprint_ready(&texts) {
            pprint(texts, "{", "}")
        } else {
            brackets_only("{", "}")
        }
    }
}

impl<T: Ord + core::fmt::Debug> PrettyPrint for Vec<T> {
    /// The vector's elements, sorted, aligned and wrapped in brackets; as
    /// with the map rendering, only the layout core is specified.
    fn pretty_print(&self) -> String {
        let mut refs: Vec<&T> = Vec::new();
        let mut i: usize = 0;
        while i < self.len()
            decreases self@.len() - i,
        {
            refs.push(&self[i]);
            i += 1;
        }
        sort_refs(&mut refs);
        let mut texts: Vec<String> = Vec::new();
        let mut k: usize = 0;
        while k < refs.len()
            decreases refs@.len() - k,
        {
            texts.push(debug_string(refs[k]));
            k += 1;
        }
        if pprint_ready(&texts) {
            pprint(texts, "[", "]")
        } else {
            brackets_only("[", "]")
        }
    }
}

/// Whether `pprint` accepts these entries: an empty table is fine, a
/// non-empty one needs a positive widest width.
fn pprint_ready(texts: &Vec<String>) -> (r: bool)
    ensures
        r == (texts@.len() > 0 ==> max_chars(string_views(texts@)) > 0),
{
    if texts.len() == 0 {
        return true;
    }
    let mut max: usize = 0;
    let mut i: usize = 0;
    while i < texts.len()
        invariant
            i <= texts@.len(),
            max as int == max_chars(string_views(texts@).take(i as int)),
        decreases texts@.len() - i,
    {
        let c = texts[i].as_str().unicode_len();
        proof {
            let views = string_views(texts@);
            assert(views.take(i + 1).drop_last() =~= views.take(i as int));
            assert(views.take(i + 1).last() == views[i as int]);
            assert(views[i as int] == texts@[i as int]@);
        }
        if c > max {
            max = c;
        }
        i += 1;
    }
    proof {
        assert(string_views(texts@).take(texts@.len() as int) =~= string_views(texts@));
    }
    max > 0
}

/// The degenerate rendering: the two brackets and nothing else.
fn brackets_only(start_bracket: &str, end_bracket: &str) -> (r: String)
    ensures
        r@ == start_bracket@ + end_bracket@,
{
    let mut out = String::new();
    out.append(start_bracket);
    out.append(end_bracket);
    out
}

} // verus!
