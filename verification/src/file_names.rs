//! File names: stem and extension, and the order in which names are listed.

use vstd::prelude::*;
use vstd::string::*;
use vstd::utf8::encode_utf8;
use vstd::seq_lib::{to_multiset_build, to_multiset_insert};
use crate::text::push_char;

verus! {

/// The position of the last `.` of a name.
pub open spec fn last_dot(name: Seq<char>) -> Option<int>
    decreases name.len(),
{
    if name.len() == 0 {
        None
    } else if name.last() == '.' {
        Some(name.len() - 1)
    } else {
        last_dot(name.drop_last())
    }
}

/// Where a name splits into stem and extension: at its last `.`, unless
/// that is its first character or the name is `..`.
pub open spec fn split_point(name: Seq<char>) -> Option<int> {
    match last_dot(name) {
        Some(i) => if i == 0 || name == seq!['.', '.'] {
            None
        } else {
            Some(i)
        },
        None => None,
    }
}

/// The extension of a file name: what follows its split point.
pub open spec fn extension_of(name: Seq<char>) -> Option<Seq<char>> {
    match split_point(name) {
        Some(i) => Some(name.subrange(i + 1, name.len() as int)),
        None => None,
    }
}

/// The stem of a file name: what precedes its split point, or the whole
/// name where it has none.
pub open spec fn file_stem_of(name: Seq<char>) -> Seq<char> {
    match split_point(name) {
        Some(i) => name.subrange(0, i),
        None => name,
    }
}

/// The view of an optional text.
pub open spec fn text_view(text: Option<String>) -> Option<Seq<char>> {
    match text {
        Some(s) => Some(s@),
        None => None,
    }
}

/// Splits a file name into its stem and its extension.
pub fn split_name(name: &str) -> (parts: (String, Option<String>))
    ensures
        parts.0@ == file_stem_of(name@),
        text_view(parts.1) == extension_of(name@),
{
    broadcast use axiom_spec_iter;

    let mut before = String::new();
    let mut after = String::new();
    let mut dot_seen = false;
    let mut dot_first = false;
    let mut seen_any = false;
    let ghost mut last: int = 0;
    for c in it: name.chars()
        invariant
            it.seq() == name@,
            seen_any == (it.index() > 0),
            dot_seen == (last_dot(name@.take(it.index() as int)) is Some),
            dot_seen ==> last_dot(name@.take(it.index() as int)) == Some(last) && 0 <= last
                < it.index() && name@[last] == '.' && dot_first == (last == 0) && before@ == name@.subrange(0, last)
                && after@ == name@.subrange(last + 1, it.index() as int),
            !dot_seen ==> before@ == name@.take(it.index() as int),
    {
        let ghost i = it.index() as int;
        assert(name@.take(i + 1).drop_last() =~= name@.take(i));
        assert(name@.take(i + 1).last() == c);
        if c == '.' {
            if dot_seen {
                push_char(&mut before, '.');
                before.append(after.as_str());
                assert(before@ =~= name@.subrange(0, i));
            } else {
                assert(before@ =~= name@.subrange(0, i));
            }
            after = String::new();
            dot_first = !seen_any;
            dot_seen = true;
            proof {
                last = i;
            }
            assert(after@ =~= name@.subrange(last + 1, i + 1));
        } else if dot_seen {
            push_char(&mut after, c);
            assert(after@ =~= name@.subrange(last + 1, i + 1));
        } else {
            push_char(&mut before, c);
            assert(before@ =~= name@.take(i + 1));
        }
        seen_any = true;
    }
    assert(name@.take(name@.len() as int) =~= name@);
    proof {
        reveal_strlit("..");
    }
    let whole = String::from_str(name);
    let is_dot_dot = whole == String::from_str("..");
    assert(".."@ =~= seq!['.', '.']);
    if dot_seen && !dot_first && !is_dot_dot {
        (before, Some(after))
    } else {
        (whole, None)
    }
}

/// The stem of a file name.
pub fn file_stem(name: &str) -> (stem: String)
    ensures
        stem@ == file_stem_of(name@),
{
    split_name(name).0
}

/// The extension of a file name.
pub fn extension(name: &str) -> (ext: Option<String>)
    ensures
        text_view(ext) == extension_of(name@),
{
    split_name(name).1
}

/// Lexicographic order on byte strings: a proper prefix comes first, and
/// otherwise the first differing byte decides.
pub open spec fn bytes_le(a: Seq<u8>, b: Seq<u8>) -> bool
    decreases a.len(),
{
    if a.len() == 0 {
        true
    } else if b.len() == 0 {
        false
    } else if a[0] != b[0] {
        a[0] < b[0]
    } else {
        bytes_le(a.drop_first(), b.drop_first())
    }
}

/// The order of names: that of their UTF-8 bytes.
pub open spec fn name_le(a: Seq<char>, b: Seq<char>) -> bool {
    bytes_le(encode_utf8(a), encode_utf8(b))
}

/// Of two byte strings, one is below or equal to the other.
pub proof fn lemma_bytes_le_total(a: Seq<u8>, b: Seq<u8>)
    ensures
        bytes_le(a, b) || bytes_le(b, a),
    decreases a.len(),
{
    if a.len() > 0 && b.len() > 0 && a[0] == b[0] {
        lemma_bytes_le_total(a.drop_first(), b.drop_first());
    }
}

/// The order on byte strings is transitive.
pub proof fn lemma_bytes_le_transitive(a: Seq<u8>, b: Seq<u8>, c: Seq<u8>)
    requires
        bytes_le(a, b),
        bytes_le(b, c),
    ensures
        bytes_le(a, c),
    decreases a.len(),
{
    if a.len() > 0 && b.len() > 0 && c.len() > 0 && a[0] == b[0] && b[0] == c[0] {
        lemma_bytes_le_transitive(a.drop_first(), b.drop_first(), c.drop_first());
    }
}

/// Whether `a` comes before `b` or is equal to it, in the order of names.
pub fn name_precedes(a: &str, b: &str) -> (le: bool)
    ensures
        le == name_le(a@, b@),
{
    let x = a.as_bytes();
    let y = b.as_bytes();
    let mut i: usize = 0;
    assert(x@.skip(0) =~= x@ && y@.skip(0) =~= y@);
    while i < x.len() && i < y.len()
        invariant
            i <= x@.len(),
            i <= y@.len(),
            x@ == encode_utf8(a@),
            y@ == encode_utf8(b@),
            bytes_le(x@, y@) == bytes_le(x@.skip(i as int), y@.skip(i as int)),
        decreases x@.len() - i,
    {
        assert(x@.skip(i as int).drop_first() =~= x@.skip(i + 1));
        assert(y@.skip(i as int).drop_first() =~= y@.skip(i + 1));
        if x[i] != y[i] {
            return x[i] < y[i];
        }
        i += 1;
    }
    i == x.len()
}

/// The views of a list of names, in order.
pub open spec fn names_view(names: Seq<String>) -> Seq<Seq<char>> {
    Seq::new(names.len(), |i: int| names[i]@)
}

/// Whether every name comes before or equals every later one.
pub open spec fn names_sorted(names: Seq<Seq<char>>) -> bool {
    forall|i: int, j: int| 0 <= i < j < names.len() ==> name_le(#[trigger] names[i], #[trigger] names[j])
}

/// The names in ascending order: the same names, each as often as before.
pub fn sort_names(names: Vec<String>) -> (sorted: Vec<String>)
    ensures
        names_sorted(names_view(sorted@)),
        names_view(sorted@).to_multiset() == names_view(names@).to_multiset(),
{
    let ghost source = names_view(names@);
    let mut sorted: Vec<String> = Vec::new();
    assert(names_view(sorted@) =~= source.take(0));
    for name in it: names.into_iter()
        invariant
            source == names_view(it.seq()),
            names_sorted(names_view(sorted@)),
            names_view(sorted@).to_multiset() == source.take(it.index() as int).to_multiset(),
    {
        let ghost before = names_view(sorted@);
        let mut pos: usize = 0;
        while pos < sorted.len() && name_precedes(sorted[pos].as_str(), name.as_str())
            invariant
                pos <= sorted@.len(),
                before == names_view(sorted@),
                forall|k: int| 0 <= k < pos ==> name_le(#[trigger] before[k], name@),
            decreases sorted@.len() - pos,
        {
            assert(before[pos as int] == sorted@[pos as int]@);
            pos += 1;
        }
        sorted.insert(pos, name);
        proof {
            let after = names_view(sorted@);
            assert(after =~= before.insert(pos as int, name@));
            to_multiset_insert(before, pos as int, name@);
            let i = it.index() as int;
            assert(source.take(i + 1) =~= source.take(i).push(name@));
            to_multiset_build(source.take(i), name@);
            assert forall|a: int, b: int| 0 <= a < b < after.len() implies name_le(
                #[trigger] after[a],
                #[trigger] after[b],
            ) by {
                if b < pos {
                    assert(after[a] == before[a] && after[b] == before[b]);
                } else if b == pos {
                    assert(after[a] == before[a]);
                } else if a == pos {
                    let next = before[pos as int];
                    assert(next == sorted@[pos + 1]@);
                    assert(!name_le(next, name@));
                    lemma_bytes_le_total(encode_utf8(next), encode_utf8(name@));
                    assert(after[b] == before[b - 1]);
                    if b - 1 > pos {
                        lemma_bytes_le_transitive(
                            encode_utf8(name@),
                            encode_utf8(next),
                            encode_utf8(before[b - 1]),
                        );
                    }
                } else if a < pos {
                    let next = before[pos as int];
                    assert(after[a] == before[a] && after[b] == before[b - 1]);
                } else {
                    assert(after[a] == before[a - 1] && after[b] == before[b - 1]);
                }
            }
        }
    }
    assert(source.take(source.len() as int) =~= source);
    sorted
}

} // verus!
