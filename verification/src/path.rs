//! Paths and search-path strings, as byte strings.
//!
//! A path is absolute when it starts with the separator `/`. A search-path
//! string lists directories separated by `:`.
use crate::bytes;
use vstd::prelude::*;

verus! {

/// The byte between the components of a path.
pub const SEPARATOR: u8 = 0x2f;

/// The byte between the directories of a search-path string.
pub const LIST_SEPARATOR: u8 = 0x3a;

/// A path is absolute when it starts at the root.
pub open spec fn is_absolute(path: Seq<u8>) -> bool {
    path.len() > 0 && path[0] == SEPARATOR
}

/// `tail` taken from `base`: an absolute `tail` stands for itself; otherwise
/// it is appended to `base`, with a separator in between unless `base` is
/// empty or already ends in one.
pub open spec fn joined(base: Seq<u8>, tail: Seq<u8>) -> Seq<u8> {
    if is_absolute(tail) {
        tail
    } else if base.len() > 0 && base.last() != SEPARATOR {
        base.push(SEPARATOR) + tail
    } else {
        base + tail
    }
}

/// The pieces of `text` between list separators. There is always one piece
/// more than there are separators, so the empty text has one empty piece.
pub open spec fn pieces(text: Seq<u8>) -> Seq<Seq<u8>>
    decreases text.len(),
{
    if text.len() == 0 {
        seq![Seq::<u8>::empty()]
    } else {
        let before = pieces(text.drop_last());
        if text.last() == LIST_SEPARATOR {
            before.push(Seq::<u8>::empty())
        } else {
            before.drop_last().push(before.last().push(text.last()))
        }
    }
}

/// The directories that a search-path string lists, in order. The empty
/// string lists none; in any other string an empty piece is a directory like
/// the others.
pub open spec fn segments(text: Seq<u8>) -> Seq<Seq<u8>> {
    if text.len() == 0 {
        Seq::empty()
    } else {
        pieces(text)
    }
}

/// The text that lists `parts`, a list separator between each two.
pub open spec fn listed(parts: Seq<Seq<u8>>) -> Seq<u8>
    decreases parts.len(),
{
    if parts.len() == 0 {
        Seq::empty()
    } else if parts.len() == 1 {
        parts[0]
    } else {
        listed(parts.drop_last()).push(LIST_SEPARATOR) + parts.last()
    }
}

/// Splitting loses nothing and invents nothing: there is at least one piece,
/// no piece holds a list separator, and the pieces with separators put back
/// between them are the text that was split.
pub proof fn lemma_pieces_partition(text: Seq<u8>)
    ensures
        pieces(text).len() >= 1,
        forall|i: int, k: int|
            0 <= i < pieces(text).len() && 0 <= k < pieces(text)[i].len()
                ==> pieces(text)[i][k] != LIST_SEPARATOR,
        listed(pieces(text)) == text,
    decreases text.len(),
{
    if text.len() == 0 {
        assert(listed(pieces(text)) =~= text);
    } else {
        let shorter = text.drop_last();
        let before = pieces(shorter);
        lemma_pieces_partition(shorter);
        if text.last() == LIST_SEPARATOR {
            let all = before.push(Seq::<u8>::empty());
            assert(all.drop_last() =~= before);
            assert(listed(all) =~= listed(before).push(LIST_SEPARATOR));
            assert(shorter.push(text.last()) =~= text);
        } else {
            let grown = before.last().push(text.last());
            let all = before.drop_last().push(grown);
            assert(all.drop_last() =~= before.drop_last());
            if before.len() == 1 {
                assert(listed(before) == before[0]);
                assert(listed(all) =~= text);
            } else {
                assert(listed(before) == listed(before.drop_last()).push(LIST_SEPARATOR)
                    + before.last());
                assert(listed(all) =~= listed(before).push(text.last()));
                assert(shorter.push(text.last()) =~= text);
            }
        }
    }
}

/// Whether `path` is relative, that is, not absolute.
pub fn is_relative(path: &[u8]) -> (relative: bool)
    ensures
        relative == !is_absolute(path@),
{
    path.len() == 0 || path[0] != SEPARATOR
}

/// Joins `tail` onto `base`.
pub fn join(base: &[u8], tail: &[u8]) -> (path: Vec<u8>)
    ensures
        path@ == joined(base@, tail@),
{
    if !is_relative(tail) {
        return bytes::copy(tail);
    }
    let mut path = bytes::copy(base);
    if base.len() > 0 && base[base.len() - 1] != SEPARATOR {
        path.push(SEPARATOR);
    }
    let mut i: usize = 0;
    while i < tail.len()
        invariant
            i <= tail.len(),
            path@ + tail@.skip(i as int) == joined(base@, tail@),
        decreases tail.len() - i,
    {
        let ghost before = path@;
        path.push(tail[i]);
        assert(path@ + tail@.skip(i + 1) =~= before + tail@.skip(i as int));
        i += 1;
    }
    assert(path@ + tail@.skip(i as int) =~= path@);
    path
}

/// Splits a search-path string into the directories it lists.
pub fn split_paths(text: &[u8]) -> (parts: Vec<Vec<u8>>)
    ensures
        bytes::views(parts@) == segments(text@),
{
    let mut parts: Vec<Vec<u8>> = Vec::new();
    if text.len() == 0 {
        assert(bytes::views(parts@) =~= segments(text@));
        return parts;
    }
    let mut current: Vec<u8> = Vec::new();
    let mut i: usize = 0;
    while i < text.len()
        invariant
            i <= text.len(),
            bytes::views(parts@).push(current@) == pieces(text@.take(i as int)),
        decreases text.len() - i,
    {
        let ghost done = bytes::views(parts@);
        let ghost open = current@;
        assert(text@.take(i + 1).drop_last() =~= text@.take(i as int));
        if text[i] == LIST_SEPARATOR {
            parts.push(current);
            current = Vec::new();
            assert(bytes::views(parts@) =~= done.push(open));
        } else {
            current.push(text[i]);
            assert(done.push(open).drop_last() =~= done);
        }
        i += 1;
    }
    let ghost done = bytes::views(parts@);
    parts.push(current);
    assert(bytes::views(parts@) =~= done.push(current@));
    assert(text@.take(text.len() as int) =~= text@);
    parts
}

} // verus!
