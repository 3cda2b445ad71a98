//! Byte strings: names and paths are sequences of bytes, never assumed to be
//! valid text.
use vstd::prelude::*;

verus! {

/// The views of a list of byte strings.
pub open spec fn views(names: Seq<Vec<u8>>) -> Seq<Seq<u8>> {
    names.map_values(|name: Vec<u8>| name@)
}

/// `a` comes before `b` in the dictionary order of byte strings: at the
/// first place where they differ `a` holds the smaller byte, or `a` is a
/// proper prefix of `b`.
pub open spec fn precedes(a: Seq<u8>, b: Seq<u8>) -> bool
    decreases a.len(),
{
    if b.len() == 0 {
        false
    } else if a.len() == 0 {
        true
    } else if a[0] != b[0] {
        a[0] < b[0]
    } else {
        precedes(a.skip(1), b.skip(1))
    }
}

/// No byte string comes before itself, and of two byte strings at most one
/// comes before the other.
pub proof fn lemma_precedes_asymmetric(a: Seq<u8>, b: Seq<u8>)
    ensures
        !(precedes(a, b) && precedes(b, a)),
    decreases a.len(),
{
    if a.len() > 0 && b.len() > 0 && a[0] == b[0] {
        lemma_precedes_asymmetric(a.skip(1), b.skip(1));
    }
}

/// Of two different byte strings one comes before the other.
pub proof fn lemma_precedes_total(a: Seq<u8>, b: Seq<u8>)
    ensures
        a == b || precedes(a, b) || precedes(b, a),
    decreases a.len(),
{
    if a.len() > 0 && b.len() > 0 && a[0] == b[0] {
        lemma_precedes_total(a.skip(1), b.skip(1));
        if a.skip(1) == b.skip(1) {
            assert(a =~= seq![a[0]] + a.skip(1));
            assert(b =~= seq![b[0]] + b.skip(1));
        }
    } else if a.len() == 0 && b.len() == 0 {
        assert(a =~= b);
    }
}

/// The dictionary order is transitive.
pub proof fn lemma_precedes_transitive(a: Seq<u8>, b: Seq<u8>, c: Seq<u8>)
    requires
        precedes(a, b),
        precedes(b, c),
    ensures
        precedes(a, c),
    decreases a.len(),
{
    if a.len() > 0 && b.len() > 0 && c.len() > 0 && a[0] == b[0] && b[0] == c[0] {
        lemma_precedes_transitive(a.skip(1), b.skip(1), c.skip(1));
    }
}

/// Whether `a` comes before `b` in the dictionary order of byte strings.
pub fn comes_before(a: &[u8], b: &[u8]) -> (before: bool)
    ensures
        before == precedes(a@, b@),
{
    let mut i: usize = 0;
    assert(a@.skip(0) =~= a@ && b@.skip(0) =~= b@);
    while i < a.len() && i < b.len()
        invariant
            i <= a.len(),
            i <= b.len(),
            precedes(a@, b@) == precedes(a@.skip(i as int), b@.skip(i as int)),
        decreases a.len() - i,
    {
        assert(a@.skip(i as int)[0] == a@[i as int]);
        assert(b@.skip(i as int)[0] == b@[i as int]);
        if a[i] != b[i] {
            return a[i] < b[i];
        }
        assert(a@.skip(i as int).skip(1) =~= a@.skip(i + 1));
        assert(b@.skip(i as int).skip(1) =~= b@.skip(i + 1));
        i += 1;
    }
    i < b.len()
}

/// Whether two byte strings hold the same bytes.
pub fn same(a: &[u8], b: &[u8]) -> (equal: bool)
    ensures
        equal == (a@ == b@),
{
    if a.len() != b.len() {
        return false;
    }
    let mut i: usize = 0;
    while i < a.len()
        invariant
            i <= a.len(),
            a.len() == b.len(),
            forall|k: int| 0 <= k < i ==> a@[k] == b@[k],
        decreases a.len() - i,
    {
        if a[i] != b[i] {
            return false;
        }
        i += 1;
    }
    assert(a@ =~= b@);
    true
}

/// A fresh copy of a byte string.
pub fn copy(a: &[u8]) -> (fresh: Vec<u8>)
    ensures
        fresh@ == a@,
{
    let mut fresh: Vec<u8> = Vec::new();
    let mut i: usize = 0;
    while i < a.len()
        invariant
            i <= a.len(),
            fresh@ == a@.take(i as int),
        decreases a.len() - i,
    {
        fresh.push(a[i]);
        i += 1;
        assert(fresh@ =~= a@.take(i as int));
    }
    assert(a@.take(a.len() as int) =~= a@);
    fresh
}

} // verus!
