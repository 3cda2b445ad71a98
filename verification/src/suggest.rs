//! Spelling suggestions: the names on the search path that are closest to
//! the program that was asked for.
//!
//! How far a name is from the program is the edit distance between the two,
//! read as text, divided by the length of the longer one. The smaller that
//! fraction, the closer the name. Fractions are compared exactly, by cross
//! multiplication; of two names that are equally far the one that comes later
//! in the dictionary order of byte strings is taken first.
use crate::bytes;
use crate::disk::Disk;
use crate::disk::PathFacts;
use crate::path_part::absolutes;
use crate::path_part::part_views;
use crate::path_part::PathPart;
use crate::text::lossy;
use crate::text::lossy_text;
use vstd::prelude::*;

verus! {

/// The Levenshtein distance between two texts: the least number of
/// characters to insert, delete or substitute to turn one into the other.
pub uninterp spec fn edit_distance(a: Seq<char>, b: Seq<char>) -> nat;

/// `strsim::levenshtein` compares the two strings character by character.
/// The contract claims only that the distance depends on the two texts
/// alone.
pub assume_specification[ strsim::levenshtein ](a: &str, b: &str) -> (distance: usize)
    ensures
        distance as nat == edit_distance(a@, b@),
;

/// How far a name is from the program: the edit distance between the two and
/// the length of the longer one, counted in characters. It stands for the
/// fraction `distance / longest`, and for zero when both are empty.
#[derive(Clone, Copy, Debug, PartialEq, Eq, Structural)]
pub struct Penalty {
    pub distance: usize,
    pub longest: usize,
}

/// A name found on the search path, with its penalty.
#[derive(Clone, Debug, PartialEq, Eq)]
pub struct Scored {
    pub name: Vec<u8>,
    pub penalty: Penalty,
}

/// The numerator of the fraction that a distance and a length stand for.
pub open spec fn miss(distance: int, longest: int) -> int {
    if longest <= 0 {
        0
    } else {
        distance
    }
}

/// The denominator of the fraction that a distance and a length stand for.
pub open spec fn scale(longest: int) -> int {
    if longest <= 0 {
        1
    } else {
        longest
    }
}

/// The name `a`, at distance `da` of `la`, is ranked before the name `b`, at
/// distance `db` of `lb`: its fraction is smaller, or the fractions are equal
/// and `a` comes after `b` in the dictionary order.
pub open spec fn ranked_before(
    da: int,
    la: int,
    a: Seq<u8>,
    db: int,
    lb: int,
    b: Seq<u8>,
) -> bool {
    let left = miss(da, la) * scale(lb);
    let right = miss(db, lb) * scale(la);
    left < right || (left == right && bytes::precedes(b, a))
}

/// The entry `a` is ranked before the entry `b`.
pub open spec fn outranks(a: Scored, b: Scored) -> bool {
    ranked_before(
        a.penalty.distance as int,
        a.penalty.longest as int,
        a.name@,
        b.penalty.distance as int,
        b.penalty.longest as int,
        b.name@,
    )
}

/// The distance between the program and a name, both read as text.
pub open spec fn distance_of(program: Seq<u8>, name: Seq<u8>) -> int {
    edit_distance(lossy_text(program), lossy_text(name)) as int
}

/// The length in characters of the longer of the program and a name.
pub open spec fn longest_of(program: Seq<u8>, name: Seq<u8>) -> int {
    if lossy_text(program).len() >= lossy_text(name).len() {
        lossy_text(program).len() as int
    } else {
        lossy_text(name).len() as int
    }
}

/// The name `a` is closer to the program than the name `b`.
pub open spec fn closer(program: Seq<u8>, a: Seq<u8>, b: Seq<u8>) -> bool {
    ranked_before(
        distance_of(program, a),
        longest_of(program, a),
        a,
        distance_of(program, b),
        longest_of(program, b),
        b,
    )
}

/// The entry at `k` can still be picked: it is not the program and its name
/// was not taken before.
pub open spec fn eligible(
    program: Seq<u8>,
    entries: Seq<Scored>,
    taken: Seq<Seq<u8>>,
    k: int,
) -> bool {
    &&& 0 <= k < entries.len()
    &&& entries[k].name@ != program
    &&& !taken.contains(entries[k].name@)
}

/// `name` is the name of an entry that can still be picked and that no
/// other such entry is ranked before.
pub open spec fn is_best(
    program: Seq<u8>,
    entries: Seq<Scored>,
    taken: Seq<Seq<u8>>,
    name: Seq<u8>,
) -> bool {
    exists|k: int|
        {
            &&& #[trigger] eligible(program, entries, taken, k)
            &&& entries[k].name@ == name
            &&& forall|j: int| #[trigger]
                eligible(program, entries, taken, j) ==> !outranks(entries[j], entries[k])
        }
}

/// `picks` are the first `limit` picks from `entries`: each is the best of
/// what the picks before it left, and there are fewer than `limit` of them
/// only when nothing is left to pick.
pub open spec fn is_selection(
    program: Seq<u8>,
    entries: Seq<Scored>,
    limit: nat,
    picks: Seq<Seq<u8>>,
) -> bool {
    &&& picks.len() <= limit
    &&& forall|r: int|
        0 <= r < picks.len() ==> is_best(program, entries, #[trigger] picks.take(r), picks[r])
    &&& picks.len() < limit ==> forall|k: int| !#[trigger] eligible(program, entries, picks, k)
}

/// `ranking` holds the `limit` names of `listing` that are closest to the
/// program, closest first: every name of it is listed and is not the program,
/// each is closer than the ones after it, and a listed name is left out only
/// when the ranking is full, and is then farther than all that are in it.
pub open spec fn is_ranking(
    program: Seq<u8>,
    listing: Seq<Seq<u8>>,
    limit: nat,
    ranking: Seq<Seq<u8>>,
) -> bool {
    &&& ranking.len() <= limit
    &&& forall|i: int|
        0 <= i < ranking.len() ==> listing.contains(#[trigger] ranking[i]) && ranking[i]
            != program
    &&& forall|i: int, j: int|
        0 <= i < j < ranking.len() ==> closer(program, #[trigger] ranking[i], #[trigger] ranking[j])
    &&& forall|k: int|
        0 <= k < listing.len() && #[trigger] listing[k] != program && !ranking.contains(listing[k])
            ==> ranking.len() == limit && (limit > 0 ==> closer(
            program,
            ranking.last(),
            listing[k],
        ))
}

/// The names that listing a path as a directory gave.
pub open spec fn names_in(facts: PathFacts) -> Seq<Seq<u8>> {
    match facts.entries {
        Some(names) => bytes::views(names@),
        None => Seq::empty(),
    }
}

/// All the names found in the search directories, directory by directory in
/// search order. A directory that could not be listed adds nothing.
pub open spec fn listing(dirs: Seq<Seq<u8>>, disk: Disk) -> Seq<Seq<u8>>
    decreases dirs.len(),
{
    if dirs.len() == 0 {
        Seq::empty()
    } else {
        listing(dirs.drop_last(), disk) + names_in(disk.facts_at(dirs.last()))
    }
}

/// What [`spelling`] returns for a program, the search directories `dirs`
/// and a limit: nothing when the limit is zero or no listed name differs
/// from the program, and otherwise the ranking of the listed names, which is
/// not empty.
pub open spec fn is_suggestion(
    program: Seq<u8>,
    dirs: Seq<Seq<u8>>,
    limit: nat,
    disk: Disk,
    suggested: Option<Seq<Seq<u8>>>,
) -> bool {
    match suggested {
        None => limit == 0 || forall|k: int|
            0 <= k < listing(dirs, disk).len() ==> #[trigger] listing(dirs, disk)[k] == program,
        Some(ranking) => {
            &&& ranking.len() > 0
            &&& is_ranking(program, listing(dirs, disk), limit, ranking)
        },
    }
}

/// Cross multiplication compares fractions: the comparisons chain.
proof fn lemma_fractions_chain(m1: int, s1: int, m2: int, s2: int, m3: int, s3: int)
    requires
        s1 > 0,
        s2 > 0,
        s3 > 0,
        m1 * s2 <= m2 * s1,
        m2 * s3 <= m3 * s2,
    ensures
        m1 * s3 <= m3 * s1,
        m1 * s2 < m2 * s1 || m2 * s3 < m3 * s2 ==> m1 * s3 < m3 * s1,
{
    assert((m1 * s2) * s3 <= (m2 * s1) * s3) by (nonlinear_arith)
        requires
            m1 * s2 <= m2 * s1,
            s3 > 0,
    ;
    assert((m2 * s3) * s1 <= (m3 * s2) * s1) by (nonlinear_arith)
        requires
            m2 * s3 <= m3 * s2,
            s1 > 0,
    ;
    assert((m1 * s2) * s3 == (m1 * s3) * s2) by (nonlinear_arith);
    assert((m2 * s1) * s3 == (m2 * s3) * s1) by (nonlinear_arith);
    assert((m3 * s2) * s1 == (m3 * s1) * s2) by (nonlinear_arith);
    assert(m1 * s3 <= m3 * s1) by (nonlinear_arith)
        requires
            (m1 * s3) * s2 <= (m3 * s1) * s2,
            s2 > 0,
    ;
    if m1 * s2 < m2 * s1 {
        assert((m1 * s2) * s3 < (m2 * s1) * s3) by (nonlinear_arith)
            requires
                m1 * s2 < m2 * s1,
                s3 > 0,
        ;
        assert(m1 * s3 < m3 * s1) by (nonlinear_arith)
            requires
                (m1 * s3) * s2 < (m3 * s1) * s2,
                s2 > 0,
        ;
    }
    if m2 * s3 < m3 * s2 {
        assert((m2 * s3) * s1 < (m3 * s2) * s1) by (nonlinear_arith)
            requires
                m2 * s3 < m3 * s2,
                s1 > 0,
        ;
        assert(m1 * s3 < m3 * s1) by (nonlinear_arith)
            requires
                (m1 * s3) * s2 < (m3 * s1) * s2,
                s2 > 0,
        ;
    }
}

/// Of two names at most one is ranked before the other.
pub proof fn lemma_ranked_before_asymmetric(
    da: int,
    la: int,
    a: Seq<u8>,
    db: int,
    lb: int,
    b: Seq<u8>,
)
    ensures
        !(ranked_before(da, la, a, db, lb, b) && ranked_before(db, lb, b, da, la, a)),
{
    bytes::lemma_precedes_asymmetric(a, b);
}

/// Two different names are never ranked alike: one is ranked before the
/// other.
pub proof fn lemma_ranked_before_total(
    da: int,
    la: int,
    a: Seq<u8>,
    db: int,
    lb: int,
    b: Seq<u8>,
)
    ensures
        a == b || ranked_before(da, la, a, db, lb, b) || ranked_before(db, lb, b, da, la, a),
{
    bytes::lemma_precedes_total(a, b);
}

/// The ranking order is transitive.
pub proof fn lemma_ranked_before_transitive(
    da: int,
    la: int,
    a: Seq<u8>,
    db: int,
    lb: int,
    b: Seq<u8>,
    dc: int,
    lc: int,
    c: Seq<u8>,
)
    requires
        ranked_before(da, la, a, db, lb, b),
        ranked_before(db, lb, b, dc, lc, c),
    ensures
        ranked_before(da, la, a, dc, lc, c),
{
    lemma_fractions_chain(
        miss(da, la),
        scale(la),
        miss(db, lb),
        scale(lb),
        miss(dc, lc),
        scale(lc),
    );
    if miss(da, la) * scale(lb) == miss(db, lb) * scale(la) && miss(db, lb) * scale(lc) == miss(
        dc,
        lc,
    ) * scale(lb) {
        lemma_fractions_chain(
            miss(dc, lc),
            scale(lc),
            miss(db, lb),
            scale(lb),
            miss(da, la),
            scale(la),
        );
        bytes::lemma_precedes_transitive(c, b, a);
    }
}

/// Whether the entry `a` is ranked before the entry `b`.
pub fn ranks_before(a: &Scored, b: &Scored) -> (before: bool)
    ensures
        before == outranks(*a, *b),
{
    let miss_a: u128 = if a.penalty.longest == 0 {
        0
    } else {
        a.penalty.distance as u128
    };
    let scale_a: u128 = if a.penalty.longest == 0 {
        1
    } else {
        a.penalty.longest as u128
    };
    let miss_b: u128 = if b.penalty.longest == 0 {
        0
    } else {
        b.penalty.distance as u128
    };
    let scale_b: u128 = if b.penalty.longest == 0 {
        1
    } else {
        b.penalty.longest as u128
    };
    assert(miss_a * scale_b <= 0xffff_ffff_ffff_ffff * 0xffff_ffff_ffff_ffff) by (nonlinear_arith)
        requires
            0 <= miss_a <= 0xffff_ffff_ffff_ffff,
            0 <= scale_b <= 0xffff_ffff_ffff_ffff,
    ;
    assert(miss_b * scale_a <= 0xffff_ffff_ffff_ffff * 0xffff_ffff_ffff_ffff) by (nonlinear_arith)
        requires
            0 <= miss_b <= 0xffff_ffff_ffff_ffff,
            0 <= scale_a <= 0xffff_ffff_ffff_ffff,
    ;
    let left: u128 = miss_a * scale_b;
    let right: u128 = miss_b * scale_a;
    if left < right {
        true
    } else if left == right {
        bytes::comes_before(b.name.as_slice(), a.name.as_slice())
    } else {
        false
    }
}

/// Whether `name` is among `names`.
pub fn holds(names: &Vec<Vec<u8>>, name: &[u8]) -> (found: bool)
    ensures
        found == bytes::views(names@).contains(name@),
{
    let mut i: usize = 0;
    while i < names.len()
        invariant
            i <= names.len(),
            forall|k: int| 0 <= k < i ==> bytes::views(names@)[k] != name@,
        decreases names.len() - i,
    {
        if bytes::same(names[i].as_slice(), name) {
            assert(bytes::views(names@)[i as int] == name@);
            return true;
        }
        i += 1;
    }
    false
}

/// Picks from `entries` the `limit` names that are ranked first, best first.
/// Entries that name the program are passed over, and a name is picked once
/// however often it is listed. Returns `None` when `limit` is zero or
/// nothing can be picked.
pub fn rank(program: &[u8], entries: &[Scored], limit: usize) -> (picks: Option<Vec<Vec<u8>>>)
    ensures
        picks is None <==> limit == 0 || forall|k: int|
            0 <= k < entries.len() ==> (#[trigger] entries[k]).name@ == program@,
        picks matches Some(names) ==> names.len() > 0 && is_selection(
            program@,
            entries@,
            limit as nat,
            bytes::views(names@),
        ),
{
    let mut chosen: Vec<Vec<u8>> = Vec::new();
    let mut exhausted = false;
    while chosen.len() < limit && !exhausted
        invariant
            chosen.len() <= limit,
            forall|r: int|
                0 <= r < chosen.len() ==> is_best(
                    program@,
                    entries@,
                    #[trigger] bytes::views(chosen@).take(r),
                    bytes::views(chosen@)[r],
                ),
            exhausted ==> forall|k: int|
                !#[trigger] eligible(program@, entries@, bytes::views(chosen@), k),
        decreases limit - chosen.len() + (if exhausted { 0int } else { 1int }),
    {
        let ghost taken = bytes::views(chosen@);
        let mut best: Option<usize> = None;
        let mut i: usize = 0;
        while i < entries.len()
            invariant
                i <= entries.len(),
                taken == bytes::views(chosen@),
                best matches Some(b) ==> b < i && eligible(program@, entries@, taken, b as int),
                forall|j: int|
                    0 <= j < i && #[trigger] eligible(program@, entries@, taken, j) ==> best
                        is Some && !outranks(entries[j], entries[best.unwrap() as int]),
            decreases entries.len() - i,
        {
            let entry = &entries[i];
            if !bytes::same(entry.name.as_slice(), program) && !holds(
                &chosen,
                entry.name.as_slice(),
            ) {
                match best {
                    None => {
                        best = Some(i);
                        proof {
                            lemma_ranked_before_asymmetric(
                                entry.penalty.distance as int,
                                entry.penalty.longest as int,
                                entry.name@,
                                entry.penalty.distance as int,
                                entry.penalty.longest as int,
                                entry.name@,
                            );
                        }
                    },
                    Some(b) => {
                        if ranks_before(entry, &entries[b]) {
                            proof {
                                let old_best = entries[b as int];
                                assert forall|j: int|
                                    0 <= j < i + 1 && #[trigger] eligible(
                                        program@,
                                        entries@,
                                        taken,
                                        j,
                                    ) implies !outranks(entries[j], *entry) by {
                                    if outranks(entries[j], *entry) {
                                        lemma_ranked_before_transitive(
                                            entries[j].penalty.distance as int,
                                            entries[j].penalty.longest as int,
                                            entries[j].name@,
                                            entry.penalty.distance as int,
                                            entry.penalty.longest as int,
                                            entry.name@,
                                            old_best.penalty.distance as int,
                                            old_best.penalty.longest as int,
                                            old_best.name@,
                                        );
                                        lemma_ranked_before_asymmetric(
                                            entry.penalty.distance as int,
                                            entry.penalty.longest as int,
                                            entry.name@,
                                            entry.penalty.distance as int,
                                            entry.penalty.longest as int,
                                            entry.name@,
                                        );
                                    }
                                }
                            }
                            best = Some(i);
                        }
                    },
                }
            }
            i += 1;
        }
        match best {
            None => {
                exhausted = true;
            },
            Some(b) => {
                let name = bytes::copy(entries[b].name.as_slice());
                chosen.push(name);
                proof {
                    let grown = bytes::views(chosen@);
                    assert(grown =~= taken.push(entries[b as int].name@));
                    assert(grown.take(taken.len() as int) =~= taken);
                    assert forall|r: int| 0 <= r < grown.len() implies is_best(
                        program@,
                        entries@,
                        #[trigger] grown.take(r),
                        grown[r],
                    ) by {
                        if r < taken.len() {
                            assert(grown.take(r) =~= taken.take(r));
                        } else {
                            assert(eligible(program@, entries@, taken, b as int));
                        }
                    }
                }
            },
        }
    }
    if chosen.len() == 0 {
        proof {
            if limit > 0 {
                assert forall|k: int| 0 <= k < entries.len() implies (#[trigger] entries[k]).name@
                    == program@ by {
                    assert(!eligible(program@, entries@, bytes::views(chosen@), k));
                }
            }
        }
        None
    } else {
        proof {
            let picks = bytes::views(chosen@);
            assert(is_best(program@, entries@, picks.take(0), picks[0]));
            let k = choose|k: int| #[trigger]
                eligible(program@, entries@, picks.take(0), k) && entries[k].name@ == picks[0];
            assert(entries[k].name@ != program@);
        }
        Some(chosen)
    }
}

/// The view of what [`spelling`] returns.
pub open spec fn suggestion_view(suggested: Option<Vec<Vec<u8>>>) -> Option<Seq<Seq<u8>>> {
    match suggested {
        Some(names) => Some(bytes::views(names@)),
        None => None,
    }
}

/// `entries` are the names of `listing`, in order, each with the penalty
/// that its distance from the program gives it.
pub open spec fn is_scored(program: Seq<u8>, listing: Seq<Seq<u8>>, entries: Seq<Scored>) -> bool {
    &&& entries.len() == listing.len()
    &&& forall|k: int|
        0 <= k < entries.len() ==> {
            &&& (#[trigger] entries[k]).name@ == listing[k]
            &&& entries[k].penalty.distance as int == distance_of(program, listing[k])
            &&& entries[k].penalty.longest as int == longest_of(program, listing[k])
        }
}

/// Picking the best entry again and again ranks the names: where every entry
/// carries the penalty of its name, the picks are the closest names, closest
/// first.
pub proof fn lemma_selection_is_ranking(
    program: Seq<u8>,
    listing: Seq<Seq<u8>>,
    entries: Seq<Scored>,
    limit: nat,
    picks: Seq<Seq<u8>>,
)
    requires
        is_scored(program, listing, entries),
        is_selection(program, entries, limit, picks),
    ensures
        is_ranking(program, listing, limit, picks),
{
    assert forall|i: int| 0 <= i < picks.len() implies listing.contains(#[trigger] picks[i])
        && picks[i] != program by {
        assert(is_best(program, entries, picks.take(i), picks[i]));
        let k = choose|k: int| #[trigger]
            eligible(program, entries, picks.take(i), k) && entries[k].name@ == picks[i];
        assert(listing[k] == picks[i]);
    }
    assert forall|i: int, j: int| 0 <= i < j < picks.len() implies closer(
        program,
        #[trigger] picks[i],
        #[trigger] picks[j],
    ) by {
        assert(is_best(program, entries, picks.take(i), picks[i]));
        let ki = choose|k: int|
            {
                &&& #[trigger] eligible(program, entries, picks.take(i), k)
                &&& entries[k].name@ == picks[i]
                &&& forall|j: int| #[trigger]
                    eligible(program, entries, picks.take(i), j) ==> !outranks(
                        entries[j],
                        entries[k],
                    )
            };
        assert(is_best(program, entries, picks.take(j), picks[j]));
        let kj = choose|k: int| #[trigger]
            eligible(program, entries, picks.take(j), k) && entries[k].name@ == picks[j];
        assert(picks.take(j)[i] == picks[i]);
        assert(picks[i] != picks[j]);
        assert(!picks.take(i).contains(picks[j])) by {
            if picks.take(i).contains(picks[j]) {
                let at = choose|at: int| 0 <= at < i && picks.take(i)[at] == picks[j];
                assert(picks.take(j)[at] == picks[j]);
            }
        }
        assert(eligible(program, entries, picks.take(i), kj));
        lemma_ranked_before_total(
            distance_of(program, picks[i]),
            longest_of(program, picks[i]),
            picks[i],
            distance_of(program, picks[j]),
            longest_of(program, picks[j]),
            picks[j],
        );
    }
    assert forall|k: int|
        0 <= k < listing.len() && #[trigger] listing[k] != program && !picks.contains(
            listing[k],
        ) implies picks.len() == limit && (limit > 0 ==> closer(
        program,
        picks.last(),
        listing[k],
    )) by {
        assert(entries[k].name@ == listing[k]);
        assert(eligible(program, entries, picks, k));
        if limit > 0 {
        let last = picks.len() - 1;
        assert(is_best(program, entries, picks.take(last), picks[last]));
        let kl = choose|kl: int|
            {
                &&& #[trigger] eligible(program, entries, picks.take(last), kl)
                &&& entries[kl].name@ == picks[last]
                &&& forall|j: int| #[trigger]
                    eligible(program, entries, picks.take(last), j) ==> !outranks(
                        entries[j],
                        entries[kl],
                    )
            };
        assert(!picks.take(last).contains(listing[k])) by {
            if picks.take(last).contains(listing[k]) {
                let at = choose|at: int| 0 <= at < last && picks.take(last)[at] == listing[k];
                assert(picks.take(last)[at] == picks[at]);
            }
        }
        assert(eligible(program, entries, picks.take(last), k));
        assert(picks[last] != listing[k]);
        lemma_ranked_before_total(
            distance_of(program, picks[last]),
            longest_of(program, picks[last]),
            picks[last],
            distance_of(program, listing[k]),
            longest_of(program, listing[k]),
            listing[k],
        );
        }
    }
}

/// In a ranking no name occurs twice.
pub proof fn lemma_ranking_has_no_duplicates(
    program: Seq<u8>,
    listing: Seq<Seq<u8>>,
    limit: nat,
    ranking: Seq<Seq<u8>>,
)
    requires
        is_ranking(program, listing, limit, ranking),
    ensures
        ranking.no_duplicates(),
{
    assert forall|i: int, j: int| 0 <= i < ranking.len() && 0 <= j < ranking.len() && i != j implies ranking[i]
        != ranking[j] by {
        lemma_ranked_before_asymmetric(
            distance_of(program, ranking[i]),
            longest_of(program, ranking[i]),
            ranking[i],
            distance_of(program, ranking[j]),
            longest_of(program, ranking[j]),
            ranking[j],
        );
        if i < j {
            assert(closer(program, ranking[i], ranking[j]));
        } else {
            assert(closer(program, ranking[j], ranking[i]));
        }
    }
}

/// In two rankings of the same names a name never stands in the place of
/// one that is farther from the program.
proof fn lemma_rankings_agree_at(
    program: Seq<u8>,
    listing: Seq<Seq<u8>>,
    limit: nat,
    a: Seq<Seq<u8>>,
    b: Seq<Seq<u8>>,
    i: int,
)
    requires
        is_ranking(program, listing, limit, a),
        is_ranking(program, listing, limit, b),
        0 <= i < a.len(),
        i < b.len(),
        forall|j: int| 0 <= j < i ==> a[j] == b[j],
    ensures
        !closer(program, a[i], b[i]),
{
    let x = a[i];
    let y = b[i];
    if closer(program, x, y) {
        lemma_ranked_before_asymmetric(
            distance_of(program, x),
            longest_of(program, x),
            x,
            distance_of(program, y),
            longest_of(program, y),
            y,
        );
        lemma_ranked_before_asymmetric(
            distance_of(program, x),
            longest_of(program, x),
            x,
            distance_of(program, x),
            longest_of(program, x),
            x,
        );
        assert(listing.contains(x) && x != program);
        if b.contains(x) {
            let j = choose|j: int| 0 <= j < b.len() && b[j] == x;
            if j < i {
                assert(closer(program, a[j], a[i]));
            } else if j > i {
                assert(closer(program, b[i], b[j]));
            }
        } else {
            let k = choose|k: int| 0 <= k < listing.len() && listing[k] == x;
            assert(listing[k] != program && !b.contains(listing[k]));
            assert(closer(program, b.last(), x));
            if i < b.len() - 1 {
                assert(closer(program, b[i], b[b.len() - 1]));
                lemma_ranked_before_transitive(
                    distance_of(program, y),
                    longest_of(program, y),
                    y,
                    distance_of(program, b.last()),
                    longest_of(program, b.last()),
                    b.last(),
                    distance_of(program, x),
                    longest_of(program, x),
                    x,
                );
            }
        }
    }
}

/// Two rankings of the same names hold the same names in their first `upto`
/// places.
proof fn lemma_rankings_share_prefix(
    program: Seq<u8>,
    listing: Seq<Seq<u8>>,
    limit: nat,
    a: Seq<Seq<u8>>,
    b: Seq<Seq<u8>>,
    upto: int,
)
    requires
        is_ranking(program, listing, limit, a),
        is_ranking(program, listing, limit, b),
        0 <= upto <= a.len(),
        upto <= b.len(),
    ensures
        forall|j: int| 0 <= j < upto ==> a[j] == b[j],
    decreases upto,
{
    if upto > 0 {
        let i = upto - 1;
        lemma_rankings_share_prefix(program, listing, limit, a, b, i);
        lemma_ranked_before_total(
            distance_of(program, a[i]),
            longest_of(program, a[i]),
            a[i],
            distance_of(program, b[i]),
            longest_of(program, b[i]),
            b[i],
        );
        lemma_rankings_agree_at(program, listing, limit, a, b, i);
        lemma_rankings_agree_at(program, listing, limit, b, a, i);
    }
}

/// A ranking is no longer than another ranking of the same names.
proof fn lemma_ranking_is_no_longer(
    program: Seq<u8>,
    listing: Seq<Seq<u8>>,
    limit: nat,
    a: Seq<Seq<u8>>,
    b: Seq<Seq<u8>>,
)
    requires
        is_ranking(program, listing, limit, a),
        is_ranking(program, listing, limit, b),
    ensures
        b.len() <= a.len(),
{
    if a.len() < b.len() {
        let n = a.len() as int;
        lemma_rankings_share_prefix(program, listing, limit, a, b, n);
        let y = b[n];
        assert(listing.contains(y) && y != program);
        if a.contains(y) {
            let j = choose|j: int| 0 <= j < a.len() && a[j] == y;
            assert(closer(program, b[j], b[n]));
            lemma_ranked_before_asymmetric(
                distance_of(program, y),
                longest_of(program, y),
                y,
                distance_of(program, y),
                longest_of(program, y),
                y,
            );
        } else {
            let k = choose|k: int| 0 <= k < listing.len() && listing[k] == y;
            assert(listing[k] != program && !a.contains(listing[k]));
        }
    }
}

/// The names that are listed, the program and the limit determine the
/// ranking: there is only one.
pub proof fn lemma_ranking_is_unique(
    program: Seq<u8>,
    listing: Seq<Seq<u8>>,
    limit: nat,
    a: Seq<Seq<u8>>,
    b: Seq<Seq<u8>>,
)
    requires
        is_ranking(program, listing, limit, a),
        is_ranking(program, listing, limit, b),
    ensures
        a == b,
{
    lemma_ranking_is_no_longer(program, listing, limit, a, b);
    lemma_ranking_is_no_longer(program, listing, limit, b, a);
    lemma_rankings_share_prefix(program, listing, limit, a, b, a.len() as int);
    assert(a =~= b);
}

/// A ranking depends on which names are listed, not on where or how often:
/// it is the ranking of every listing that holds the same names.
pub proof fn lemma_ranking_ignores_listing_order(
    program: Seq<u8>,
    listing: Seq<Seq<u8>>,
    other: Seq<Seq<u8>>,
    limit: nat,
    ranking: Seq<Seq<u8>>,
)
    requires
        is_ranking(program, listing, limit, ranking),
        forall|name: Seq<u8>| listing.contains(name) <==> other.contains(name),
    ensures
        is_ranking(program, other, limit, ranking),
{
    assert forall|k: int|
        0 <= k < other.len() && #[trigger] other[k] != program && !ranking.contains(
            other[k],
        ) implies ranking.len() == limit && (limit > 0 ==> closer(
        program,
        ranking.last(),
        other[k],
    )) by {
        assert(other.contains(other[k]));
        let at = choose|at: int| 0 <= at < listing.len() && listing[at] == other[k];
        assert(listing[at] != program && !ranking.contains(listing[at]));
    }
}

/// What is suggested is never the program itself, never more than was asked
/// for, never a name twice, and nothing at all when nothing was asked for.
pub proof fn lemma_suggestions_are_sound(
    program: Seq<u8>,
    dirs: Seq<Seq<u8>>,
    limit: nat,
    disk: Disk,
    suggested: Option<Seq<Seq<u8>>>,
)
    requires
        is_suggestion(program, dirs, limit, disk, suggested),
    ensures
        limit == 0 ==> suggested is None,
        suggested matches Some(names) ==> {
            &&& names.len() <= limit
            &&& !names.contains(program)
            &&& names.no_duplicates()
        },
{
    if let Some(names) = suggested {
        lemma_ranking_has_no_duplicates(program, listing(dirs, disk), limit, names);
    }
}

/// Whatever the limit, the suggestions for two limits agree as far as the
/// shorter goes: a larger limit only adds names at the end.
pub proof fn lemma_larger_limit_extends(
    program: Seq<u8>,
    listing: Seq<Seq<u8>>,
    small: nat,
    large: nat,
    a: Seq<Seq<u8>>,
    b: Seq<Seq<u8>>,
)
    requires
        small <= large,
        is_ranking(program, listing, small, a),
        is_ranking(program, listing, large, b),
    ensures
        a.len() <= b.len(),
        a == b.take(a.len() as int),
{
    let cut = if b.len() <= small {
        b
    } else {
        b.take(small as int)
    };
    assert(is_ranking(program, listing, small, cut)) by {
        if b.len() > small {
            assert forall|k: int|
                0 <= k < listing.len() && #[trigger] listing[k] != program && !cut.contains(
                    listing[k],
                ) implies cut.len() == small && (small > 0 ==> closer(
                program,
                cut.last(),
                listing[k],
            )) by {
                if small > 0 {
                    let last = cut.last();
                    assert(last == b[small - 1]);
                    lemma_ranked_before_total(
                        distance_of(program, last),
                        longest_of(program, last),
                        last,
                        distance_of(program, listing[k]),
                        longest_of(program, listing[k]),
                        listing[k],
                    );
                    assert(cut[small - 1] == last);
                    if b.contains(listing[k]) {
                        let j = choose|j: int| 0 <= j < b.len() && b[j] == listing[k];
                        if j < small {
                            assert(cut[j] == listing[k]);
                        }
                        assert(closer(program, b[small - 1], b[j]));
                    } else {
                        assert(closer(program, b.last(), listing[k]));
                        if small < b.len() {
                            assert(closer(program, b[small - 1], b[b.len() - 1]));
                            lemma_ranked_before_transitive(
                                distance_of(program, last),
                                longest_of(program, last),
                                last,
                                distance_of(program, b.last()),
                                longest_of(program, b.last()),
                                b.last(),
                                distance_of(program, listing[k]),
                                longest_of(program, listing[k]),
                                listing[k],
                            );
                        }
                    }
                }
            }
            assert forall|i: int| 0 <= i < cut.len() implies listing.contains(#[trigger] cut[i])
                && cut[i] != program by {
                assert(cut[i] == b[i]);
            }
            assert forall|i: int, j: int| 0 <= i < j < cut.len() implies closer(
                program,
                #[trigger] cut[i],
                #[trigger] cut[j],
            ) by {
                assert(cut[i] == b[i] && cut[j] == b[j]);
            }
        } else {
            assert forall|k: int|
                0 <= k < listing.len() && #[trigger] listing[k] != program && !cut.contains(
                    listing[k],
                ) implies cut.len() == small && (small > 0 ==> closer(
                program,
                cut.last(),
                listing[k],
            )) by {
                assert(b.len() == large);
            }
        }
    }
    lemma_ranking_is_unique(program, listing, small, a, cut);
    if b.len() <= small {
        assert(b.take(b.len() as int) =~= b);
    }
}

/// The penalty of `name` against the program, whose text is `program_text`.
fn score(program_text: &str, name: &[u8]) -> (penalty: Penalty)
    ensures
        penalty.distance as nat == edit_distance(program_text@, lossy_text(name@)),
        penalty.longest as nat == if program_text@.len() >= lossy_text(name@).len() {
            program_text@.len()
        } else {
            lossy_text(name@).len()
        },
{
    let text = lossy(name);
    let distance = strsim::levenshtein(program_text, text.as_str());
    let program_length = program_text.unicode_len();
    let name_length = text.as_str().unicode_len();
    let longest = if program_length >= name_length {
        program_length
    } else {
        name_length
    };
    Penalty { distance, longest }
}

/// The names found in the search directories, directory by directory in
/// search order.
pub fn names_on_path(parts: &[PathPart], disk: &Disk) -> (names: Vec<Vec<u8>>)
    ensures
        bytes::views(names@) == listing(absolutes(part_views(parts@)), *disk),
{
    let mut names: Vec<Vec<u8>> = Vec::new();
    let mut i: usize = 0;
    assert(absolutes(part_views(parts@)).take(0) =~= Seq::<Seq<u8>>::empty());
    while i < parts.len()
        invariant
            i <= parts.len(),
            bytes::views(names@) == listing(
                absolutes(part_views(parts@)).take(i as int),
                *disk,
            ),
        decreases parts.len() - i,
    {
        let ghost before = bytes::views(names@);
        let ghost dirs = absolutes(part_views(parts@));
        assert(dirs.take(i + 1).drop_last() =~= dirs.take(i as int));
        assert(dirs.take(i + 1).last() == parts@[i as int].absolute@);
        if let Some(facts) = disk.lookup(parts[i].absolute.as_slice()) {
            if let Some(found) = &facts.entries {
                let mut k: usize = 0;
                while k < found.len()
                    invariant
                        k <= found.len(),
                        bytes::views(names@) == before + bytes::views(found@).take(k as int),
                    decreases found.len() - k,
                {
                    let ghost so_far = bytes::views(names@);
                    names.push(bytes::copy(found[k].as_slice()));
                    assert(bytes::views(names@) =~= so_far.push(found[k as int]@));
                    k += 1;
                    assert(bytes::views(names@) =~= before + bytes::views(found@).take(k as int));
                }
                assert(bytes::views(found@).take(found.len() as int) =~= bytes::views(found@));
            } else {
                assert(bytes::views(names@) =~= before + Seq::<Seq<u8>>::empty());
            }
        } else {
            assert(bytes::views(names@) =~= before + Seq::<Seq<u8>>::empty());
        }
        i += 1;
    }
    assert(absolutes(part_views(parts@)).take(parts.len() as int) =~= absolutes(
        part_views(parts@),
    ));
    names
}

/// Find the closest match(es) to the given program name as suggestions
///
/// Takes all the names that the snapshot lists for the search directories and
/// ranks them by their distance from `program`.
///
/// The top `guess_limit` results will be returned.
///
/// If no results are found, or `guess_limit` is zero, then `None` will be
/// returned, and in the latter case without a look at the snapshot.
pub fn spelling(program: &[u8], parts: &[PathPart], guess_limit: usize, disk: &Disk) -> (suggested:
    Option<Vec<Vec<u8>>>)
    ensures
        guess_limit == 0 ==> suggested is None,
        suggested is None <==> guess_limit == 0 || forall|k: int|
            0 <= k < listing(absolutes(part_views(parts@)), *disk).len() ==> #[trigger] listing(
                absolutes(part_views(parts@)),
                *disk,
            )[k] == program@,
        is_suggestion(
            program@,
            absolutes(part_views(parts@)),
            guess_limit as nat,
            *disk,
            suggestion_view(suggested),
        ),
        suggested matches Some(names) ==> {
            &&& names.len() <= guess_limit
            &&& bytes::views(names@).no_duplicates()
            &&& !bytes::views(names@).contains(program@)
        },
{
    if guess_limit == 0 {
        return None;
    }
    let names = names_on_path(parts, disk);
    let program_text = lossy(program);
    let mut entries: Vec<Scored> = Vec::new();
    let mut i: usize = 0;
    while i < names.len()
        invariant
            i <= names.len(),
            program_text@ == lossy_text(program@),
            is_scored(program@, bytes::views(names@).take(i as int), entries@),
        decreases names.len() - i,
    {
        let penalty = score(program_text.as_str(), names[i].as_slice());
        entries.push(Scored { name: bytes::copy(names[i].as_slice()), penalty });
        i += 1;
    }
    assert(bytes::views(names@).take(names.len() as int) =~= bytes::views(names@));
    let suggested = rank(program, entries.as_slice(), guess_limit);
    proof {
        let all = listing(absolutes(part_views(parts@)), *disk);
        if suggested is Some {
            let picks = bytes::views(suggested->0@);
            lemma_selection_is_ranking(program@, all, entries@, guess_limit as nat, picks);
            lemma_ranking_has_no_duplicates(program@, all, guess_limit as nat, picks);
        } else {
            assert forall|k: int| 0 <= k < all.len() implies #[trigger] all[k] == program@ by {
                assert(entries@[k].name@ == program@);
            }
        }
        if forall|k: int| 0 <= k < all.len() ==> #[trigger] all[k] == program@ {
            assert forall|k: int| 0 <= k < entries.len() implies (#[trigger] entries@[k]).name@
                == program@ by {
                assert(all[k] == program@);
            }
        }
    }
    suggested
}

} // verus!
