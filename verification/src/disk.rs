//! What was observed on disk, as plain values.
use crate::bytes;
use vstd::prelude::*;

verus! {

/// The answers the operating system gave about one path.
///
/// Each field records the answer to one question, exactly as it was given;
/// no field is derived from another. A path nothing is known about has the
/// facts of [`PathFacts::unknown`].
#[derive(Debug, PartialEq, Eq)]
pub struct PathFacts {
    /// The path itself is a symbolic link.
    pub is_symlink: bool,
    /// What was observed at the canonical form of the path, when the path is
    /// a symbolic link that could be resolved.
    pub resolved: Option<Box<PathFacts>>,
    /// Something exists at the path, symbolic links followed.
    pub exists: bool,
    /// The path leads to a directory, symbolic links followed.
    pub is_dir: bool,
    /// The path leads to a regular file that may be executed.
    pub is_executable: bool,
    /// The file names read when the path was listed as a directory, or `None`
    /// when listing it failed.
    pub entries: Option<Vec<Vec<u8>>>,
}

impl PathFacts {
    /// The facts of a path about which nothing was observed.
    pub open spec fn spec_unknown() -> PathFacts {
        PathFacts {
            is_symlink: false,
            resolved: None,
            exists: false,
            is_dir: false,
            is_executable: false,
            entries: None,
        }
    }

    /// The facts of a path about which nothing was observed: every answer is
    /// "no".
    #[verifier::when_used_as_spec(spec_unknown)]
    pub fn unknown() -> (facts: PathFacts)
        ensures
            facts == PathFacts::spec_unknown(),
    {
        PathFacts {
            is_symlink: false,
            resolved: None,
            exists: false,
            is_dir: false,
            is_executable: false,
            entries: None,
        }
    }
}

/// One observation: a path and what was found there.
#[derive(Debug, PartialEq, Eq)]
pub struct Record {
    pub path: Vec<u8>,
    pub facts: PathFacts,
}

/// The map that a list of records stands for: a later record of a path
/// replaces an earlier one.
pub open spec fn recorded(records: Seq<Record>) -> Map<Seq<u8>, PathFacts>
    decreases records.len(),
{
    if records.len() == 0 {
        Map::empty()
    } else {
        recorded(records.drop_last()).insert(records.last().path@, records.last().facts)
    }
}

/// A record of `path` that no later record replaces is what the map holds.
proof fn lemma_last_record_wins(records: Seq<Record>, path: Seq<u8>, at: int)
    requires
        0 <= at < records.len(),
        records[at].path@ == path,
        forall|later: int| at < later < records.len() ==> records[later].path@ != path,
    ensures
        recorded(records).contains_key(path),
        recorded(records)[path] == records[at].facts,
    decreases records.len(),
{
    if at < records.len() - 1 {
        lemma_last_record_wins(records.drop_last(), path, at);
    }
}

/// A path that no record names is not in the map.
proof fn lemma_unrecorded(records: Seq<Record>, path: Seq<u8>)
    requires
        forall|at: int| 0 <= at < records.len() ==> records[at].path@ != path,
    ensures
        !recorded(records).contains_key(path),
    decreases records.len(),
{
    if records.len() > 0 {
        lemma_unrecorded(records.drop_last(), path);
    }
}

/// A snapshot of the file system: what was observed at each path that was
/// looked at. Nothing is observed again later; every classification is made
/// from the snapshot.
#[derive(Debug, PartialEq, Eq)]
pub struct Disk {
    records: Vec<Record>,
}

impl View for Disk {
    type V = Map<Seq<u8>, PathFacts>;

    closed spec fn view(&self) -> Map<Seq<u8>, PathFacts> {
        recorded(self.records@)
    }
}

impl Disk {
    /// The facts known about `path`: those recorded for it, or those of an
    /// unknown path when nothing was recorded.
    pub open spec fn facts_at(&self, path: Seq<u8>) -> PathFacts {
        if self@.contains_key(path) {
            self@[path]
        } else {
            PathFacts::unknown()
        }
    }

    /// A snapshot in which nothing has been observed.
    pub fn new() -> (disk: Disk)
        ensures
            disk@ == Map::<Seq<u8>, PathFacts>::empty(),
    {
        Disk { records: Vec::new() }
    }

    /// Records what was observed at `path`, replacing what was recorded for
    /// it before.
    pub fn record(&mut self, path: Vec<u8>, facts: PathFacts)
        ensures
            final(self)@ == old(self)@.insert(path@, facts),
    {
        let ghost before = self.records@;
        self.records.push(Record { path, facts });
        assert(self.records@.drop_last() =~= before);
    }

    /// What was recorded for `path`, if anything was.
    pub fn lookup(&self, path: &[u8]) -> (found: Option<&PathFacts>)
        ensures
            found is Some <==> self@.contains_key(path@),
            found matches Some(facts) ==> *facts == self@[path@],
            found matches Some(facts) ==> *facts == self.facts_at(path@),
            found is None ==> self.facts_at(path@) == PathFacts::unknown(),
    {
        let mut i: usize = self.records.len();
        while i > 0
            invariant
                i <= self.records.len(),
                forall|later: int| i <= later < self.records.len() ==> self.records[later].path@ != path@,
            decreases i,
        {
            i -= 1;
            if bytes::same(self.records[i].path.as_slice(), path) {
                proof {
                    lemma_last_record_wins(self.records@, path@, i as int);
                }
                return Some(&self.records[i].facts);
            }
        }
        proof {
            lemma_unrecorded(self.records@, path@);
        }
        None
    }
}

} // verus!
