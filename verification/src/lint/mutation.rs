//! The outcome of each mutant of a mutation-testing run, and counts over them.

use vstd::prelude::*;

verus! {

/// What happened to a mutant.
#[derive(Debug, Clone, Copy, PartialEq, Eq, Hash, Structural)]
pub enum MutationStatus {
    Caught,
    Survived,
    Timeout,
    Unviable,
    Skipped,
}

impl MutationStatus {
    /// Every status, once each.
    pub const ALL: [MutationStatus; 5] = [
        MutationStatus::Caught,
        MutationStatus::Survived,
        MutationStatus::Timeout,
        MutationStatus::Unviable,
        MutationStatus::Skipped,
    ];
}

/// Where a mutant was applied.
#[derive(Debug, Clone, PartialEq, Eq)]
pub struct SourceLocation {
    pub file: String,
    pub line: usize,
    pub column: usize,
}

/// One mutant: what it replaced with what, and its outcome.
#[derive(Debug, Clone, PartialEq, Eq)]
pub struct Mutation {
    pub id: usize,
    pub location: SourceLocation,
    pub status: MutationStatus,
    pub original: String,
    pub replacement: String,
}

/// The mutants of one run.
#[derive(Debug)]
pub struct MutationSet {
    pub mutations: Vec<Mutation>,
}

/// The number of mutants in `ms` with status `st`.
pub open spec fn count_status(ms: Seq<Mutation>, st: MutationStatus) -> nat
    decreases ms.len(),
{
    if ms.len() == 0 {
        0
    } else {
        count_status(ms.drop_last(), st) + if ms.last().status == st { 1nat } else { 0nat }
    }
}

/// The mutants of `ms` with status `st`, in order.
pub open spec fn with_status(ms: Seq<Mutation>, st: MutationStatus) -> Seq<Mutation> {
    ms.filter(|m: Mutation| m.status == st)
}

/// No two mutants share an id.
pub open spec fn ids_distinct(ms: Seq<Mutation>) -> bool {
    forall|i: int, j: int| 0 <= i < j < ms.len() ==> (#[trigger] ms[i]).id != (#[trigger] ms[j]).id
}

/// The counts of the five statuses add up to the number of mutants.
pub proof fn law_status_counts_sum(ms: Seq<Mutation>)
    ensures
        count_status(ms, MutationStatus::Caught) + count_status(ms, MutationStatus::Survived)
            + count_status(ms, MutationStatus::Timeout) + count_status(ms, MutationStatus::Unviable)
            + count_status(ms, MutationStatus::Skipped) == ms.len(),
    decreases ms.len(),
{
    if ms.len() > 0 {
        law_status_counts_sum(ms.drop_last());
    }
}

/// Each count is the length of the list of mutants with that status.
pub proof fn lemma_count_is_filter_len(ms: Seq<Mutation>, st: MutationStatus)
    ensures
        count_status(ms, st) == with_status(ms, st).len(),
    decreases ms.len(),
{
    reveal(Seq::filter);
    if ms.len() > 0 {
        lemma_count_is_filter_len(ms.drop_last(), st);
    }
}

/// The surviving mutants are mutants of the set, and there are no more of them than mutants.
pub proof fn law_surviving_subset(ms: Seq<Mutation>)
    ensures
        with_status(ms, MutationStatus::Survived).len() <= ms.len(),
        forall|i: int| 0 <= i < with_status(ms, MutationStatus::Survived).len()
            ==> ms.contains(#[trigger] with_status(ms, MutationStatus::Survived)[i]),
{
    lemma_count_is_filter_len(ms, MutationStatus::Survived);
    law_status_counts_sum(ms);
    let s = with_status(ms, MutationStatus::Survived);
    assert forall|i: int| 0 <= i < s.len() implies ms.contains(#[trigger] s[i]) by {
        ms.lemma_filter_contains_rev(|m: Mutation| m.status == MutationStatus::Survived, s[i]);
    }
}

impl MutationSet {
    /// The number of mutants with the given status.
    pub fn count_by_status(&self, status: &MutationStatus) -> (r: usize)
        ensures
            r == count_status(self.mutations@, *status),
    {
        let mut n: usize = 0;
        for i in 0..self.mutations.len()
            invariant
                n == count_status(self.mutations@.take(i as int), *status),
                n <= i,
        {
            proof { assert(self.mutations@.take(i + 1).drop_last() =~= self.mutations@.take(i as int)); }
            if self.mutations[i].status == *status {
                n = n + 1;
            }
        }
        proof { assert(self.mutations@.take(self.mutations@.len() as int) =~= self.mutations@); }
        n
    }

    /// The number of mutants.
    pub fn total(&self) -> (r: usize)
        ensures
            r == self.mutations@.len(),
    {
        self.mutations.len()
    }

    /// The mutants that survived, in order.
    pub fn surviving(&self) -> (r: Vec<&Mutation>)
        ensures
            r@.map_values(|m: &Mutation| *m) == with_status(self.mutations@, MutationStatus::Survived),
    {
        let mut r: Vec<&Mutation> = Vec::new();
        for i in 0..self.mutations.len()
            invariant
                r@.map_values(|m: &Mutation| *m) == with_status(self.mutations@.take(i as int), MutationStatus::Survived),
        {
            proof {
                reveal(Seq::filter);
                assert(self.mutations@.take(i + 1).drop_last() =~= self.mutations@.take(i as int));
            }
            let ghost before = r@;
            if self.mutations[i].status == MutationStatus::Survived {
                r.push(&self.mutations[i]);
                proof {
                    assert(r@.map_values(|m: &Mutation| *m) =~= before.map_values(|m: &Mutation| *m).push(self.mutations@[i as int]));
                }
            }
        }
        proof { assert(self.mutations@.take(self.mutations@.len() as int) =~= self.mutations@); }
        r
    }

    /// Whether the counts of all statuses add up to the number of mutants; they always do.
    pub fn count_invariant_holds(&self) -> (r: bool)
        ensures
            r,
    {
        let caught = self.count_by_status(&MutationStatus::Caught);
        let survived = self.count_by_status(&MutationStatus::Survived);
        let timeout = self.count_by_status(&MutationStatus::Timeout);
        let unviable = self.count_by_status(&MutationStatus::Unviable);
        let skipped = self.count_by_status(&MutationStatus::Skipped);
        let total = self.total();
        proof {
            law_status_counts_sum(self.mutations@);
        }
        let a = caught + survived;
        let b = a + timeout;
        let c = b + unviable;
        let d = c + skipped;
        d == total
    }

    /// Whether no two mutants share an id.
    pub fn no_double_count(&self) -> (r: bool)
        ensures
            r == ids_distinct(self.mutations@),
    {
        let mut seen: std::collections::HashSet<usize> = std::collections::HashSet::new();
        proof {
            broadcast use vstd::std_specs::hash::group_hash_axioms;
        }
        for i in 0..self.mutations.len()
            invariant
                vstd::std_specs::hash::obeys_key_model::<usize>(),
                vstd::std_specs::hash::builds_valid_hashers::<std::hash::RandomState>(),
                ids_distinct(self.mutations@.take(i as int)),
                forall|x: usize| seen@.contains(x) <==> exists|k: int| 0 <= k < i && (#[trigger] self.mutations@[k]).id == x,
        {
            let id = self.mutations[i].id;
            if seen.contains(&id) {
                proof {
                    let k = choose|k: int| 0 <= k < i && (#[trigger] self.mutations@[k]).id == id;
                    assert(self.mutations@[k].id == self.mutations@[i as int].id);
                }
                return false;
            }
            seen.insert(id);
            proof {
                let t = self.mutations@.take(i + 1);
                assert forall|a: int, b: int| 0 <= a < b < t.len() implies (#[trigger] t[a]).id != (#[trigger] t[b]).id by {
                    if b == i {
                        assert(t[a] == self.mutations@[a]);
                        assert(!seen@.contains(id) || true);
                    } else {
                        assert(t[a] == self.mutations@.take(i as int)[a]);
                        assert(t[b] == self.mutations@.take(i as int)[b]);
                    }
                }
                assert forall|x: usize| seen@.contains(x) implies exists|k: int| 0 <= k < i + 1 && (#[trigger] self.mutations@[k]).id == x by {
                    if x == id { assert(self.mutations@[i as int].id == x); }
                }
            }
        }
        proof { assert(self.mutations@.take(self.mutations@.len() as int) =~= self.mutations@); }
        true
    }
}

} // verus!
