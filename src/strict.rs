//! Bookkeeping for strict mode: which configured names and patterns caused a
//! removal, which files were shortened, and whether an annotation was removed.

use vstd::prelude::*;
use crate::names::NameSet;
use crate::matching::{MatchCause, simple_name, simple_name_of};
use crate::bytes::to_owned_bytes;

verus! {

/// What strict mode has seen so far: the configured simple names that caused a
/// match, one flag per configured pattern, one flag per input file, and
/// whether any annotation was removed.
pub struct StrictMode {
    pub any_annotation_removed: bool,
    pub patterns_matched: Vec<bool>,
    pub names_matched: NameSet,
    pub files_truncated: Vec<bool>,
}

/// The match causes recorded so far: simple names, and flags by pattern index.
pub type Hits = (Set<Seq<u8>>, Seq<bool>);

/// `hits` after the match of `tested` for `cause`: a configured name records
/// the tested name's simple name, a pattern sets its flag (when it has one).
pub open spec fn record_cause(hits: Hits, tested: Seq<u8>, cause: MatchCause) -> Hits {
    match cause {
        MatchCause::Name => (hits.0.insert(simple_name(tested)), hits.1),
        MatchCause::Alias => hits,
        MatchCause::Pattern(i) => (
            hits.0,
            if i < hits.1.len() {
                hits.1.update(i as int, true)
            } else {
                hits.1
            },
        ),
    }
}

/// No hits recorded.
pub open spec fn no_hits() -> Hits {
    (Set::empty(), Seq::empty())
}

/// A sequence of `n` false flags.
pub open spec fn all_false(n: nat) -> Seq<bool> {
    Seq::new(n, |i: int| false)
}

impl StrictMode {
    /// Nothing seen yet, for `pattern_count` patterns and `file_count` files.
    pub fn new(pattern_count: usize, file_count: usize) -> (r: StrictMode)
        ensures
            !r.any_annotation_removed,
            r.patterns_matched@ == all_false(pattern_count as nat),
            r.names_matched@ == Set::<Seq<u8>>::empty(),
            r.files_truncated@ == all_false(file_count as nat),
    {
        let mut patterns_matched: Vec<bool> = Vec::new();
        let mut i: usize = 0;
        while i < pattern_count
            invariant
                i <= pattern_count,
                patterns_matched@ == all_false(i as nat),
            decreases pattern_count - i,
        {
            patterns_matched.push(false);
            i = i + 1;
            assert(patterns_matched@ =~= all_false(i as nat));
        }
        let mut files_truncated: Vec<bool> = Vec::new();
        let mut j: usize = 0;
        while j < file_count
            invariant
                j <= file_count,
                files_truncated@ == all_false(j as nat),
            decreases file_count - j,
        {
            files_truncated.push(false);
            j = j + 1;
            assert(files_truncated@ =~= all_false(j as nat));
        }
        StrictMode {
            any_annotation_removed: false,
            patterns_matched,
            names_matched: NameSet::new(),
            files_truncated,
        }
    }

    /// The match causes recorded so far.
    pub open spec fn hits(&self) -> Hits {
        (self.names_matched@, self.patterns_matched@)
    }

    /// Records that `tested` matched for `cause`.
    pub fn note(&mut self, tested: &[u8], cause: MatchCause)
        ensures
            final(self).hits() == record_cause(old(self).hits(), tested@, cause),
            final(self).any_annotation_removed == old(self).any_annotation_removed,
            final(self).files_truncated@ == old(self).files_truncated@,
    {
        match cause {
            MatchCause::Name => {
                let simple = simple_name_of(tested);
                self.names_matched.insert(to_owned_bytes(simple));
            },
            MatchCause::Alias => {},
            MatchCause::Pattern(i) => {
                if i < self.patterns_matched.len() {
                    self.patterns_matched.set(i, true);
                }
            },
        }
    }

    /// Adds what `other` has seen: flags are joined by "or", flags that
    /// `other` lacks stay as they are, and the matched names are united.
    pub fn merge(&mut self, other: &StrictMode)
        ensures
            final(self).any_annotation_removed == (old(self).any_annotation_removed
                || other.any_annotation_removed),
            final(self).names_matched@ == old(self).names_matched@.union(other.names_matched@),
            final(self).patterns_matched@.len() == old(self).patterns_matched@.len(),
            forall|i: int|
                0 <= i < old(self).patterns_matched@.len() ==> #[trigger] final(self).patterns_matched@[i]
                    == (old(self).patterns_matched@[i] || (i < other.patterns_matched@.len()
                    && other.patterns_matched@[i])),
            final(self).files_truncated@.len() == old(self).files_truncated@.len(),
            forall|i: int|
                0 <= i < old(self).files_truncated@.len() ==> #[trigger] final(self).files_truncated@[i]
                    == (old(self).files_truncated@[i] || (i < other.files_truncated@.len()
                    && other.files_truncated@[i])),
    {
        if other.any_annotation_removed {
            self.any_annotation_removed = true;
        }
        let ghost flag = self.any_annotation_removed;
        let mut i: usize = 0;
        while i < self.patterns_matched.len()
            invariant
                self.any_annotation_removed == flag,
                self.files_truncated@ == old(self).files_truncated@,
                self.names_matched@ == old(self).names_matched@,
                i <= self.patterns_matched@.len(),
                self.patterns_matched@.len() == old(self).patterns_matched@.len(),
                forall|j: int|
                    0 <= j < self.patterns_matched@.len() ==> #[trigger] self.patterns_matched@[j]
                        == if j < i {
                        old(self).patterns_matched@[j] || (j < other.patterns_matched@.len()
                            && other.patterns_matched@[j])
                    } else {
                        old(self).patterns_matched@[j]
                    },
            decreases self.patterns_matched@.len() - i,
        {
            if i < other.patterns_matched.len() && other.patterns_matched[i] {
                self.patterns_matched.set(i, true);
            }
            i = i + 1;
        }
        let ghost patterns = self.patterns_matched@;
        let mut j: usize = 0;
        while j < self.files_truncated.len()
            invariant
                self.any_annotation_removed == flag,
                self.patterns_matched@ == patterns,
                self.names_matched@ == old(self).names_matched@,
                j <= self.files_truncated@.len(),
                self.files_truncated@.len() == old(self).files_truncated@.len(),
                forall|k: int|
                    0 <= k < self.files_truncated@.len() ==> #[trigger] self.files_truncated@[k]
                        == if k < j {
                        old(self).files_truncated@[k] || (k < other.files_truncated@.len()
                            && other.files_truncated@[k])
                    } else {
                        old(self).files_truncated@[k]
                    },
            decreases self.files_truncated@.len() - j,
        {
            if j < other.files_truncated.len() && other.files_truncated[j] {
                self.files_truncated.set(j, true);
            }
            j = j + 1;
        }
        let ghost files = self.files_truncated@;
        let names = other.names_matched.to_vec();
        let ghost start = self.names_matched@;
        let mut k: usize = 0;
        while k < names.len()
            invariant
                self.any_annotation_removed == flag,
                self.patterns_matched@ == patterns,
                self.files_truncated@ == files,
                k <= names@.len(),
                self.names_matched@ == start.union(Set::new(|s: Seq<u8>| exists|m: int| 0 <= m < k && #[trigger] names@[m]@ == s)),
            decreases names@.len() - k,
        {
            self.names_matched.insert(to_owned_bytes(names[k].as_slice()));
            k = k + 1;
            assert(self.names_matched@ =~= start.union(Set::new(|s: Seq<u8>| exists|m: int| 0 <= m < k && #[trigger] names@[m]@ == s))) by {
                assert(names@[k - 1]@ == names@[k - 1 as int]@);
            }
        }
        assert(self.names_matched@ =~= start.union(other.names_matched@));
    }
}

} // verus!
