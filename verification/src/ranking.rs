//! The bounded structure that keeps the best matches of a scan.
//!
//! A scan admits candidates one at a time. Each path is admitted at most
//! once, under the score it first came with. Of everything admitted, only
//! the `MAX_RESULTS` best are kept, best first.

use vstd::prelude::*;
use crate::similarity::{above_threshold, Similarity};
use crate::seen::SeenSet;
use crate::strings::texts;

verus! {

/// How many matches a scan keeps.
pub const MAX_RESULTS: usize = 8;

/// A file whose name is similar enough to the query.
#[derive(Debug)]
pub struct Candidate {
    pub similarity: Similarity,
    pub path: String,
}

/// What offering one candidate does to the pool of admitted paths: a score
/// above the cutoff enters under its path unless that path is in already.
pub open spec fn with_offer(pool: Map<Seq<char>, u64>, path: Seq<char>, bits: u64) -> Map<
    Seq<char>,
    u64,
> {
    if above_threshold(bits) && !pool.dom().contains(path) {
        pool.insert(path, bits)
    } else {
        pool
    }
}

/// Whether every score in the pool is above the cutoff.
pub open spec fn all_above_threshold(pool: Map<Seq<char>, u64>) -> bool {
    forall|p: Seq<char>| pool.dom().contains(p) ==> above_threshold(#[trigger] pool[p])
}

/// Whether `paths` is a best-first selection of the pool: distinct admitted
/// paths in descending order of score, as many as the limit allows, with
/// nothing left out that scores higher than something kept. The order of
/// equal scores is left open.
pub open spec fn is_ranking(pool: Map<Seq<char>, u64>, paths: Seq<Seq<char>>) -> bool {
    &&& paths.len() <= MAX_RESULTS
    &&& forall|i: int| 0 <= i < paths.len() ==> pool.dom().contains(#[trigger] paths[i])
    &&& forall|i: int, j: int|
        0 <= i < j < paths.len() ==> pool[#[trigger] paths[i]] >= pool[#[trigger] paths[j]]
    &&& forall|i: int, j: int|
        0 <= i < j < paths.len() ==> #[trigger] paths[i] != #[trigger] paths[j]
    &&& forall|p: Seq<char>|
        #![trigger pool.dom().contains(p)]
        pool.dom().contains(p) && !paths.contains(p) ==> {
            &&& paths.len() == MAX_RESULTS
            &&& forall|j: int| 0 <= j < paths.len() ==> pool[p] <= pool[#[trigger] paths[j]]
        }
}

/// Whether some kept candidate has this path.
spec fn keeps(best: Seq<Candidate>, path: Seq<char>) -> bool {
    exists|i: int| 0 <= i < best.len() && (#[trigger] best[i]).path@ == path
}

/// The paths of the kept candidates, in order.
spec fn paths_of(best: Seq<Candidate>) -> Seq<Seq<char>> {
    Seq::new(best.len(), |i: int| best[i].path@)
}

/// `is_ranking`, said of candidates that carry their scores.
spec fn ranks(pool: Map<Seq<char>, u64>, best: Seq<Candidate>) -> bool {
    &&& best.len() <= MAX_RESULTS
    &&& forall|i: int|
        0 <= i < best.len() ==> pool.dom().contains((#[trigger] best[i]).path@) && pool[best[i].path@]
            == best[i].similarity.bits
    &&& forall|i: int, j: int|
        0 <= i < j < best.len() ==> (#[trigger] best[i]).similarity.bits >= (
        #[trigger] best[j]).similarity.bits
    &&& forall|i: int, j: int|
        0 <= i < j < best.len() ==> (#[trigger] best[i]).path@ != (#[trigger] best[j]).path@
    &&& forall|p: Seq<char>|
        #![trigger pool.dom().contains(p)]
        pool.dom().contains(p) && !keeps(best, p) ==> {
            &&& best.len() == MAX_RESULTS
            &&& forall|j: int|
                0 <= j < best.len() ==> pool[p] <= (#[trigger] best[j]).similarity.bits
        }
}

/// Candidates that rank a pool have paths that rank it.
proof fn lemma_ranks_paths(pool: Map<Seq<char>, u64>, best: Seq<Candidate>)
    requires
        ranks(pool, best),
    ensures
        is_ranking(pool, paths_of(best)),
{
    let paths = paths_of(best);
    assert forall|p: Seq<char>| pool.dom().contains(p) && !paths.contains(p) implies !keeps(
        best,
        p,
    ) by {
        if keeps(best, p) {
            let i = choose|i: int| 0 <= i < best.len() && (#[trigger] best[i]).path@ == p;
            assert(paths[i] == p);
        }
    }
    assert forall|i: int, j: int| 0 <= i < j < paths.len() implies pool[#[trigger] paths[i]]
        >= pool[#[trigger] paths[j]] by {
        assert(best[i].similarity.bits >= best[j].similarity.bits);
    }
    assert forall|i: int, j: int| 0 <= i < j < paths.len() implies #[trigger] paths[i]
        != #[trigger] paths[j] by {
        assert(best[i].path@ != best[j].path@);
    }
    assert forall|p: Seq<char>|
        #![trigger pool.dom().contains(p)]
        pool.dom().contains(p) && !paths.contains(p) implies {
        &&& paths.len() == MAX_RESULTS
        &&& forall|j: int| 0 <= j < paths.len() ==> pool[p] <= pool[#[trigger] paths[j]]
    } by {
        assert(!keeps(best, p));
        assert forall|j: int| 0 <= j < paths.len() implies pool[p] <= pool[#[trigger] paths[j]] by {
            assert(pool[p] <= best[j].similarity.bits);
        }
    }
}

/// Putting a new candidate in its place among the kept ones, and dropping the
/// last if that makes one too many, ranks the pool with the candidate added.
proof fn lemma_place(pool: Map<Seq<char>, u64>, best: Seq<Candidate>, c: Candidate, pos: int)
    requires
        ranks(pool, best),
        !pool.dom().contains(c.path@),
        0 <= pos <= best.len(),
        forall|i: int| 0 <= i < pos ==> (#[trigger] best[i]).similarity.bits >= c.similarity.bits,
        forall|i: int|
            pos <= i < best.len() ==> (#[trigger] best[i]).similarity.bits < c.similarity.bits,
    ensures
        ({
            let grown = best.insert(pos, c);
            let kept = if grown.len() > MAX_RESULTS {
                grown.subrange(0, grown.len() - 1)
            } else {
                grown
            };
            ranks(pool.insert(c.path@, c.similarity.bits), kept)
        }),
{
    let grown = best.insert(pos, c);
    let kept = if grown.len() > MAX_RESULTS {
        grown.subrange(0, grown.len() - 1)
    } else {
        grown
    };
    let wider = pool.insert(c.path@, c.similarity.bits);
    assert(grown.len() == best.len() + 1);
    assert forall|i: int| 0 <= i < grown.len() implies #[trigger] grown[i] == (if i < pos {
        best[i]
    } else if i == pos {
        c
    } else {
        best[i - 1]
    }) by {}
    assert forall|i: int| 0 <= i < kept.len() implies #[trigger] kept[i] == grown[i] by {}
    assert forall|i: int| 0 <= i < kept.len() implies wider.dom().contains(
        (#[trigger] kept[i]).path@,
    ) && wider[kept[i].path@] == kept[i].similarity.bits by {
        if i < pos {
            assert(kept[i] == best[i]);
        } else if i > pos {
            assert(kept[i] == best[i - 1]);
        }
    }
    assert forall|i: int, j: int| 0 <= i < j < kept.len() implies (
    #[trigger] kept[i]).similarity.bits >= (#[trigger] kept[j]).similarity.bits by {
        let a = if i < pos { i } else { i - 1 };
        let b = if j < pos { j } else { j - 1 };
        if i != pos && j != pos {
            assert(kept[i] == best[a] && kept[j] == best[b]);
            if a < b {
                assert(best[a].similarity.bits >= best[b].similarity.bits);
            }
        } else if i == pos {
            assert(kept[j] == best[b]);
        } else {
            assert(kept[i] == best[a]);
        }
    }
    assert forall|i: int, j: int| 0 <= i < j < kept.len() implies (#[trigger] kept[i]).path@ != (
    #[trigger] kept[j]).path@ by {
        let a = if i < pos { i } else { i - 1 };
        let b = if j < pos { j } else { j - 1 };
        if i != pos && j != pos {
            assert(kept[i] == best[a] && kept[j] == best[b]);
            assert(best[a].path@ != best[b].path@);
        } else if i == pos {
            assert(kept[j] == best[b]);
        } else {
            assert(kept[i] == best[a]);
        }
    }
    assert forall|p: Seq<char>|
        #![trigger wider.dom().contains(p)]
        wider.dom().contains(p) && !keeps(kept, p) implies {
        &&& kept.len() == MAX_RESULTS
        &&& forall|j: int| 0 <= j < kept.len() ==> wider[p] <= (#[trigger] kept[j]).similarity.bits
    } by {
        if p == c.path@ {
            // The newcomer itself was dropped: it came last of nine.
            if pos < kept.len() {
                assert(kept[pos] == c);
                assert(keeps(kept, p));
            }
            assert forall|j: int| 0 <= j < kept.len() implies wider[p] <= (
            #[trigger] kept[j]).similarity.bits by {
                assert(kept[j] == best[j]);
            }
        } else {
            assert(pool.dom().contains(p));
            if keeps(best, p) {
                // An old one was dropped: it was the last, below all that stay.
                let k = choose|k: int| 0 <= k < best.len() && (#[trigger] best[k]).path@ == p;
                let at = if k < pos { k } else { k + 1 };
                assert(grown[at] == best[k]);
                if at < kept.len() {
                    assert(kept[at] == best[k]);
                    assert(keeps(kept, p));
                }
                assert(at == grown.len() - 1);
                assert forall|j: int| 0 <= j < kept.len() implies wider[p] <= (
                #[trigger] kept[j]).similarity.bits by {
                    assert(grown[j].similarity.bits >= grown[at].similarity.bits) by {
                        if j < pos {
                            assert(grown[j] == best[j]);
                            if j < k {
                                assert(best[j].similarity.bits >= best[k].similarity.bits);
                            }
                        } else if j > pos {
                            assert(grown[j] == best[j - 1]);
                            if j - 1 < k {
                                assert(best[j - 1].similarity.bits >= best[k].similarity.bits);
                            }
                        }
                    }
                }
            } else {
                // It was left out before, so the kept ones were full.
                assert(best.len() == MAX_RESULTS);
                assert forall|j: int| 0 <= j < kept.len() implies wider[p] <= (
                #[trigger] kept[j]).similarity.bits by {
                    if j < pos {
                        assert(kept[j] == best[j]);
                    } else if j > pos {
                        assert(kept[j] == best[j - 1]);
                    } else {
                        assert(pool[p] <= best[pos].similarity.bits);
                    }
                }
            }
        }
    }
}

/// The best matches of a scan, and the paths it has admitted.
pub struct TopMatches {
    /// The kept candidates, best first.
    best: Vec<Candidate>,
    /// Every admitted path.
    seen: SeenSet,
    /// The score under which each path was admitted.
    admitted: Ghost<Map<Seq<char>, u64>>,
}

impl View for TopMatches {
    type V = Map<Seq<char>, u64>;

    /// The pool: each admitted path with the bits of its score.
    closed spec fn view(&self) -> Map<Seq<char>, u64> {
        self.admitted@
    }
}

impl TopMatches {
    /// The invariant that ties the kept candidates and the set of seen
    /// paths to the pool.
    pub closed spec fn wf(&self) -> bool {
        let pool = self.admitted@;
        &&& self.seen.wf()
        &&& self.seen@ == pool.dom()
        &&& pool.dom().finite()
        &&& all_above_threshold(pool)
        &&& self.best@.len() == if pool.dom().len() < MAX_RESULTS {
            pool.dom().len()
        } else {
            MAX_RESULTS as nat
        }
        &&& ranks(pool, self.best@)
    }

    /// The paths of the kept candidates, best first.
    pub closed spec fn kept_paths(&self) -> Seq<Seq<char>> {
        paths_of(self.best@)
    }

    /// What the invariant gives a caller: the pool is finite, all of it is
    /// above the cutoff, and the kept paths rank it and are as many as the
    /// limit allows.
    pub proof fn lemma_wf(&self)
        requires
            self.wf(),
        ensures
            self@.dom().finite(),
            all_above_threshold(self@),
            is_ranking(self@, self.kept_paths()),
            self.kept_paths().len() == if self@.dom().len() < MAX_RESULTS {
                self@.dom().len()
            } else {
                MAX_RESULTS as nat
            },
    {
        lemma_ranks_paths(self.admitted@, self.best@);
    }

    /// An empty structure: nothing admitted, nothing kept.
    pub fn new() -> (fresh: TopMatches)
        ensures
            fresh.wf(),
            fresh@ == Map::<Seq<char>, u64>::empty(),
    {
        TopMatches { best: Vec::new(), seen: SeenSet::new(), admitted: Ghost(Map::empty()) }
    }

    /// Whether this path has been admitted before.
    pub fn has_seen(&self, path: &String) -> (yes: bool)
        requires
            self.wf(),
        ensures
            yes == self@.dom().contains(path@),
    {
        self.seen.contains(path)
    }

    /// How many candidates are kept.
    pub fn len(&self) -> (n: usize)
        requires
            self.wf(),
        ensures
            n == self.kept_paths().len(),
            n <= MAX_RESULTS,
    {
        self.best.len()
    }

    /// Where a candidate of this score belongs among the kept ones: behind
    /// every one that scores at least as high.
    fn slot_for(&self, similarity: Similarity) -> (pos: usize)
        requires
            ranks(self.admitted@, self.best@),
        ensures
            pos <= self.best@.len(),
            forall|i: int|
                0 <= i < pos ==> (#[trigger] self.best@[i]).similarity.bits >= similarity.bits,
            forall|i: int|
                pos <= i < self.best@.len() ==> (#[trigger] self.best@[i]).similarity.bits
                    < similarity.bits,
    {
        let mut pos: usize = 0;
        while pos < self.best.len() && self.best[pos].similarity.bits >= similarity.bits
            invariant
                pos <= self.best@.len(),
                forall|i: int|
                    0 <= i < pos ==> (#[trigger] self.best@[i]).similarity.bits >= similarity.bits,
            decreases self.best@.len() - pos,
        {
            pos += 1;
        }
        assert forall|i: int| pos <= i < self.best@.len() implies (
        #[trigger] self.best@[i]).similarity.bits < similarity.bits by {
            if pos < i {
                assert(self.best@[pos as int].similarity.bits >= self.best@[i].similarity.bits);
            }
        }
        pos
    }

    /// Offers a candidate. It is admitted if its score is above the cutoff
    /// and its path has not been admitted before; it is then kept if it is
    /// among the best, and the lowest-scoring one is dropped when there is
    /// one too many.
    pub fn offer(&mut self, candidate: Candidate) -> (taken: bool)
        requires
            old(self).wf(),
        ensures
            final(self).wf(),
            taken == (above_threshold(candidate.similarity.bits) && !old(self)@.dom().contains(
                candidate.path@,
            )),
            final(self)@ == with_offer(old(self)@, candidate.path@, candidate.similarity.bits),
    {
        let similarity = candidate.similarity;
        if !similarity.exceeds_threshold() {
            return false;
        }
        let ghost pool = self.admitted@;
        let ghost best = self.best@;
        if !self.seen.insert(candidate.path.clone()) {
            assert(self.seen@ =~= pool.dom());
            return false;
        }
        let pos = self.slot_for(similarity);
        proof {
            lemma_place(pool, best, candidate, pos as int);
        }
        self.admitted = Ghost(pool.insert(candidate.path@, similarity.bits));
        self.best.insert(pos, candidate);
        if self.best.len() > MAX_RESULTS {
            self.best.pop();
        }
        assert(self.seen@ =~= self.admitted@.dom());
        true
    }

    /// The paths of the kept candidates, best first.
    pub fn paths(&self) -> (paths: Vec<String>)
        requires
            self.wf(),
        ensures
            texts(paths@) == self.kept_paths(),
            is_ranking(self@, texts(paths@)),
            all_above_threshold(self@),
            self@.dom().finite(),
            paths@.len() == if self@.dom().len() < MAX_RESULTS {
                self@.dom().len()
            } else {
                MAX_RESULTS as nat
            },
    {
        let mut paths: Vec<String> = Vec::new();
        let mut i: usize = 0;
        while i < self.best.len()
            invariant
                i <= self.best@.len(),
                paths@.len() == i,
                forall|k: int| 0 <= k < i ==> (#[trigger] paths@[k])@ == self.best@[k].path@,
            decreases self.best@.len() - i,
        {
            paths.push(self.best[i].path.clone());
            i += 1;
        }
        proof {
            assert(texts(paths@) =~= paths_of(self.best@));
            self.lemma_wf();
        }
        paths
    }
}

} // verus!
