//! The fuzzy file finder: which roots to walk, which directory entries
//! count, and what a scan of them returns.
//!
//! Walking the file system is the caller's part. The caller hands over what
//! the walk yields, entry by entry (`Scan`) or as whole lists
//! (`search_files`), and gets back the paths of the best matches.

use vstd::prelude::*;
use crate::platform::Platform;
use crate::ranking::{
    all_above_threshold,
    is_ranking,
    with_offer,
    Candidate,
    TopMatches,
    MAX_RESULTS,
};
use crate::similarity::{above_threshold, jaro_winkler_bits, name_similarity};
use crate::strings::texts;

verus! {

/// How many entries of one root a scan looks at. What a walk yields beyond
/// that is passed over in silence.
pub const MAX_VISITS: usize = 100_000;

/// Why a search could not start.
#[derive(Clone, Copy, Debug)]
pub enum SearchError {
    /// No roots are known for the platform.
    UnsupportedPlatform,
}

impl SearchError {
    /// The error as a message for the user.
    pub fn message(&self) -> (text: String)
        ensures
            text@ == "Unsupported platform: no search roots are known"@,
    {
        "Unsupported platform: no search roots are known".to_owned()
    }
}

/// The roots that are walked on a platform, in order, if it is a known one.
pub open spec fn roots_of(platform: Platform) -> Option<Seq<Seq<char>>> {
    match platform {
        Platform::MacOs | Platform::Linux => Some(seq!["/"@]),
        Platform::Windows => Some(seq!["C:\\"@, "D:\\"@, "E:\\"@]),
        Platform::Unknown => None,
    }
}

/// The roots to walk on this platform. Fails on an unknown platform, and
/// only then.
pub fn search_roots(platform: Platform) -> (roots: Result<Vec<String>, SearchError>)
    ensures
        match roots {
            Ok(list) => roots_of(platform) == Some(texts(list@)),
            Err(e) => roots_of(platform) is None && e == SearchError::UnsupportedPlatform,
        },
{
    let mut list: Vec<String> = Vec::new();
    match platform {
        Platform::MacOs | Platform::Linux => {
            list.push("/".to_owned());
            assert(texts(list@) =~= seq!["/"@]);
        },
        Platform::Windows => {
            list.push("C:\\".to_owned());
            list.push("D:\\".to_owned());
            list.push("E:\\".to_owned());
            assert(texts(list@) =~= seq!["C:\\"@, "D:\\"@, "E:\\"@]);
        },
        Platform::Unknown => {
            return Err(SearchError::UnsupportedPlatform);
        },
    }
    Ok(list)
}

/// One entry that a walk yields.
#[derive(Debug)]
pub struct Entry {
    /// The absolute path of the entry.
    pub path: String,
    /// Its base name, the last component of the path, where it has one that
    /// is valid text.
    pub name: Option<String>,
    /// Whether the entry is a regular file.
    pub is_file: bool,
}

/// Whether an entry is a candidate for the query: a regular file with a
/// name whose similarity to the query is above the cutoff.
pub open spec fn is_candidate(query: Seq<char>, entry: Entry) -> bool {
    match entry.name {
        Some(name) => entry.is_file && above_threshold(jaro_winkler_bits(query, name@)),
        None => false,
    }
}

/// The bits of the similarity of the entry's name to the query. Only said
/// of an entry that has a name.
pub open spec fn score_of(query: Seq<char>, entry: Entry) -> u64
    recommends
        entry.name is Some,
{
    jaro_winkler_bits(query, entry.name->0@)
}

/// The pool after one entry: a regular file with a name is offered under
/// its path, with the similarity of its name to the query; anything else is
/// skipped.
pub open spec fn after_entry(query: Seq<char>, pool: Map<Seq<char>, u64>, entry: Entry) -> Map<
    Seq<char>,
    u64,
> {
    match entry.name {
        Some(name) => if entry.is_file {
            with_offer(pool, entry.path@, jaro_winkler_bits(query, name@))
        } else {
            pool
        },
        None => pool,
    }
}

/// The pool after a run of entries, taken in order.
pub open spec fn after_entries(
    query: Seq<char>,
    pool: Map<Seq<char>, u64>,
    entries: Seq<Entry>,
) -> Map<Seq<char>, u64>
    decreases entries.len(),
{
    if entries.len() == 0 {
        pool
    } else {
        after_entry(query, after_entries(query, pool, entries.drop_last()), entries.last())
    }
}

/// The entries of a walk that a scan looks at: the first `MAX_VISITS`.
pub open spec fn considered(walk: Seq<Entry>) -> Seq<Entry> {
    if walk.len() <= MAX_VISITS {
        walk
    } else {
        walk.subrange(0, MAX_VISITS as int)
    }
}

/// The entries that a search looks at, in the order it does: what counts of
/// the first walk, then of the second, and so on.
pub open spec fn visited_entries(walks: Seq<Vec<Entry>>) -> Seq<Entry>
    decreases walks.len(),
{
    if walks.len() == 0 {
        Seq::empty()
    } else {
        visited_entries(walks.drop_last()) + considered(walks.last()@)
    }
}

/// Everything a search admits, as a map from path to the bits of the score.
pub open spec fn admitted_by(query: Seq<char>, walks: Seq<Vec<Entry>>) -> Map<Seq<char>, u64> {
    after_entries(query, Map::empty(), visited_entries(walks))
}

/// A path is in the pool after a run of entries exactly if it was there
/// before or one of the entries is a candidate with that path.
pub proof fn lemma_admitted_paths(
    query: Seq<char>,
    pool: Map<Seq<char>, u64>,
    entries: Seq<Entry>,
    path: Seq<char>,
)
    ensures
        after_entries(query, pool, entries).dom().contains(path) <==> pool.dom().contains(path) || (
        exists|k: int|
            0 <= k < entries.len() && is_candidate(query, #[trigger] entries[k]) && entries[k].path@
                == path),
    decreases entries.len(),
{
    if entries.len() > 0 {
        let front = entries.drop_last();
        lemma_admitted_paths(query, pool, front, path);
        let last = entries.len() - 1;
        if after_entries(query, pool, entries).dom().contains(path) && !pool.dom().contains(path) {
            if after_entries(query, pool, front).dom().contains(path) {
                let k = choose|k: int|
                    0 <= k < front.len() && is_candidate(query, #[trigger] front[k]) && front[k].path@
                        == path;
                assert(entries[k] == front[k]);
            } else {
                assert(is_candidate(query, entries[last]) && entries[last].path@ == path);
            }
        }
        if exists|k: int|
            0 <= k < entries.len() && is_candidate(query, #[trigger] entries[k]) && entries[k].path@
                == path {
            let k = choose|k: int|
                0 <= k < entries.len() && is_candidate(query, #[trigger] entries[k])
                    && entries[k].path@ == path;
            if k < last {
                assert(front[k] == entries[k]);
            }
        }
    }
}

/// Whether the `k`-th entry is the one that brought a path into the pool
/// under these bits: the first candidate with that path, and the bits are
/// the similarity of its name to the query.
pub open spec fn is_source(
    query: Seq<char>,
    entries: Seq<Entry>,
    k: int,
    path: Seq<char>,
    bits: u64,
) -> bool {
    &&& 0 <= k < entries.len()
    &&& is_candidate(query, entries[k])
    &&& entries[k].path@ == path
    &&& score_of(query, entries[k]) == bits
    &&& forall|j: int|
        0 <= j < k ==> !(is_candidate(query, #[trigger] entries[j]) && entries[j].path@ == path)
}

/// Whether some entry brought a path into the pool under these bits.
pub open spec fn has_source(query: Seq<char>, entries: Seq<Entry>, path: Seq<char>, bits: u64) -> bool {
    exists|k: int| #[trigger] is_source(query, entries, k, path, bits)
}

/// Every admitted path was brought by an entry: the first candidate with
/// that path, and it is admitted under the similarity of that entry's name.
pub proof fn lemma_admitted_source(query: Seq<char>, entries: Seq<Entry>, path: Seq<char>)
    requires
        after_entries(query, Map::empty(), entries).dom().contains(path),
    ensures
        has_source(query, entries, path, after_entries(query, Map::empty(), entries)[path]),
    decreases entries.len(),
{
    let bits = after_entries(query, Map::empty(), entries)[path];
    let front = entries.drop_last();
    let last = entries.len() - 1;
    if after_entries(query, Map::empty(), front).dom().contains(path) {
        lemma_admitted_source(query, front, path);
        let k = choose|k: int| #[trigger] is_source(query, front, k, path, bits);
        assert(entries[k] == front[k]);
        assert forall|j: int| 0 <= j < k implies !(is_candidate(query, #[trigger] entries[j])
            && entries[j].path@ == path) by {
            assert(entries[j] == front[j]);
        }
        assert(is_source(query, entries, k, path, bits));
    } else {
        assert forall|j: int| 0 <= j < last implies !(is_candidate(query, #[trigger] entries[j])
            && entries[j].path@ == path) by {
            if is_candidate(query, entries[j]) && entries[j].path@ == path {
                assert(front[j] == entries[j]);
                lemma_admitted_paths(query, Map::empty(), front, path);
            }
        }
        assert(is_source(query, entries, last, path, bits));
    }
}

/// A scan in progress: the query, the best matches so far, and how much of
/// the current root has been looked at.
pub struct Scan {
    query: String,
    visited: usize,
    matches: TopMatches,
}

impl Scan {
    /// The invariant of a scan.
    pub closed spec fn wf(&self) -> bool {
        self.matches.wf() && self.visited <= MAX_VISITS
    }

    /// The query that names are compared with.
    pub closed spec fn query(&self) -> Seq<char> {
        self.query@
    }

    /// Everything admitted so far: path and bits of the score.
    pub closed spec fn pool(&self) -> Map<Seq<char>, u64> {
        self.matches@
    }

    /// How many entries of the current root have been looked at.
    pub closed spec fn visited(&self) -> nat {
        self.visited as nat
    }

    /// A scan that has seen nothing yet.
    pub fn new(query: &str) -> (scan: Scan)
        ensures
            scan.wf(),
            scan.query() == query@,
            scan.pool() == Map::<Seq<char>, u64>::empty(),
            scan.visited() == 0,
    {
        Scan { query: query.to_owned(), visited: 0, matches: TopMatches::new() }
    }

    /// Turns to the next root: its entries are counted from zero.
    pub fn start_root(&mut self)
        requires
            old(self).wf(),
        ensures
            final(self).wf(),
            final(self).query() == old(self).query(),
            final(self).pool() == old(self).pool(),
            final(self).visited() == 0,
    {
        self.visited = 0;
    }

    /// Whether the current root may yield more entries that count.
    pub fn wants_more(&self) -> (more: bool)
        requires
            self.wf(),
        ensures
            more == (self.visited() < MAX_VISITS),
    {
        self.visited < MAX_VISITS
    }

    /// Looks at the next entry of the current root and says whether the walk
    /// should go on. Once `MAX_VISITS` entries of the root have been looked
    /// at, further ones change nothing.
    pub fn visit(&mut self, entry: &Entry) -> (more: bool)
        requires
            old(self).wf(),
        ensures
            final(self).wf(),
            final(self).query() == old(self).query(),
            old(self).visited() < MAX_VISITS ==> final(self).visited() == old(self).visited() + 1
                && final(self).pool() == after_entry(old(self).query(), old(self).pool(), *entry),
            old(self).visited() >= MAX_VISITS ==> final(self).visited() == old(self).visited()
                && final(self).pool() == old(self).pool(),
            more == (final(self).visited() < MAX_VISITS),
    {
        if self.visited >= MAX_VISITS {
            return false;
        }
        self.visited = self.visited + 1;
        if entry.is_file {
            match &entry.name {
                Some(name) => {
                    let similarity = name_similarity(self.query.as_str(), name.as_str());
                    self.matches.offer(Candidate { similarity, path: entry.path.clone() });
                },
                None => {},
            }
        }
        self.visited < MAX_VISITS
    }

    /// Ends the scan: the paths of the best matches, best first.
    pub fn finish(self) -> (paths: Vec<String>)
        requires
            self.wf(),
        ensures
            is_ranking(self.pool(), texts(paths@)),
            all_above_threshold(self.pool()),
            self.pool().dom().finite(),
            paths@.len() == if self.pool().dom().len() < MAX_RESULTS {
                self.pool().dom().len()
            } else {
                MAX_RESULTS as nat
            },
    {
        self.matches.paths()
    }
}

/// Searches what the walks of the roots yielded, one list of entries per
/// root, and returns the paths of the best matches, best first.
///
/// Of each walk the first `MAX_VISITS` entries count. An entry is a
/// candidate if it is a regular file with a name whose similarity to the
/// query is above the cutoff. A path is admitted once, under the score it
/// first came with. The result ranks what was admitted: at most
/// `MAX_RESULTS` distinct paths in descending order of score, none of them
/// scoring lower than an admitted path that was left out.
pub fn search_files(query: &str, walks: &Vec<Vec<Entry>>) -> (paths: Vec<String>)
    ensures
        is_ranking(admitted_by(query@, walks@), texts(paths@)),
        // Never more than the limit, and no fewer than there are to return.
        paths@.len() <= MAX_RESULTS,
        admitted_by(query@, walks@).dom().finite(),
        paths@.len() == if admitted_by(query@, walks@).dom().len() < MAX_RESULTS {
            admitted_by(query@, walks@).dom().len()
        } else {
            MAX_RESULTS as nat
        },
        // Best first.
        forall|i: int, j: int|
            0 <= i < j < paths@.len() ==> admitted_by(query@, walks@)[(#[trigger] paths@[i])@]
                >= admitted_by(query@, walks@)[(#[trigger] paths@[j])@],
        // Nothing at or below the cutoff.
        forall|i: int|
            0 <= i < paths@.len() ==> above_threshold(
                admitted_by(query@, walks@)[(#[trigger] paths@[i])@],
            ),
        // No path twice.
        forall|i: int, j: int|
            0 <= i < j < paths@.len() ==> (#[trigger] paths@[i])@ != (#[trigger] paths@[j])@,
        // Each path is that of a regular file that was looked at, and its
        // score is the similarity of that file's name to the query.
        forall|i: int|
            0 <= i < paths@.len() ==> has_source(
                query@,
                visited_entries(walks@),
                (#[trigger] paths@[i])@,
                admitted_by(query@, walks@)[paths@[i]@],
            ),
        // Empty exactly if nothing that was looked at is a candidate.
        paths@.len() == 0 <==> forall|k: int|
            0 <= k < visited_entries(walks@).len() ==> !is_candidate(
                query@,
                #[trigger] visited_entries(walks@)[k],
            ),
{
    let mut scan = Scan::new(query);
    let mut r: usize = 0;
    assert(walks@.subrange(0, 0) =~= Seq::<Vec<Entry>>::empty());
    while r < walks.len()
        invariant
            r <= walks@.len(),
            scan.wf(),
            scan.query() == query@,
            scan.pool() == admitted_by(query@, walks@.subrange(0, r as int)),
        decreases walks@.len() - r,
    {
        let walk = &walks[r];
        let ghost earlier = visited_entries(walks@.subrange(0, r as int));
        let count = if walk.len() <= MAX_VISITS {
            walk.len()
        } else {
            MAX_VISITS
        };
        scan.start_root();
        let mut n: usize = 0;
        assert(earlier + considered(walk@).subrange(0, 0) =~= earlier);
        while n < count
            invariant
                n <= count,
                count == considered(walk@).len(),
                count <= walk@.len(),
                scan.wf(),
                scan.query() == query@,
                scan.visited() == n,
                scan.pool() == after_entries(
                    query@,
                    Map::empty(),
                    earlier + considered(walk@).subrange(0, n as int),
                ),
            decreases count - n,
        {
            proof {
                let upto = earlier + considered(walk@).subrange(0, n + 1);
                assert(upto.drop_last() =~= earlier + considered(walk@).subrange(0, n as int));
                assert(upto.last() == walk@[n as int]);
            }
            scan.visit(&walk[n]);
            n += 1;
        }
        proof {
            assert(considered(walk@).subrange(0, n as int) =~= considered(walk@));
            let upto = walks@.subrange(0, r + 1);
            assert(upto.drop_last() =~= walks@.subrange(0, r as int));
            assert(upto.last() == walks@[r as int]);
        }
        r += 1;
    }
    proof {
        assert(walks@.subrange(0, r as int) =~= walks@);
    }
    let ghost pool = scan.pool();
    let paths = scan.finish();
    proof {
        assert forall|i: int| 0 <= i < paths@.len() implies above_threshold(
            pool[(#[trigger] paths@[i])@],
        ) by {
            assert(texts(paths@)[i] == paths@[i]@);
        }
        assert forall|i: int, j: int| 0 <= i < j < paths@.len() implies pool[(
        #[trigger] paths@[i])@] >= pool[(#[trigger] paths@[j])@] by {
            assert(texts(paths@)[i] == paths@[i]@);
            assert(texts(paths@)[j] == paths@[j]@);
        }
        assert forall|i: int, j: int| 0 <= i < j < paths@.len() implies (#[trigger] paths@[i])@ != (
        #[trigger] paths@[j])@ by {
            assert(texts(paths@)[i] == paths@[i]@);
            assert(texts(paths@)[j] == paths@[j]@);
        }
        assert forall|i: int| 0 <= i < paths@.len() implies has_source(
            query@,
            visited_entries(walks@),
            (#[trigger] paths@[i])@,
            pool[paths@[i]@],
        ) by {
            assert(texts(paths@)[i] == paths@[i]@);
            lemma_admitted_source(query@, visited_entries(walks@), paths@[i]@);
        }
        if paths@.len() > 0 {
            assert(texts(paths@)[0] == paths@[0]@);
            lemma_admitted_paths(query@, Map::empty(), visited_entries(walks@), paths@[0]@);
        }
        if exists|k: int|
            0 <= k < visited_entries(walks@).len() && is_candidate(
                query@,
                #[trigger] visited_entries(walks@)[k],
            ) {
            let k = choose|k: int|
                0 <= k < visited_entries(walks@).len() && is_candidate(
                    query@,
                    #[trigger] visited_entries(walks@)[k],
                );
            let path = visited_entries(walks@)[k].path@;
            lemma_admitted_paths(query@, Map::empty(), visited_entries(walks@), path);
            assert(pool.dom().contains(path));
            assert(pool.dom().len() > 0);
        }
    }
    paths
}

} // verus!
