//! A set of strings that answers in constant expected time whether a
//! string is in it.
//!
//! The strings are kept in buckets, by a hash of their bytes that this
//! module computes itself.

use std::collections::HashMap;
use vstd::prelude::*;
use vstd::utf8::encode_utf8;
use crate::strings::{is_listed, lists};

verus! {

/// Where the hash of a run of bytes starts.
pub const HASH_BASIS: u64 = 0xcbf2_9ce4_8422_2325;

/// What the hash is multiplied by after each byte.
pub const HASH_PRIME: u64 = 0x0000_0100_0000_01b3;

/// The hash of a run of bytes: for each byte in turn, the hash so far is
/// combined with the byte by exclusive or, and the result multiplied by
/// `HASH_PRIME`, modulo two to the power 64.
pub open spec fn hash_of(bytes: Seq<u8>) -> u64
    decreases bytes.len(),
{
    if bytes.len() == 0 {
        HASH_BASIS
    } else {
        (((hash_of(bytes.drop_last()) ^ (bytes.last() as u64)) * HASH_PRIME) % 0x1_0000_0000_0000_0000) as u64
    }
}

/// The bucket of a string: the hash of its bytes in UTF-8.
pub open spec fn bucket_of(text: Seq<char>) -> u64 {
    hash_of(encode_utf8(text))
}

/// Computes the bucket of a string.
pub fn bucket(text: &str) -> (hash: u64)
    ensures
        hash == bucket_of(text@),
{
    let bytes = text.as_bytes();
    let mut hash: u64 = HASH_BASIS;
    let mut i: usize = 0;
    while i < bytes.len()
        invariant
            i <= bytes@.len(),
            hash == hash_of(bytes@.subrange(0, i as int)),
        decreases bytes@.len() - i,
    {
        proof {
            let upto = bytes@.subrange(0, i + 1);
            assert(upto.drop_last() =~= bytes@.subrange(0, i as int));
            assert(upto.last() == bytes@[i as int]);
        }
        hash = (hash ^ (bytes[i] as u64)).wrapping_mul(HASH_PRIME);
        i += 1;
    }
    assert(bytes@.subrange(0, i as int) =~= bytes@);
    hash
}

/// A set of strings.
pub struct SeenSet {
    buckets: HashMap<u64, Vec<String>>,
}

impl View for SeenSet {
    type V = Set<Seq<char>>;

    /// The strings in the set, each as its sequence of characters.
    closed spec fn view(&self) -> Set<Seq<char>> {
        Set::new(
            |text: Seq<char>|
                self.buckets@.contains_key(bucket_of(text)) && lists(
                    self.buckets@[bucket_of(text)]@,
                    text,
                ),
        )
    }
}

impl SeenSet {
    /// The invariant of the set: every string lies in its own bucket.
    pub closed spec fn wf(&self) -> bool {
        forall|hash: u64, i: int|
            self.buckets@.contains_key(hash) && 0 <= i < self.buckets@[hash]@.len() ==> bucket_of(
                (#[trigger] self.buckets@[hash]@[i])@,
            ) == hash
    }

    /// An empty set.
    pub fn new() -> (set: SeenSet)
        ensures
            set.wf(),
            set@ == Set::<Seq<char>>::empty(),
    {
        let set = SeenSet { buckets: HashMap::new() };
        assert(set@ =~= Set::<Seq<char>>::empty());
        set
    }

    /// Whether the string is in the set.
    pub fn contains(&self, text: &String) -> (yes: bool)
        requires
            self.wf(),
        ensures
            yes == self@.contains(text@),
    {
        broadcast use vstd::std_specs::hash::group_hash_axioms;

        let hash = bucket(text.as_str());
        match self.buckets.get(&hash) {
            Some(list) => is_listed(list, text),
            None => false,
        }
    }

    /// Puts the string into the set, and says whether it was new.
    pub fn insert(&mut self, text: String) -> (fresh: bool)
        requires
            old(self).wf(),
        ensures
            final(self).wf(),
            fresh == !old(self)@.contains(text@),
            final(self)@ == old(self)@.insert(text@),
    {
        broadcast use vstd::std_specs::hash::group_hash_axioms;

        let hash = bucket(text.as_str());
        let ghost before = self.buckets@;
        let ghost added = text@;
        let mut list = match self.buckets.remove(&hash) {
            Some(list) => list,
            None => Vec::new(),
        };
        let ghost old_list = list@;
        assert(before.contains_key(hash) ==> old_list == before[hash]@);
        assert(!before.contains_key(hash) ==> old_list.len() == 0);
        let fresh = !is_listed(&list, &text);
        if fresh {
            list.push(text);
        }
        let ghost new_list = list@;
        self.buckets.insert(hash, list);
        proof {
            assert(self.buckets@ == before.remove(hash).insert(hash, list));
            assert forall|h: u64, i: int|
                self.buckets@.contains_key(h) && 0 <= i < self.buckets@[h]@.len() implies bucket_of(
                (#[trigger] self.buckets@[h]@[i])@,
            ) == h by {
                if h == hash {
                    if i < old_list.len() {
                        assert(new_list[i] == old_list[i]);
                        assert(before[hash]@[i] == old_list[i]);
                    }
                } else {
                    assert(self.buckets@[h] == before[h]);
                }
            }
            assert forall|t: Seq<char>| self@.contains(t) <==> old(self)@.insert(added).contains(
                t,
            ) by {
                let h = bucket_of(t);
                if h == hash {
                    if lists(old_list, t) {
                        let i = choose|i: int| 0 <= i < old_list.len() && (#[trigger] old_list[i])@ == t;
                        assert(new_list[i]@ == t);
                    }
                    if lists(new_list, t) {
                        let i = choose|i: int| 0 <= i < new_list.len() && (#[trigger] new_list[i])@ == t;
                        if i < old_list.len() {
                            assert(old_list[i]@ == t);
                        }
                    }
                    if t == added {
                        if fresh {
                            assert(new_list[old_list.len() as int]@ == t);
                        }
                    }
                } else {
                    assert(self.buckets@.contains_key(h) == before.contains_key(h));
                    if before.contains_key(h) {
                        assert(self.buckets@[h] == before[h]);
                    }
                }
            }
            assert(self@ =~= old(self)@.insert(added));
        }
        fresh
    }
}

} // verus!
