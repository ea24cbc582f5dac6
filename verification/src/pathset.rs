//! Finding walked entries by path.
//!
//! Two walks are paired entry by entry through their relative paths,
//! compared as the standard library compares paths (component by component).
//! Entries are bucketed by a 64-bit hash of their path's components; a
//! bucket only narrows the search, and every candidate is confirmed by
//! comparing paths.

use std::collections::HashMap;

use vstd::prelude::*;

use crate::paths::{components, components_of, same_path};
use crate::text::chars_of;

verus! {

broadcast use vstd::std_specs::hash::group_hash_axioms;

/// Multiplier of the path hash (FNV-1a, 64 bit).
pub const HASH_PRIME: u64 = 1099511628211;

/// Starting value of the path hash (FNV-1a, 64 bit).
pub const HASH_BASIS: u64 = 14695981039346656037;

/// Value mixed in between components (above every character's code point).
pub const COMPONENT_MARK: u64 = 1114112;

/// One step of the hash.
pub open spec fn mix(h: u64, x: u64) -> u64 {
    (h ^ x).wrapping_mul(HASH_PRIME)
}

/// The hash state after mixing in the characters of `cs`.
pub open spec fn fold_chars(h: u64, cs: Seq<char>) -> u64
    decreases cs.len(),
{
    if cs.len() == 0 {
        h
    } else {
        fold_chars(mix(h, cs[0] as u64), cs.drop_first())
    }
}

/// The hash state after mixing in each component and a mark after it.
pub open spec fn fold_components(h: u64, comps: Seq<Seq<char>>) -> u64
    decreases comps.len(),
{
    if comps.len() == 0 {
        h
    } else {
        fold_components(mix(fold_chars(h, comps[0]), COMPONENT_MARK), comps.drop_first())
    }
}

/// The hash of a path: a function of its components alone, so paths that
/// compare equal hash equal.
pub open spec fn path_hash(rel: Seq<char>) -> u64 {
    fold_components(HASH_BASIS, components(rel))
}

fn hash_chars(h: u64, cs: &Vec<char>) -> (r: u64)
    ensures
        r == fold_chars(h, cs@),
{
    let mut acc = h;
    let mut i: usize = 0;
    proof {
        assert(cs@.skip(0) =~= cs@);
    }
    while i < cs.len()
        invariant
            i <= cs@.len(),
            fold_chars(acc, cs@.skip(i as int)) == fold_chars(h, cs@),
        decreases cs@.len() - i,
    {
        proof {
            assert(cs@.skip(i as int).drop_first() =~= cs@.skip(i + 1));
            assert(cs@.skip(i as int)[0] == cs@[i as int]);
        }
        acc = (acc ^ (cs[i] as u64)).wrapping_mul(HASH_PRIME);
        i += 1;
    }
    proof {
        assert(cs@.skip(i as int) =~= Seq::<char>::empty());
    }
    acc
}

/// The hash of a path (see [`path_hash`]).
pub fn hash_path(rel: &str) -> (h: u64)
    ensures
        h == path_hash(rel@),
{
    let comps = components_of(chars_of(rel).as_slice());
    let ghost cv = components(rel@);
    let mut acc = HASH_BASIS;
    let mut i: usize = 0;
    proof {
        assert(cv.skip(0) =~= cv);
    }
    while i < comps.len()
        invariant
            comps@.len() == cv.len(),
            forall|j: int| 0 <= j < comps@.len() ==> comps@[j]@ == cv[j],
            i <= cv.len(),
            fold_components(acc, cv.skip(i as int)) == fold_components(HASH_BASIS, cv),
        decreases cv.len() - i,
    {
        proof {
            assert(cv.skip(i as int).drop_first() =~= cv.skip(i + 1));
            assert(cv.skip(i as int)[0] == comps@[i as int]@);
        }
        let inner = hash_chars(acc, &comps[i]);
        acc = (inner ^ COMPONENT_MARK).wrapping_mul(HASH_PRIME);
        i += 1;
    }
    proof {
        assert(cv.skip(i as int) =~= Seq::<Seq<char>>::empty());
    }
    acc
}

/// The positions among the first `n` paths that hash to `key`.
pub open spec fn hashed_at(entries: Seq<String>, key: u64, n: int) -> Seq<usize>
    decreases n,
{
    if n <= 0 {
        seq![]
    } else {
        hashed_at(entries, key, n - 1) + if path_hash(entries[n - 1]@) == key {
            seq![(n - 1) as usize]
        } else {
            seq![]
        }
    }
}

/// The last of the first `n` paths that equals `rel`.
pub open spec fn last_with_path(entries: Seq<String>, rel: Seq<char>, n: int) -> Option<int>
    decreases n,
{
    if n <= 0 {
        None
    } else if components(entries[n - 1]@) == components(rel) {
        Some(n - 1)
    } else {
        last_with_path(entries, rel, n - 1)
    }
}

/// The last of the candidate positions whose path equals `rel`.
pub open spec fn last_among(entries: Seq<String>, cands: Seq<usize>, rel: Seq<char>) -> Option<int>
    decreases cands.len(),
{
    if cands.len() == 0 {
        None
    } else if components(entries[cands.last() as int]@) == components(rel) {
        Some(cands.last() as int)
    } else {
        last_among(entries, cands.drop_last(), rel)
    }
}

proof fn lemma_hashed_at_bounds(entries: Seq<String>, key: u64, n: int)
    requires
        n <= entries.len(),
        n <= usize::MAX + 1,
    ensures
        forall|k: int| 0 <= k < hashed_at(entries, key, n).len() ==> (#[trigger] hashed_at(entries, key, n)[k] as int) < n,
    decreases n,
{
    if n > 0 {
        lemma_hashed_at_bounds(entries, key, n - 1);
        let prev = hashed_at(entries, key, n - 1);
        let cur = hashed_at(entries, key, n);
        assert forall|k: int| 0 <= k < cur.len() implies (#[trigger] cur[k] as int) < n by {
            if k < prev.len() {
                assert(cur[k] == prev[k]);
            } else {
                assert(cur[k] == (n - 1) as usize);
            }
        }
    }
}

proof fn lemma_last_among_hashed(entries: Seq<String>, rel: Seq<char>, n: int)
    requires
        0 <= n <= entries.len(),
        n <= usize::MAX + 1,
    ensures
        last_among(entries, hashed_at(entries, path_hash(rel), n), rel) == last_with_path(
            entries,
            rel,
            n,
        ),
    decreases n,
{
    if n > 0 {
        lemma_last_among_hashed(entries, rel, n - 1);
        let key = path_hash(rel);
        let prev = hashed_at(entries, key, n - 1);
        let cur = hashed_at(entries, key, n);
        if path_hash(entries[n - 1]@) == key {
            assert(cur == prev.push((n - 1) as usize));
            assert(cur.drop_last() =~= prev);
            assert(cur.last() == (n - 1) as usize);
        } else {
            assert(cur =~= prev);
            assert(components(entries[n - 1]@) != components(rel));
        }
    }
}

/// A hash index over a list of paths: the positions of the paths, bucketed
/// by [`path_hash`]. A bucket only narrows the search; a candidate is
/// confirmed by comparing paths.
pub struct PathIndex {
    by_key: HashMap<u64, Vec<usize>>,
}

impl PathIndex {
    /// The index was built from exactly `paths`.
    pub closed spec fn indexes(&self, paths: Seq<String>) -> bool {
        forall|k: u64|
            #![trigger self.by_key@.contains_key(k)]
            if self.by_key@.contains_key(k) {
                self.by_key@[k]@ == hashed_at(paths, k, paths.len() as int)
            } else {
                hashed_at(paths, k, paths.len() as int) == Seq::<usize>::empty()
            }
    }

    /// Indexes `targets`.
    pub fn new(targets: &Vec<String>) -> (ix: PathIndex)
        ensures
            ix.indexes(targets@),
    {
        let ghost ts = targets@;
        let n = targets.len();
        let mut by_key: HashMap<u64, Vec<usize>> = HashMap::new();
        let mut j: usize = 0;
        while j < n
            invariant
                n == ts.len(),
                ts == targets@,
                j <= n,
                forall|k: u64|
                    #![trigger by_key@.contains_key(k)]
                    if by_key@.contains_key(k) {
                        by_key@[k]@ == hashed_at(ts, k, j as int)
                    } else {
                        hashed_at(ts, k, j as int) == Seq::<usize>::empty()
                    },
            decreases n - j,
        {
            let key = hash_path(targets[j].as_str());
            let mut list: Vec<usize> = match by_key.remove(&key) {
                Some(v) => v,
                None => Vec::new(),
            };
            list.push(j);
            let ghost old_map = by_key@;
            by_key.insert(key, list);
            proof {
                assert forall|k: u64| #![trigger by_key@.contains_key(k)]
                    if by_key@.contains_key(k) {
                        by_key@[k]@ == hashed_at(ts, k, j + 1)
                    } else {
                        hashed_at(ts, k, j + 1) == Seq::<usize>::empty()
                    } by {
                    if k == key {
                        assert(hashed_at(ts, k, j + 1) =~= hashed_at(ts, k, j as int).push(j));
                    } else {
                        assert(hashed_at(ts, k, j + 1) =~= hashed_at(ts, k, j as int));
                        assert(old_map.contains_key(k) == by_key@.contains_key(k));
                    }
                }
            }
            j += 1;
        }
        PathIndex { by_key }
    }

    /// The position of the last of `targets` that equals `rel` (as paths).
    pub fn last_of(&self, targets: &Vec<String>, rel: &str) -> (r: Option<usize>)
        requires
            self.indexes(targets@),
        ensures
            match r {
                Some(j) => last_with_path(targets@, rel@, targets@.len() as int) == Some(j as int),
                None => last_with_path(targets@, rel@, targets@.len() as int) is None,
            },
    {
        let ghost ts = targets@;
        let n = targets.len();
        let by_key = &self.by_key;
        let key = hash_path(rel);
        proof {
            lemma_last_among_hashed(ts, rel@, n as int);
            lemma_hashed_at_bounds(ts, key, n as int);
        }
        match by_key.get(&key) {
            None => {
                proof {
                    assert(hashed_at(ts, key, n as int) =~= Seq::<usize>::empty());
                }
                None
            },
            Some(cands) => {
                let ghost cs = cands@;
                let mut k: usize = cands.len();
                let mut hit: Option<usize> = None;
                proof {
                    assert(cs.take(k as int) =~= cs);
                }
                while k > 0
                    invariant_except_break
                        hit is None,
                    invariant
                        cs == cands@,
                        cs == hashed_at(ts, key, n as int),
                        forall|q: int| 0 <= q < cs.len() ==> (#[trigger] cs[q] as int) < n,
                        n == ts.len(),
                        ts == targets@,
                        k <= cs.len(),
                        last_among(ts, cs.take(k as int), rel@) == last_among(ts, cs, rel@),
                    ensures
                        match hit {
                            Some(h) => last_among(ts, cs, rel@) == Some(h as int),
                            None => last_among(ts, cs, rel@) is None,
                        },
                    decreases k,
                {
                    let c = cands[k - 1];
                    proof {
                        assert(cs[k - 1] == c);
                        assert((c as int) < n);
                        let t = cs.take(k as int);
                        assert(t.last() == c);
                        assert(t.drop_last() =~= cs.take(k - 1));
                    }
                    if same_path(targets[c].as_str(), rel) {
                        hit = Some(c);
                        break;
                    }
                    k -= 1;
                }
                proof {
                    if hit is None && k == 0 {
                        assert(cs.take(0) =~= Seq::<usize>::empty());
                    }
                }
                hit
            },
        }
    }
}

/// A listed path equals `rel` exactly when the last such path exists.
pub proof fn lemma_last_with_path_exists(entries: Seq<String>, rel: Seq<char>, n: int)
    requires
        0 <= n <= entries.len(),
    ensures
        last_with_path(entries, rel, n) is Some <==> exists|i: int|
            0 <= i < n && components(#[trigger] entries[i]@) == components(rel),
    decreases n,
{
    if n > 0 {
        lemma_last_with_path_exists(entries, rel, n - 1);
        if last_with_path(entries, rel, n - 1) is Some {
            let i = choose|i: int| 0 <= i < n - 1 && components(#[trigger] entries[i]@) == components(rel);
            assert(0 <= i < n && components(entries[i]@) == components(rel));
        }
    }
}

/// For each path of `sources`, the position of the last path of `targets`
/// that equals it (as paths), or `None` when no target does.
pub fn match_paths(targets: &Vec<String>, sources: &Vec<String>) -> (r: Vec<Option<usize>>)
    ensures
        r@.len() == sources@.len(),
        forall|i: int|
            0 <= i < sources@.len() ==> match #[trigger] r@[i] {
                Some(j) => last_with_path(targets@, sources@[i]@, targets@.len() as int)
                    == Some(j as int),
                None => last_with_path(targets@, sources@[i]@, targets@.len() as int) is None,
            },
{
    let index = PathIndex::new(targets);
    let mut out: Vec<Option<usize>> = Vec::new();
    let mut i: usize = 0;
    while i < sources.len()
        invariant
            index.indexes(targets@),
            i <= sources@.len(),
            out@.len() == i,
            forall|t: int|
                0 <= t < i ==> match #[trigger] out@[t] {
                    Some(jj) => last_with_path(targets@, sources@[t]@, targets@.len() as int)
                        == Some(jj as int),
                    None => last_with_path(targets@, sources@[t]@, targets@.len() as int) is None,
                },
        decreases sources@.len() - i,
    {
        let found = index.last_of(targets, sources[i].as_str());
        out.push(found);
        proof {
            assert(out@[i as int] == found);
        }
        i += 1;
    }
    out
}

} // verus!
