use vstd::prelude::*;

use lru::LruCache;
use std::num::NonZeroUsize;

verus! {

/// Number of paths that a resolver keeps unless told otherwise.
pub const DEFAULT_PATH_CACHE_CAPACITY: usize = 4096;

/// The path separator, as a UTF-16 code unit (`\`).
pub const PATH_SEPARATOR: u16 = 0x5C;

#[verifier::external_type_specification]
#[verifier::external_body]
#[verifier::reject_recursive_types(K)]
#[verifier::reject_recursive_types(V)]
#[verifier::reject_recursive_types(S)]
pub struct ExLruCache<K, V, S>(LruCache<K, V, S>);

/// The entries of a path cache, most recently used first: each a file id
/// and its path as UTF-16 code units.
pub uninterp spec fn lru_entries(c: LruCache<u64, Vec<u16>>) -> Seq<(u64, Seq<u16>)>;

/// The number of entries that a path cache holds at most.
pub uninterp spec fn lru_capacity(c: LruCache<u64, Vec<u16>>) -> nat;

/// Some entry of `e` has key `k`.
pub open spec fn has_key(e: Seq<(u64, Seq<u16>)>, k: u64) -> bool {
    exists|i: int| 0 <= i < e.len() && e[i].0 == k
}

/// Where key `k` stands in `e`.
pub open spec fn key_index(e: Seq<(u64, Seq<u16>)>, k: u64) -> int {
    choose|i: int| 0 <= i < e.len() && e[i].0 == k
}

/// The path stored under key `k` in `e`.
pub open spec fn value_of(e: Seq<(u64, Seq<u16>)>, k: u64) -> Seq<u16> {
    e[key_index(e, k)].1
}

/// No key occurs twice in `e`.
pub open spec fn keys_unique(e: Seq<(u64, Seq<u16>)>) -> bool {
    forall|i: int, j: int| 0 <= i < j < e.len() ==> e[i].0 != e[j].0
}

/// `e` can be the entries of a cache of capacity `cap`.
pub open spec fn lru_wf(e: Seq<(u64, Seq<u16>)>, cap: nat) -> bool {
    keys_unique(e) && e.len() <= cap && cap > 0
}

/// The entries after a lookup of `k`: a present key becomes the most
/// recently used one.
pub open spec fn after_get(e: Seq<(u64, Seq<u16>)>, k: u64) -> Seq<(u64, Seq<u16>)> {
    if has_key(e, k) {
        seq![e[key_index(e, k)]] + e.remove(key_index(e, k))
    } else {
        e
    }
}

/// The entries after `k` is stored with path `v`: it becomes the most
/// recently used entry; a new key in a full cache pushes out the least
/// recently used one.
pub open spec fn after_put(e: Seq<(u64, Seq<u16>)>, cap: nat, k: u64, v: Seq<u16>) -> Seq<
    (u64, Seq<u16>),
> {
    if has_key(e, k) {
        seq![(k, v)] + e.remove(key_index(e, k))
    } else if e.len() == cap {
        seq![(k, v)] + e.drop_last()
    } else {
        seq![(k, v)] + e
    }
}

/// Relies on lru::LruCache::new: an empty cache that holds at most `cap`
/// entries.
#[verifier::external_body]
fn cache_new(cap: usize) -> (r: LruCache<u64, Vec<u16>>)
    requires
        cap > 0,
    ensures
        lru_entries(r) == Seq::<(u64, Seq<u16>)>::empty(),
        lru_capacity(r) == cap,
{
    LruCache::new(NonZeroUsize::new(cap).unwrap())
}

/// Relies on lru::LruCache::get: the path stored under `k`, if any; a
/// present key is moved to the most recently used place.
#[verifier::external_body]
fn cache_get(c: &mut LruCache<u64, Vec<u16>>, k: u64) -> (r: Option<Vec<u16>>)
    ensures
        lru_capacity(*final(c)) == lru_capacity(*old(c)),
        lru_entries(*final(c)) == after_get(lru_entries(*old(c)), k),
        r is Some == has_key(lru_entries(*old(c)), k),
        r matches Some(v) ==> v@ == value_of(lru_entries(*old(c)), k),
{
    c.get(&k).cloned()
}

/// Relies on lru::LruCache::put: stores `v` under `k` as the most recently
/// used entry, replacing the old value of `k`, or else pushing out the least
/// recently used entry when the cache is full.
#[verifier::external_body]
fn cache_put(c: &mut LruCache<u64, Vec<u16>>, k: u64, v: Vec<u16>)
    ensures
        lru_capacity(*final(c)) == lru_capacity(*old(c)),
        lru_entries(*final(c)) == after_put(lru_entries(*old(c)), lru_capacity(*old(c)), k, v@),
{
    c.put(k, v);
}

/// `parent` joined with `name` the way a path gains a component: with a
/// separator between them, unless `parent` is empty or already ends in one.
pub open spec fn path_join(parent: Seq<u16>, name: Seq<u16>) -> Seq<u16> {
    if parent.len() == 0 || parent.last() == PATH_SEPARATOR {
        parent + name
    } else {
        parent + seq![PATH_SEPARATOR] + name
    }
}

/// The first steps of resolving `(fid, parent_fid, name)` against cache
/// entries `e`: the entries afterwards, and the path, or `None` when the
/// parent's path must be looked up. A cached id gives its path; a cached
/// parent gives the parent's path joined with `name`, which is cached too.
pub open spec fn resolve_begin(
    e: Seq<(u64, Seq<u16>)>,
    cap: nat,
    fid: u64,
    parent_fid: u64,
    name: Seq<u16>,
) -> (Seq<(u64, Seq<u16>)>, Option<Seq<u16>>) {
    if has_key(e, fid) {
        (after_get(e, fid), Some(value_of(e, fid)))
    } else if has_key(e, parent_fid) {
        let path = path_join(value_of(e, parent_fid), name);
        (after_put(after_get(e, parent_fid), cap, fid, path), Some(path))
    } else {
        (e, None)
    }
}

/// The last step of a resolution, once the parent's path was looked up: the
/// entries afterwards and the path. A found parent path is cached, and the
/// entry's own path too when the entry is a directory; a failed lookup
/// gives `None` and changes nothing.
pub open spec fn resolve_complete(
    e: Seq<(u64, Seq<u16>)>,
    cap: nat,
    fid: u64,
    parent_fid: u64,
    name: Seq<u16>,
    is_dir: bool,
    parent_path: Option<Seq<u16>>,
) -> (Seq<(u64, Seq<u16>)>, Option<Seq<u16>>) {
    match parent_path {
        None => (e, None),
        Some(pp) => {
            let path = path_join(pp, name);
            let e1 = after_put(e, cap, parent_fid, pp);
            (if is_dir { after_put(e1, cap, fid, path) } else { e1 }, Some(path))
        },
    }
}

/// What a resolution step tells its caller.
#[derive(Debug)]
pub enum Resolution {
    /// The full path, found without a lookup.
    Resolved(Vec<u16>),
    /// The path of this id (the entry's parent) must be looked up, and the
    /// result handed to `complete_lookup`.
    NeedsLookup(u64),
}

/// The path that a resolution step gives, or `None` when it asks for a
/// lookup.
pub open spec fn resolution_path(r: Resolution) -> Option<Seq<u16>> {
    match r {
        Resolution::Resolved(p) => Some(p@),
        Resolution::NeedsLookup(_) => None,
    }
}

/// Turns (file id, parent id, name) triples into full paths, keeping the
/// paths it learns in a bounded least-recently-used cache.
pub struct PathResolver {
    cache: LruCache<u64, Vec<u16>>,
}

/// `parent` joined with `name`: see `path_join`.
pub fn join_path(parent: &Vec<u16>, name: &Vec<u16>) -> (r: Vec<u16>)
    ensures
        r@ == path_join(parent@, name@),
{
    let mut r: Vec<u16> = Vec::new();
    let mut i: usize = 0;
    while i < parent.len()
        invariant
            i <= parent@.len(),
            r@ == parent@.subrange(0, i as int),
        decreases parent@.len() - i,
    {
        r.push(parent[i]);
        i += 1;
    }
    assert(r@ =~= parent@);
    if parent.len() > 0 && parent[parent.len() - 1] != PATH_SEPARATOR {
        r.push(PATH_SEPARATOR);
    }
    let ghost base = r@;
    let mut j: usize = 0;
    while j < name.len()
        invariant
            j <= name@.len(),
            r@ == base + name@.subrange(0, j as int),
        decreases name@.len() - j,
    {
        r.push(name[j]);
        j += 1;
    }
    assert(r@ =~= path_join(parent@, name@));
    r
}

fn copy_path(p: &Vec<u16>) -> (r: Vec<u16>)
    ensures
        r@ == p@,
{
    let mut r: Vec<u16> = Vec::new();
    let mut i: usize = 0;
    while i < p.len()
        invariant
            i <= p@.len(),
            r@ == p@.subrange(0, i as int),
        decreases p@.len() - i,
    {
        r.push(p[i]);
        i += 1;
    }
    assert(r@ =~= p@);
    r
}

impl PathResolver {
    /// The cached entries, most recently used first.
    pub closed spec fn entries(&self) -> Seq<(u64, Seq<u16>)> {
        lru_entries(self.cache)
    }

    /// The most entries the cache holds.
    pub closed spec fn capacity(&self) -> nat {
        lru_capacity(self.cache)
    }

    pub open spec fn wf(&self) -> bool {
        lru_wf(self.entries(), self.capacity())
    }

    /// A resolver whose cache holds up to `DEFAULT_PATH_CACHE_CAPACITY` paths.
    pub fn new() -> (r: Self)
        ensures
            r.wf(),
            r.entries() == Seq::<(u64, Seq<u16>)>::empty(),
            r.capacity() == DEFAULT_PATH_CACHE_CAPACITY,
    {
        Self::with_capacity(DEFAULT_PATH_CACHE_CAPACITY)
    }

    /// A resolver whose cache holds up to `capacity` paths.
    pub fn with_capacity(capacity: usize) -> (r: Self)
        requires
            capacity > 0,
        ensures
            r.wf(),
            r.entries() == Seq::<(u64, Seq<u16>)>::empty(),
            r.capacity() == capacity,
    {
        PathResolver { cache: cache_new(capacity) }
    }

    /// Resolves the entry `fid`, named `file_name`, under directory
    /// `parent_fid`, as far as the cache allows: a cached id gives its path;
    /// a cached parent gives the parent's path joined with the name, and the
    /// result is cached. Otherwise the parent's path must be looked up.
    pub fn resolve_path(&mut self, fid: u64, parent_fid: u64, file_name: &Vec<u16>) -> (r:
        Resolution)
        requires
            old(self).wf(),
        ensures
            final(self).wf(),
            final(self).capacity() == old(self).capacity(),
            final(self).entries() == resolve_begin(
                old(self).entries(),
                old(self).capacity(),
                fid,
                parent_fid,
                file_name@,
            ).0,
            resolution_path(r) == resolve_begin(
                old(self).entries(),
                old(self).capacity(),
                fid,
                parent_fid,
                file_name@,
            ).1,
            r matches Resolution::NeedsLookup(id) ==> id == parent_fid,
    {
        let ghost e = self.entries();
        let ghost cap = self.capacity();
        match cache_get(&mut self.cache, fid) {
            Some(path) => {
                proof { lemma_after_get_wf(e, cap, fid); }
                return Resolution::Resolved(path);
            },
            None => {},
        }
        match cache_get(&mut self.cache, parent_fid) {
            Some(parent_path) => {
                let path = join_path(&parent_path, file_name);
                proof {
                    lemma_after_get_wf(e, cap, parent_fid);
                    lemma_after_put_wf(after_get(e, parent_fid), cap, fid, path@);
                }
                cache_put(&mut self.cache, fid, copy_path(&path));
                Resolution::Resolved(path)
            },
            None => Resolution::NeedsLookup(parent_fid),
        }
    }

    /// Finishes a resolution that asked for the path of `parent_fid`, given
    /// the lookup's result. A found parent path is cached, and so is the
    /// entry's own path when it is a directory: directories come back as
    /// parents, plain files do not. A failed lookup gives `None`.
    pub fn complete_lookup(
        &mut self,
        fid: u64,
        parent_fid: u64,
        file_name: &Vec<u16>,
        is_dir: bool,
        parent_path: Option<Vec<u16>>,
    ) -> (r: Option<Vec<u16>>)
        requires
            old(self).wf(),
        ensures
            final(self).wf(),
            final(self).capacity() == old(self).capacity(),
            final(self).entries() == resolve_complete(
                old(self).entries(),
                old(self).capacity(),
                fid,
                parent_fid,
                file_name@,
                is_dir,
                match parent_path { Some(p) => Some(p@), None => None },
            ).0,
            (match r { Some(p) => Some(p@), None => None }) == resolve_complete(
                old(self).entries(),
                old(self).capacity(),
                fid,
                parent_fid,
                file_name@,
                is_dir,
                match parent_path { Some(p) => Some(p@), None => None },
            ).1,
    {
        let ghost e = self.entries();
        let ghost cap = self.capacity();
        match parent_path {
            None => None,
            Some(pp) => {
                let path = join_path(&pp, file_name);
                proof { lemma_after_put_wf(e, cap, parent_fid, pp@); }
                cache_put(&mut self.cache, parent_fid, pp);
                if is_dir {
                    proof { lemma_after_put_wf(after_put(e, cap, parent_fid, pp@), cap, fid, path@); }
                    cache_put(&mut self.cache, fid, copy_path(&path));
                }
                Some(path)
            },
        }
    }
}

/// In entries without repeated keys, the entry at `i` is the one of its key.
pub proof fn lemma_key_at(e: Seq<(u64, Seq<u16>)>, i: int)
    requires
        keys_unique(e),
        0 <= i < e.len(),
    ensures
        has_key(e, e[i].0),
        key_index(e, e[i].0) == i,
        value_of(e, e[i].0) == e[i].1,
{
    let k = e[i].0;
    assert(0 <= i < e.len() && e[i].0 == k);
    let j = key_index(e, k);
    assert(e[j].0 == k);
    if j != i {
        if j < i {
            assert(e[j].0 != e[i].0);
        } else {
            assert(e[i].0 != e[j].0);
        }
    }
}

/// A lookup keeps the entries well formed, and a found key comes first.
pub proof fn lemma_after_get_wf(e: Seq<(u64, Seq<u16>)>, cap: nat, k: u64)
    requires
        lru_wf(e, cap),
    ensures
        lru_wf(after_get(e, k), cap),
        has_key(e, k) ==> after_get(e, k)[0] == (k, value_of(e, k)),
        has_key(e, k) ==> after_get(e, k).len() == e.len(),
        forall|x: u64| has_key(after_get(e, k), x) <==> has_key(e, x),
        forall|x: u64| has_key(e, x) ==> value_of(after_get(e, k), x) == value_of(e, x),
        has_key(e, k) && key_index(e, k) != e.len() - 1 ==> after_get(e, k).last() == e.last(),
{
    if has_key(e, k) {
        let i = key_index(e, k);
        let r = after_get(e, k);
        assert(e[i].0 == k);
        assert forall|a: int, b: int| 0 <= a < b < r.len() implies r[a].0 != r[b].0 by {
            if a == 0 {
                if b - 1 < i {
                    assert(r[b] == e[b - 1]);
                } else {
                    assert(r[b] == e[b]);
                }
            } else {
                let ea = if a - 1 < i { a - 1 } else { a };
                let eb = if b - 1 < i { b - 1 } else { b };
                assert(r[a] == e[ea]);
                assert(r[b] == e[eb]);
            }
        }
        assert forall|x: u64| has_key(r, x) <==> has_key(e, x) by {
            if has_key(r, x) {
                let t = choose|t: int| 0 <= t < r.len() && r[t].0 == x;
                if t == 0 {
                    assert(e[i].0 == x);
                } else if t - 1 < i {
                    assert(e[t - 1].0 == x);
                } else {
                    assert(e[t].0 == x);
                }
            }
            if has_key(e, x) {
                let t = choose|t: int| 0 <= t < e.len() && e[t].0 == x;
                if t == i {
                    assert(r[0].0 == x);
                } else if t < i {
                    assert(r[t + 1].0 == x);
                } else {
                    assert(r[t].0 == x);
                }
            }
        }
        assert forall|x: u64| has_key(e, x) implies value_of(r, x) == value_of(e, x) by {
            let t = key_index(e, x);
            lemma_key_at(e, t);
            if t == i {
                lemma_key_at(r, 0);
            } else if t < i {
                assert(r[t + 1] == e[t]);
                lemma_key_at(r, t + 1);
            } else {
                assert(r[t] == e[t]);
                lemma_key_at(r, t);
            }
        }
        if i != e.len() - 1 {
            assert(r.last() == e[e.len() - 1]);
        }
    } else {
        assert forall|x: u64| has_key(e, x) implies value_of(after_get(e, k), x) == value_of(
            e,
            x,
        ) by {}
    }
}

/// Storing a path keeps the entries well formed and puts it first; every
/// key afterwards is the stored one or was there before.
pub proof fn lemma_after_put_wf(e: Seq<(u64, Seq<u16>)>, cap: nat, k: u64, v: Seq<u16>)
    requires
        lru_wf(e, cap),
    ensures
        lru_wf(after_put(e, cap, k, v), cap),
        after_put(e, cap, k, v)[0] == (k, v),
        forall|x: u64| has_key(after_put(e, cap, k, v), x) ==> x == k || has_key(e, x),
{
    let r = after_put(e, cap, k, v);
    if has_key(e, k) {
        let i = key_index(e, k);
        assert(e[i].0 == k);
        assert forall|a: int, b: int| 0 <= a < b < r.len() implies r[a].0 != r[b].0 by {
            if a == 0 {
                if b - 1 < i {
                    assert(r[b] == e[b - 1]);
                } else {
                    assert(r[b] == e[b]);
                }
            } else {
                let ea = if a - 1 < i { a - 1 } else { a };
                let eb = if b - 1 < i { b - 1 } else { b };
                assert(r[a] == e[ea]);
                assert(r[b] == e[eb]);
            }
        }
        assert forall|x: u64| has_key(r, x) implies x == k || has_key(e, x) by {
            let t = choose|t: int| 0 <= t < r.len() && r[t].0 == x;
            if t > 0 {
                if t - 1 < i {
                    assert(e[t - 1].0 == x);
                } else {
                    assert(e[t].0 == x);
                }
            }
        }
    } else {
        assert forall|a: int, b: int| 0 <= a < b < r.len() implies r[a].0 != r[b].0 by {
            assert(r[b] == e[b - 1]);
            if a == 0 {
                assert(!(0 <= b - 1 < e.len() && e[b - 1].0 == k));
            } else {
                assert(r[a] == e[a - 1]);
            }
        }
        assert forall|x: u64| has_key(r, x) implies x == k || has_key(e, x) by {
            let t = choose|t: int| 0 <= t < r.len() && r[t].0 == x;
            if t > 0 {
                assert(e[t - 1].0 == x);
            }
        }
    }
}

/// Resolving the same `(fid, parent_fid, name)` a second time gives the same
/// path as the first time, and the second resolution needs no lookup: its
/// first steps already give the path. This holds whether the first
/// resolution found its path in the cache or through a successful lookup.
/// A plain file that names itself as its own parent is left out: the lookup
/// caches the parent's path under that id, which the second resolution
/// then returns as it stands.
pub proof fn lemma_resolve_again_without_lookup(
    e: Seq<(u64, Seq<u16>)>,
    cap: nat,
    fid: u64,
    parent_fid: u64,
    name: Seq<u16>,
    is_dir: bool,
    parent_path: Option<Seq<u16>>,
)
    requires
        lru_wf(e, cap),
        is_dir || fid != parent_fid,
    ensures
        ({
            let first = resolve_begin(e, cap, fid, parent_fid, name);
            first.1 is Some ==> resolve_begin(first.0, cap, fid, parent_fid, name).1 == first.1
        }),
        ({
            let first = resolve_begin(e, cap, fid, parent_fid, name);
            let done = resolve_complete(first.0, cap, fid, parent_fid, name, is_dir, parent_path);
            first.1 is None && done.1 is Some ==> resolve_begin(done.0, cap, fid, parent_fid, name).1
                == done.1
        }),
{
    if has_key(e, fid) {
        lemma_after_get_wf(e, cap, fid);
        lemma_key_at(after_get(e, fid), 0);
    } else if has_key(e, parent_fid) {
        let path = path_join(value_of(e, parent_fid), name);
        lemma_after_get_wf(e, cap, parent_fid);
        lemma_after_put_wf(after_get(e, parent_fid), cap, fid, path);
        lemma_key_at(after_put(after_get(e, parent_fid), cap, fid, path), 0);
    } else if parent_path is Some {
        let pp = parent_path->0;
        let path = path_join(pp, name);
        let e1 = after_put(e, cap, parent_fid, pp);
        lemma_after_put_wf(e, cap, parent_fid, pp);
        lemma_key_at(e1, 0);
        if is_dir {
            lemma_after_put_wf(e1, cap, fid, path);
            lemma_key_at(after_put(e1, cap, fid, path), 0);
        } else {
            assert(!has_key(e1, fid));
        }
    }
}

/// The entries after storing `paths[i]` under `keys[i]` for each `i` in turn,
/// starting from `e`.
pub open spec fn put_all(
    e: Seq<(u64, Seq<u16>)>,
    cap: nat,
    keys: Seq<u64>,
    paths: Seq<Seq<u16>>,
) -> Seq<(u64, Seq<u16>)>
    decreases keys.len(),
{
    if keys.len() == 0 {
        e
    } else {
        after_put(
            put_all(e, cap, keys.drop_last(), paths),
            cap,
            keys.last(),
            paths[keys.len() - 1],
        )
    }
}

/// No key occurs twice in `keys`.
pub open spec fn distinct(keys: Seq<u64>) -> bool {
    forall|i: int, j: int| 0 <= i < j < keys.len() ==> keys[i] != keys[j]
}

/// Storing distinct keys into an empty cache keeps the last `cap` of them,
/// the most recent first.
pub proof fn lemma_put_all_fresh(cap: nat, keys: Seq<u64>, paths: Seq<Seq<u16>>)
    requires
        cap > 0,
        distinct(keys),
        paths.len() >= keys.len(),
    ensures
        ({
            let r = put_all(Seq::empty(), cap, keys, paths);
            let n = keys.len() as int;
            &&& lru_wf(r, cap)
            &&& r.len() == if n < cap { n } else { cap as int }
            &&& forall|t: int| 0 <= t < r.len() ==> r[t] == (keys[n - 1 - t], paths[n - 1 - t])
        }),
    decreases keys.len(),
{
    let n = keys.len() as int;
    if n > 0 {
        let prev = put_all(Seq::empty(), cap, keys.drop_last(), paths);
        lemma_put_all_fresh(cap, keys.drop_last(), paths);
        let k = keys.last();
        assert(!has_key(prev, k)) by {
            if has_key(prev, k) {
                let t = choose|t: int| 0 <= t < prev.len() && prev[t].0 == k;
                assert(prev[t].0 == keys[n - 2 - t]);
            }
        }
        lemma_after_put_wf(prev, cap, k, paths[n - 1]);
    }
}

/// With room for `cap` paths, once `cap + 1` distinct ids have been stored
/// the first of them, the least recently used, is gone, and the other `cap`
/// are all kept.
pub proof fn lemma_lru_evicts_oldest(cap: nat, keys: Seq<u64>, paths: Seq<Seq<u16>>)
    requires
        cap > 0,
        keys.len() == cap + 1,
        distinct(keys),
        paths.len() >= keys.len(),
    ensures
        !has_key(put_all(Seq::empty(), cap, keys, paths), keys[0]),
        forall|i: int| 1 <= i <= cap ==> has_key(put_all(Seq::empty(), cap, keys, paths), keys[i]),
{
    let r = put_all(Seq::empty(), cap, keys, paths);
    lemma_put_all_fresh(cap, keys, paths);
    if has_key(r, keys[0]) {
        let t = choose|t: int| 0 <= t < r.len() && r[t].0 == keys[0];
        assert(r[t].0 == keys[cap - t]);
    }
    assert forall|i: int| 1 <= i <= cap implies has_key(r, keys[i]) by {
        assert(r[cap - i].0 == keys[i]);
    }
}

/// An id that is not cached, and whose parent is not cached either, costs
/// exactly one lookup: the first steps ask for the parent's path and change
/// nothing, and once that lookup succeeds a directory is cached again under
/// its own id, with the path that was returned.
pub proof fn lemma_uncached_costs_one_lookup(
    e: Seq<(u64, Seq<u16>)>,
    cap: nat,
    fid: u64,
    parent_fid: u64,
    name: Seq<u16>,
    parent_path: Seq<u16>,
)
    requires
        lru_wf(e, cap),
        !has_key(e, fid),
        !has_key(e, parent_fid),
    ensures
        resolve_begin(e, cap, fid, parent_fid, name) == (e, None::<Seq<u16>>),
        ({
            let done = resolve_complete(e, cap, fid, parent_fid, name, true, Some(parent_path));
            &&& done.1 == Some(path_join(parent_path, name))
            &&& has_key(done.0, fid)
            &&& value_of(done.0, fid) == path_join(parent_path, name)
        }),
{
    let e1 = after_put(e, cap, parent_fid, parent_path);
    let path = path_join(parent_path, name);
    lemma_after_put_wf(e, cap, parent_fid, parent_path);
    lemma_after_put_wf(e1, cap, fid, path);
    lemma_key_at(after_put(e1, cap, fid, path), 0);
}

/// Storing a new id into a full cache keeps it full: the least recently used
/// id, the last entry, is gone, the new id holds its path, and every other
/// id keeps its path.
pub proof fn lemma_put_new_into_full(e: Seq<(u64, Seq<u16>)>, cap: nat, k: u64, v: Seq<u16>)
    requires
        lru_wf(e, cap),
        e.len() == cap,
        !has_key(e, k),
    ensures
        ({
            let r = after_put(e, cap, k, v);
            &&& lru_wf(r, cap)
            &&& r.len() == cap
            &&& !has_key(r, e.last().0)
            &&& has_key(r, k) && value_of(r, k) == v
            &&& forall|x: u64|
                has_key(e, x) && x != e.last().0 ==> has_key(r, x) && value_of(r, x) == value_of(
                    e,
                    x,
                )
        }),
{
    let r = after_put(e, cap, k, v);
    let d = e.last().0;
    lemma_after_put_wf(e, cap, k, v);
    lemma_key_at(r, 0);
    if has_key(r, d) {
        let t = choose|t: int| 0 <= t < r.len() && r[t].0 == d;
        if t == 0 {
            assert(e[e.len() - 1].0 == k);
        } else {
            assert(r[t] == e[t - 1]);
            assert(e[t - 1].0 != e[e.len() - 1].0);
        }
    }
    assert forall|x: u64| has_key(e, x) && x != d implies has_key(r, x) && value_of(r, x)
        == value_of(e, x) by {
        let t = key_index(e, x);
        lemma_key_at(e, t);
        assert(t != e.len() - 1);
        assert(r[t + 1] == e[t]);
        lemma_key_at(r, t + 1);
    }
}

/// Resolving an id that is not cached, under a cached parent, into a full
/// cache: the cache stays full, the new id holds its path, the least
/// recently used id after the parent was touched is gone (the last one of
/// the old cache, unless that was the parent), and every other id keeps its
/// path.
pub proof fn lemma_resolve_into_full_cache(
    e: Seq<(u64, Seq<u16>)>,
    cap: nat,
    fid: u64,
    parent_fid: u64,
    name: Seq<u16>,
)
    requires
        lru_wf(e, cap),
        e.len() == cap,
        !has_key(e, fid),
        has_key(e, parent_fid),
    ensures
        ({
            let r = resolve_begin(e, cap, fid, parent_fid, name);
            let d = after_get(e, parent_fid).last().0;
            &&& r.1 == Some(path_join(value_of(e, parent_fid), name))
            &&& lru_wf(r.0, cap)
            &&& r.0.len() == cap
            &&& !has_key(r.0, d)
            &&& (e.last().0 != parent_fid ==> d == e.last().0)
            &&& has_key(r.0, fid) && value_of(r.0, fid) == path_join(value_of(e, parent_fid), name)
            &&& forall|x: u64|
                has_key(e, x) && x != d ==> has_key(r.0, x) && value_of(r.0, x) == value_of(e, x)
        }),
{
    let g = after_get(e, parent_fid);
    let path = path_join(value_of(e, parent_fid), name);
    lemma_after_get_wf(e, cap, parent_fid);
    assert(!has_key(g, fid));
    lemma_put_new_into_full(g, cap, fid, path);
    if e.last().0 != parent_fid {
        let i = key_index(e, parent_fid);
        assert(e[i].0 == parent_fid);
        assert(i != e.len() - 1);
    }
}

} // verus!
