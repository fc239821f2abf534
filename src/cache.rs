use vstd::prelude::*;

verus! {

/// What a key is to the model: the request path and the query string, verbatim.
pub type KeyView = (Seq<char>, Seq<char>);

/// The identity of a cacheable request: path and query string exactly as they arrived.
pub struct CacheKey {
    pub path: String,
    pub query_string: String,
}

impl View for CacheKey {
    type V = KeyView;

    open spec fn view(&self) -> KeyView {
        (self.path@, self.query_string@)
    }
}

impl CacheKey {
    pub fn new(path: String, query_string: String) -> (r: CacheKey)
        ensures
            r@ == (path@, query_string@),
    {
        CacheKey { path, query_string }
    }

    /// Two keys are the same entry exactly when both fields match character for character.
    pub fn same_as(&self, other: &CacheKey) -> (r: bool)
        ensures
            r == (self@ == other@),
    {
        self.path == other.path && self.query_string == other.query_string
    }
}

impl Clone for CacheKey {
    fn clone(&self) -> (r: CacheKey)
        ensures
            r@ == self@,
    {
        CacheKey { path: self.path.clone(), query_string: self.query_string.clone() }
    }
}

/// A stored value and the instant, in milliseconds, at which it was stored.
pub struct Stored {
    pub value: Seq<u8>,
    pub inserted_at: nat,
}

/// The abstract state of a cache: its time-to-live and what it holds.
pub struct CacheView {
    pub ttl: nat,
    pub store: Map<KeyView, Stored>,
}

/// An entry stored at `inserted_at` is fresh at `now` while its age is under the TTL.
pub open spec fn is_fresh(inserted_at: nat, ttl: nat, now: nat) -> bool {
    now - inserted_at < ttl
}

/// What a lookup of `k` at `now` yields: the value of a fresh entry, else nothing.
pub open spec fn lookup(c: CacheView, k: KeyView, now: nat) -> Option<Seq<u8>> {
    if c.store.contains_key(k) && is_fresh(c.store[k].inserted_at, c.ttl, now) {
        Some(c.store[k].value)
    } else {
        None
    }
}

/// The cache after storing `v` under `k` at `now`, replacing any earlier entry.
pub open spec fn inserted(c: CacheView, k: KeyView, v: Seq<u8>, now: nat) -> CacheView {
    CacheView { ttl: c.ttl, store: c.store.insert(k, Stored { value: v, inserted_at: now }) }
}

/// The cache after a sweep at `now`: exactly the entries still fresh remain.
pub open spec fn swept(c: CacheView, now: nat) -> CacheView {
    CacheView {
        ttl: c.ttl,
        store: Map::new(
            |k: KeyView| c.store.contains_key(k) && is_fresh(c.store[k].inserted_at, c.ttl, now),
            |k: KeyView| c.store[k],
        ),
    }
}

/// How many entries a sweep at `now` removes.
pub open spec fn removed_count(c: CacheView, now: nat) -> int {
    c.store.len() - swept(c, now).store.len()
}

/// One stored entry: key, value and insertion instant in milliseconds.
struct CacheEntry {
    key: CacheKey,
    value: Vec<u8>,
    inserted_at: u64,
}

impl CacheEntry {
    spec fn stored(&self) -> Stored {
        Stored { value: self.value@, inserted_at: self.inserted_at as nat }
    }
}

/// A store of byte values keyed by request identity, with one TTL (milliseconds)
/// for every entry. Stale entries stay in place until `remove_expired` runs, but
/// a lookup never returns them.
pub struct Cache {
    ttl: u64,
    entries: Vec<CacheEntry>,
    store: Ghost<Map<KeyView, Stored>>,
}

impl View for Cache {
    type V = CacheView;

    closed spec fn view(&self) -> CacheView {
        CacheView { ttl: self.ttl as nat, store: self.store@ }
    }
}

impl Cache {
    /// The entries hold each key at most once, and the model maps each key to its entry.
    #[verifier::type_invariant]
    spec fn wf(&self) -> bool {
        &&& forall|i: int, j: int|
            0 <= i < j < self.entries@.len() ==> self.entries@[i].key@ != self.entries@[j].key@
        &&& forall|i: int|
            #![trigger self.entries@[i]]
            0 <= i < self.entries@.len() ==> self.store@.contains_key(self.entries@[i].key@)
                && self.store@[self.entries@[i].key@] == self.entries@[i].stored()
        &&& forall|k: KeyView|
            #[trigger] self.store@.contains_key(k) ==> exists|i: int|
                0 <= i < self.entries@.len() && self.entries@[i].key@ == k
        &&& self.store@.dom().finite()
        &&& self.store@.len() == self.entries@.len()
    }

    /// An empty cache whose entries stay fresh for `ttl` milliseconds.
    pub fn new(ttl: u64) -> (r: Cache)
        ensures
            r@.ttl == ttl as nat,
            r@.store == Map::<KeyView, Stored>::empty(),
    {
        Cache { ttl, entries: Vec::new(), store: Ghost(Map::empty()) }
    }

    /// The time-to-live, in milliseconds, that applies to every entry.
    pub fn ttl(&self) -> (r: u64)
        ensures
            r as nat == self@.ttl,
    {
        self.ttl
    }

    /// The number of entries held, fresh or stale.
    pub fn len(&self) -> (r: usize)
        ensures
            r as nat == self@.store.len(),
    {
        proof {
            use_type_invariant(self);
        }
        self.entries.len()
    }

    fn position(&self, key: &CacheKey) -> (r: Option<usize>)
        requires
            self.wf(),
        ensures
            match r {
                Some(i) => i < self.entries@.len() && self.entries@[i as int].key@ == key@,
                None => !self@.store.contains_key(key@),
            },
    {
        let mut i: usize = 0;
        while i < self.entries.len()
            invariant
                self.wf(),
                i <= self.entries@.len(),
                forall|j: int| 0 <= j < i ==> self.entries@[j].key@ != key@,
            decreases self.entries@.len() - i,
        {
            if self.entries[i].key.same_as(key) {
                return Some(i);
            }
            i = i + 1;
        }
        None
    }

    /// A copy of the value stored under `key` if that entry is fresh at `now`.
    pub fn get(&self, key: &CacheKey, now: u64) -> (r: Option<Vec<u8>>)
        ensures
            match r {
                Some(v) => lookup(self@, key@, now as nat) == Some(v@),
                None => lookup(self@, key@, now as nat) is None,
            },
    {
        proof {
            use_type_invariant(self);
        }
        match self.position(key) {
            Some(i) => {
                let e = &self.entries[i];
                if now < e.inserted_at || now - e.inserted_at < self.ttl {
                    let v = e.value.clone();
                    assert(v@ =~= e.value@);
                    Some(v)
                } else {
                    None
                }
            },
            None => None,
        }
    }

    /// Stores `value` under `key` as inserted at `now`, replacing any earlier entry
    /// for that key, fresh or stale.
    pub fn insert(&mut self, key: CacheKey, value: Vec<u8>, now: u64)
        ensures
            final(self)@ == inserted(old(self)@, key@, value@, now as nat),
    {
        proof {
            use_type_invariant(&*self);
        }
        let ghost k = key@;
        let ghost st = Stored { value: value@, inserted_at: now as nat };
        let pos = self.position(&key);
        let mut taken = Cache::new(self.ttl);
        std::mem::swap(self, &mut taken);
        proof {
            use_type_invariant(&taken);
        }
        let ghost prev = taken;
        let Cache { ttl, mut entries, store } = taken;
        let entry = CacheEntry { key, value, inserted_at: now };
        let ghost new_store = store@.insert(k, st);
        match pos {
            Some(i) => {
                entries.set(i, entry);
                assert(new_store.dom() =~= prev.store@.dom());
                assert forall|kk: KeyView| #[trigger] new_store.contains_key(kk) implies exists|j: int|
                    0 <= j < entries@.len() && entries@[j].key@ == kk by {
                    let j = choose|j: int| 0 <= j < prev.entries@.len() && prev.entries@[j].key@ == kk;
                    if j == i {
                        assert(entries@[j].key@ == kk);
                    } else {
                        assert(entries@[j] == prev.entries@[j]);
                    }
                }
            },
            None => {
                entries.push(entry);
                assert forall|kk: KeyView| #[trigger] new_store.contains_key(kk) implies exists|j: int|
                    0 <= j < entries@.len() && entries@[j].key@ == kk by {
                    if kk == k {
                        assert(entries@[entries@.len() - 1].key@ == kk);
                    } else {
                        let j = choose|j: int| 0 <= j < prev.entries@.len() && prev.entries@[j].key@ == kk;
                        assert(entries@[j] == prev.entries@[j]);
                    }
                }
            },
        }
        let ghost r = Cache { ttl, entries, store: Ghost(new_store) };
        assert(r.entries == entries && r.store@ == new_store);
        assert(r.wf());
        let result = Cache { ttl, entries, store: Ghost(new_store) };
        *self = result;
    }

    /// Removes every entry that is stale at `now` and returns how many were removed.
    pub fn remove_expired(&mut self, now: u64) -> (r: usize)
        ensures
            final(self)@ == swept(old(self)@, now as nat),
            r as int == removed_count(old(self)@, now as nat),
    {
        proof {
            use_type_invariant(&*self);
        }
        let ghost c = self@;
        let ghost target = swept(c, now as nat).store;
        let mut kept: Vec<CacheEntry> = Vec::new();
        let ghost mut kept_map: Map<KeyView, Stored> = Map::empty();
        let mut taken = Cache::new(self.ttl);
        std::mem::swap(self, &mut taken);
        let Cache { ttl, entries: old_entries, store: _ } = taken;
        let n = old_entries.len();
        let mut i: usize = 0;
        while i < n
            invariant
                n == old_entries@.len(),
                i <= n,
                forall|a: int, b: int|
                    0 <= a < b < old_entries@.len() ==> old_entries@[a].key@ != old_entries@[b].key@,
                forall|a: int|
                    #![trigger old_entries@[a]]
                    0 <= a < old_entries@.len() ==> c.store.contains_key(old_entries@[a].key@)
                        && c.store[old_entries@[a].key@] == old_entries@[a].stored(),
                forall|a: int, b: int|
                    0 <= a < b < kept@.len() ==> kept@[a].key@ != kept@[b].key@,
                forall|a: int|
                    #![trigger kept@[a]]
                    0 <= a < kept@.len() ==> kept_map.contains_key(kept@[a].key@)
                        && kept_map[kept@[a].key@] == kept@[a].stored()
                        && exists|b: int| 0 <= b < i && old_entries@[b].key@ == kept@[a].key@,
                forall|kk: KeyView|
                    #[trigger] kept_map.contains_key(kk) ==> exists|a: int|
                        0 <= a < kept@.len() && kept@[a].key@ == kk,
                forall|kk: KeyView|
                    #[trigger] kept_map.contains_key(kk) ==> target.contains_key(kk) && kept_map[kk] == target[kk],
                forall|b: int|
                    0 <= b < i && is_fresh(old_entries@[b].inserted_at as nat, c.ttl, now as nat)
                        ==> #[trigger] kept_map.contains_key(old_entries@[b].key@),
                kept_map.dom().finite(),
                kept_map.len() == kept@.len(),
                kept@.len() <= i,
                target == swept(c, now as nat).store,
                ttl as nat == c.ttl,
            decreases n - i,
        {
            let e = &old_entries[i];
            if now < e.inserted_at || now - e.inserted_at < ttl {
                let ne = CacheEntry { key: e.key.clone(), value: e.value.clone(), inserted_at: e.inserted_at };
                assert(ne.value@ =~= e.value@);
                let ghost prev_kept = kept@;
                let ghost prev_map = kept_map;
                proof {
                    assert(!kept_map.contains_key(e.key@)) by {
                        if kept_map.contains_key(e.key@) {
                            let a = choose|a: int| 0 <= a < kept@.len() && kept@[a].key@ == e.key@;
                            let b = choose|b: int| 0 <= b < i && old_entries@[b].key@ == kept@[a].key@;
                            assert(old_entries@[b].key@ != old_entries@[i as int].key@);
                        }
                    }
                    assert(c.store[old_entries@[i as int].key@] == old_entries@[i as int].stored());
                    assert(is_fresh(c.store[e.key@].inserted_at, c.ttl, now as nat));
                    assert(target.contains_key(e.key@));
                    kept_map = kept_map.insert(e.key@, ne.stored());
                }
                kept.push(ne);
                proof {
                    assert forall|kk: KeyView| #[trigger] kept_map.contains_key(kk) implies exists|a: int|
                        0 <= a < kept@.len() && kept@[a].key@ == kk by {
                        if kk == e.key@ {
                            assert(kept@[kept@.len() - 1].key@ == kk);
                        } else {
                            assert(prev_map.contains_key(kk));
                            let a = choose|a: int| 0 <= a < prev_kept.len() && prev_kept[a].key@ == kk;
                            assert(kept@[a] == prev_kept[a]);
                        }
                    }
                }
            }
            i = i + 1;
        }
        let removed = n - kept.len();
        proof {
            assert forall|kk: KeyView| target.contains_key(kk) implies #[trigger] kept_map.contains_key(kk) by {
                let b = choose|b: int| 0 <= b < old_entries@.len() && old_entries@[b].key@ == kk;
                assert(c.store[old_entries@[b].key@] == old_entries@[b].stored());
            }
            assert(kept_map =~= target);
        }
        let ghost r = Cache { ttl, entries: kept, store: Ghost(kept_map) };
        assert(r.entries == kept && r.store@ == kept_map);
        assert(r.wf());
        let result = Cache { ttl, entries: kept, store: Ghost(kept_map) };
        *self = result;
        removed
    }
}

} // verus!
