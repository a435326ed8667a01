//! A bounded cache of verification results, keyed by bytes, that evicts the entries
//! used least once it is full.
use vstd::prelude::*;

verus! {

/// A cached value and the number of times it was refreshed.
#[derive(Debug)]
pub struct CacheEntry<V> {
    value: V,
    uses: usize,
}

impl<V> CacheEntry<V> {
    /// The cached value.
    pub closed spec fn value_spec(&self) -> V {
        self.value
    }

    /// How many times the entry was refreshed.
    pub closed spec fn uses_spec(&self) -> nat {
        self.uses as nat
    }

    /// A fresh entry, not used yet.
    pub fn new(value: V) -> (r: Self)
        ensures
            r.value_spec() == value,
            r.uses_spec() == 0,
    {
        CacheEntry { value, uses: 0 }
    }

    /// Replaces the value and counts one more use, saturating at the largest count.
    pub fn update(&mut self, value: V)
        ensures
            final(self).value_spec() == value,
            final(self).uses_spec() == if old(self).uses_spec() < usize::MAX {
                old(self).uses_spec() + 1
            } else {
                old(self).uses_spec()
            },
    {
        self.value = value;
        self.uses = self.uses.saturating_add(1);
    }

    /// The cached value.
    pub fn value(&self) -> (r: &V)
        ensures
            *r == self.value_spec(),
    {
        &self.value
    }

    /// How many times the entry was refreshed.
    pub fn uses(&self) -> (r: usize)
        ensures
            r == self.uses_spec(),
    {
        self.uses
    }
}

/// A cache of at most `size` entries, keyed by byte strings.
#[derive(Debug)]
pub struct AuthCache<V> {
    size: usize,
    keys: Vec<Vec<u8>>,
    entries: Vec<CacheEntry<V>>,
}

/// The default number of entries a cache holds.
pub const DEFAULT_CACHE_SIZE: usize = 10000;

impl<V> Default for AuthCache<V> {
    fn default() -> (r: Self)
        ensures
            r.wf(),
            r.capacity() == DEFAULT_CACHE_SIZE,
            r.len() == 0,
    {
        AuthCache::new(DEFAULT_CACHE_SIZE)
    }
}

impl<V> AuthCache<V> {
    /// The most entries the cache holds.
    pub closed spec fn capacity(&self) -> nat {
        self.size as nat
    }

    /// The number of entries.
    pub closed spec fn len(&self) -> nat {
        self.keys@.len()
    }

    /// The key of entry `i`.
    pub closed spec fn key_at(&self, i: int) -> Seq<u8> {
        self.keys@[i]@
    }

    /// Entry `i`.
    pub closed spec fn entry_at(&self, i: int) -> CacheEntry<V> {
        self.entries@[i]
    }

    /// Keys are unique, and each has its entry.
    pub closed spec fn wf(&self) -> bool {
        &&& self.keys@.len() == self.entries@.len()
        &&& forall|i: int, j: int|
            0 <= i < j < self.keys@.len() ==> self.keys@[i]@ != self.keys@[j]@
    }

    /// Whether `k` has an entry.
    pub open spec fn has(&self, k: Seq<u8>) -> bool {
        exists|i: int| 0 <= i < self.len() && self.key_at(i) == k
    }

    /// The position of the entry for `k`.
    pub open spec fn index_of(&self, k: Seq<u8>) -> int {
        choose|i: int| 0 <= i < self.len() && self.key_at(i) == k
    }

    /// An empty cache of at most `size` entries.
    pub fn new(size: usize) -> (r: Self)
        ensures
            r.wf(),
            r.capacity() == size,
            r.len() == 0,
    {
        AuthCache { size, keys: Vec::new(), entries: Vec::new() }
    }

    /// Changes the most entries the cache holds; entries over it leave on the next
    /// insertion of a new key.
    pub fn set_size(&mut self, size: usize)
        requires
            old(self).wf(),
        ensures
            final(self).wf(),
            final(self).capacity() == size,
            final(self).len() == old(self).len(),
            forall|i: int| 0 <= i < final(self).len() ==> final(self).key_at(i) == old(self).key_at(i)
                && final(self).entry_at(i) == old(self).entry_at(i),
    {
        self.size = size;
    }

    fn find(&self, k: &[u8]) -> (r: Option<usize>)
        requires
            self.wf(),
        ensures
            r is Some ==> r->0 < self.len() && self.key_at(r->0 as int) == k@,
            r is None ==> !self.has(k@),
    {
        let mut i: usize = 0;
        while i < self.keys.len()
            invariant
                i <= self.keys@.len(),
                forall|j: int| 0 <= j < i ==> self.keys@[j]@ != k@,
            decreases self.keys@.len() - i,
        {
            if bytes_eq(self.keys[i].as_slice(), k) {
                return Some(i);
            }
            i = i + 1;
        }
        None
    }

    /// The value cached for `k`.
    pub fn get(&self, k: &[u8]) -> (r: Option<&V>)
        requires
            self.wf(),
        ensures
            r is None <==> !self.has(k@),
            r is Some ==> *r->0 == self.entry_at(self.index_of(k@)).value_spec(),
    {
        match self.find(k) {
            Some(i) => {
                proof {
                    let j = self.index_of(k@);
                    if j != i {
                        if j < i {
                            assert(self.keys@[j]@ != self.keys@[i as int]@);
                        } else {
                            assert(self.keys@[i as int]@ != self.keys@[j]@);
                        }
                    }
                }
                Some(self.entries[i].value())
            },
            None => None,
        }
    }

    fn least_used(&self) -> (r: usize)
        requires
            self.wf(),
            self.len() > 0,
        ensures
            r < self.len(),
            forall|j: int| 0 <= j < self.len() ==> self.entry_at(r as int).uses_spec() <= self.entry_at(j).uses_spec(),
    {
        let mut best: usize = 0;
        let mut i: usize = 1;
        while i < self.entries.len()
            invariant
                self.entries@.len() == self.keys@.len(),
                1 <= i <= self.entries@.len(),
                best < i,
                forall|j: int| 0 <= j < i ==> self.entries@[best as int].uses <= #[trigger] self.entries@[j].uses,
            decreases self.entries@.len() - i,
        {
            if self.entries[i].uses() < self.entries[best].uses() {
                best = i;
            }
            i = i + 1;
        }
        best
    }

    proof fn lemma_index(&self, i: int, k: Seq<u8>)
        requires
            self.wf(),
            0 <= i < self.len(),
            self.key_at(i) == k,
        ensures
            self.has(k),
            self.index_of(k) == i,
    {
        let j = self.index_of(k);
        if j != i {
            if j < i {
                assert(self.keys@[j]@ != self.keys@[i]@);
            } else {
                assert(self.keys@[i]@ != self.keys@[j]@);
            }
        }
    }

    /// Whether entry `e` stood under key `q` before: the same entry, untouched.
    pub open spec fn kept_from(&self, old: &Self, q: Seq<u8>) -> bool {
        old.has(q) && self.entry_at(self.index_of(q)) == old.entry_at(old.index_of(q))
    }

    /// Stores `v` for `k`. A known key has its value replaced and one more use
    /// counted. A new key first makes room: while the cache is full, an entry with
    /// the fewest uses leaves. The new entry starts with no uses.
    pub fn insert(&mut self, k: Vec<u8>, v: V)
        requires
            old(self).wf(),
            old(self).capacity() > 0,
        ensures
            final(self).wf(),
            final(self).capacity() == old(self).capacity(),
            final(self).has(k@),
            final(self).entry_at(final(self).index_of(k@)).value_spec() == v,
            old(self).has(k@) ==> final(self).len() == old(self).len() && final(self).entry_at(
                final(self).index_of(k@),
            ).uses_spec() == if old(self).entry_at(old(self).index_of(k@)).uses_spec() < usize::MAX {
                old(self).entry_at(old(self).index_of(k@)).uses_spec() + 1
            } else {
                old(self).entry_at(old(self).index_of(k@)).uses_spec()
            },
            !old(self).has(k@) ==> final(self).entry_at(final(self).index_of(k@)).uses_spec() == 0,
            !old(self).has(k@) && old(self).len() < old(self).capacity() ==> final(self).len()
                == old(self).len() + 1,
            !old(self).has(k@) && old(self).len() >= old(self).capacity() ==> final(self).len()
                == old(self).capacity(),
            forall|q: Seq<u8>|
                q != k@ && #[trigger] final(self).has(q) ==> final(self).kept_from(old(self), q),
            forall|q: Seq<u8>, p: Seq<u8>|
                #[trigger] old(self).has(q) && q != k@ && !final(self).has(q) && p != k@
                    && #[trigger] final(self).has(p) ==> old(self).entry_at(
                    old(self).index_of(q),
                ).uses_spec() <= final(self).entry_at(final(self).index_of(p)).uses_spec(),
    {
        let ghost o = *self;
        if let Some(i) = self.find(k.as_slice()) {
            let mut e = self.entries.remove(i);
            e.update(v);
            self.entries.insert(i, e);
            proof {
                assert(self.keys@ == o.keys@);
                assert(self.entries@ =~= o.entries@.update(i as int, e));
                o.lemma_index(i as int, k@);
                self.lemma_index(i as int, k@);
                assert forall|q: Seq<u8>| q != k@ && #[trigger] self.has(q) implies self.kept_from(&o, q) by {
                    let j = self.index_of(q);
                    self.lemma_index(j, q);
                    o.lemma_index(j, q);
                }
                assert forall|q: Seq<u8>| #[trigger] o.has(q) implies self.has(q) by {
                    let j = o.index_of(q);
                    assert(self.key_at(j) == q);
                }
            }
            return;
        }
        while self.keys.len() >= self.size
            invariant
                self.wf(),
                self.size > 0,
                self.size == o.size,
                o.wf(),
                !o.has(k@),
                o.len() < o.capacity() ==> self.len() == o.len(),
                o.len() >= o.capacity() ==> self.len() >= o.capacity() - 1,
                forall|i: int| 0 <= i < self.len() ==> o.has(#[trigger] self.key_at(i)) && self.entry_at(i)
                    == o.entry_at(o.index_of(self.key_at(i))),
                forall|q: Seq<u8>, i: int|
                    #[trigger] o.has(q) && !self.has(q) && 0 <= i < self.len() ==> o.entry_at(
                        o.index_of(q),
                    ).uses_spec() <= #[trigger] self.entry_at(i).uses_spec(),
            decreases self.keys@.len(),
        {
            let ghost before = *self;
            let j = self.least_used();
            self.keys.remove(j);
            self.entries.remove(j);
            proof {
                assert forall|i: int| 0 <= i < self.len() implies o.has(#[trigger] self.key_at(i))
                    && self.entry_at(i) == o.entry_at(o.index_of(self.key_at(i))) by {
                    if i < j {
                        assert(self.key_at(i) == before.key_at(i));
                        assert(self.entry_at(i) == before.entry_at(i));
                    } else {
                        assert(self.key_at(i) == before.key_at(i + 1));
                        assert(self.entry_at(i) == before.entry_at(i + 1));
                    }
                }
                assert forall|q: Seq<u8>, i: int|
                    #[trigger] o.has(q) && !self.has(q) && 0 <= i < self.len() implies o.entry_at(
                        o.index_of(q),
                    ).uses_spec() <= #[trigger] self.entry_at(i).uses_spec() by {
                    let bi = if i < j { i } else { i + 1 };
                    assert(self.entry_at(i) == before.entry_at(bi));
                    assert(self.key_at(i) == before.key_at(bi));
                    if before.has(q) {
                        let bq = before.index_of(q);
                        if bq != j {
                            let si = if bq < j { bq } else { bq - 1 };
                            assert(self.key_at(si) == q);
                        }
                        assert(bq == j);
                        before.lemma_index(j as int, before.key_at(j as int));
                        assert(before.entry_at(j as int) == o.entry_at(o.index_of(before.key_at(j as int))));
                        assert(before.entry_at(j as int).uses_spec() <= before.entry_at(bi).uses_spec());
                    }
                }
                assert forall|a: int, b: int| 0 <= a < b < self.keys@.len() implies self.keys@[a]@ != self.keys@[b]@ by {
                    let ba = if a < j { a } else { a + 1 };
                    let bb = if b < j { b } else { b + 1 };
                    assert(self.keys@[a] == before.keys@[ba]);
                    assert(self.keys@[b] == before.keys@[bb]);
                }
            }
        }
        let ghost mid = *self;
        self.keys.push(k);
        self.entries.push(CacheEntry::new(v));
        proof {
            let n = mid.len() as int;
            assert forall|a: int, b: int| 0 <= a < b < self.keys@.len() implies self.keys@[a]@ != self.keys@[b]@ by {
                if b == n {
                    assert(o.has(mid.key_at(a)));
                }
            }
            self.lemma_index(n, k@);
            assert forall|q: Seq<u8>| q != k@ && #[trigger] self.has(q) implies self.kept_from(&o, q) by {
                let i = self.index_of(q);
                self.lemma_index(i, q);
                assert(i < n);
                assert(self.key_at(i) == mid.key_at(i));
                o.lemma_index(o.index_of(q), q);
            }
            assert forall|q: Seq<u8>, p: Seq<u8>|
                #[trigger] o.has(q) && q != k@ && !self.has(q) && p != k@ && #[trigger] self.has(p)
                    implies o.entry_at(o.index_of(q)).uses_spec() <= self.entry_at(self.index_of(p)).uses_spec() by {
                let i = self.index_of(p);
                self.lemma_index(i, p);
                assert(i < n);
                if mid.has(q) {
                    let m = mid.index_of(q);
                    assert(self.key_at(m) == q);
                }
                assert(self.entry_at(i) == mid.entry_at(i));
            }
        }
    }
}

/// Whether two byte strings are equal.
fn bytes_eq(a: &[u8], b: &[u8]) -> (r: bool)
    ensures
        r == (a@ == b@),
{
    if a.len() != b.len() {
        return false;
    }
    let mut i: usize = 0;
    while i < a.len()
        invariant
            a@.len() == b@.len(),
            i <= a@.len(),
            forall|j: int| 0 <= j < i ==> a@[j] == b@[j],
        decreases a@.len() - i,
    {
        if a[i] != b[i] {
            return false;
        }
        i = i + 1;
    }
    proof {
        assert(a@ =~= b@);
    }
    true
}

} // verus!
