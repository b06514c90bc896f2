//! Change detection: hash indexes keyed by identifier, and the run-scoped
//! cache of hashes already fetched from the store.

use vstd::prelude::*;

use crate::text::str_eq;

verus! {

/// The map a key-value list denotes; a later binding would win.
pub open spec fn entries_map(ps: Seq<(String, String)>) -> Map<Seq<char>, Seq<char>>
    decreases ps.len(),
{
    if ps.len() == 0 {
        Map::empty()
    } else {
        entries_map(ps.drop_last()).insert(ps.last().0@, ps.last().1@)
    }
}

pub proof fn lemma_entries_map_domain(ps: Seq<(String, String)>, k: Seq<char>)
    ensures
        entries_map(ps).contains_key(k) <==> exists|i: int|
            0 <= i < ps.len() && (#[trigger] ps[i]).0@ == k,
    decreases ps.len(),
{
    if ps.len() > 0 {
        let prefix = ps.drop_last();
        lemma_entries_map_domain(prefix, k);
        if k == ps.last().0@ {
            assert(ps[ps.len() - 1].0@ == k);
        } else {
            if entries_map(ps).contains_key(k) {
                let i = choose|i: int| 0 <= i < prefix.len() && prefix[i].0@ == k;
                assert(ps[i].0@ == k);
            }
            if exists|i: int| 0 <= i < ps.len() && (#[trigger] ps[i]).0@ == k {
                let i = choose|i: int| 0 <= i < ps.len() && (#[trigger] ps[i]).0@ == k;
                assert(i < ps.len() - 1);
                assert(prefix[i].0@ == k);
            }
        }
    }
}

/// The binding of the last occurrence of a key is the map's value.
pub proof fn lemma_entries_map_get(ps: Seq<(String, String)>, i: int)
    requires
        0 <= i < ps.len(),
        forall|j: int| i < j < ps.len() ==> (#[trigger] ps[j]).0@ != ps[i].0@,
    ensures
        entries_map(ps).contains_key(ps[i].0@),
        entries_map(ps)[ps[i].0@] == ps[i].1@,
    decreases ps.len(),
{
    if i < ps.len() - 1 {
        let prefix = ps.drop_last();
        assert forall|j: int| i < j < prefix.len() implies (#[trigger] prefix[j]).0@
            != prefix[i].0@ by {
            assert(prefix[j] == ps[j]);
        }
        lemma_entries_map_get(prefix, i);
        assert(ps.last().0@ != ps[i].0@);
    }
}

/// A hash index: identifiers — administrative codes, or the sentinel — to
/// base64 digests.  Also serves as the run-scoped cache of hashes fetched
/// from the store, where an empty value stands for a missing store entry.
pub struct HashIndex {
    pub entries: Vec<(String, String)>,
}

impl View for HashIndex {
    type V = Map<Seq<char>, Seq<char>>;

    open spec fn view(&self) -> Map<Seq<char>, Seq<char>> {
        entries_map(self.entries@)
    }
}

impl HashIndex {
    /// Every identifier is stored at most once.
    pub open spec fn wf(&self) -> bool {
        forall|i: int, j: int|
            0 <= i < j < self.entries@.len() ==> (#[trigger] self.entries@[i]).0@ != (
            #[trigger] self.entries@[j]).0@
    }

    /// An empty index.
    pub fn new() -> (r: HashIndex)
        ensures
            r@ == Map::<Seq<char>, Seq<char>>::empty(),
            r.wf(),
    {
        HashIndex { entries: Vec::new() }
    }

    /// The hash stored under `id`, if any.
    pub fn get(&self, id: &str) -> (r: Option<&String>)
        requires
            self.wf(),
        ensures
            match r {
                Some(h) => self@.contains_key(id@) && h@ == self@[id@],
                None => !self@.contains_key(id@),
            },
    {
        let n = self.entries.len();
        let mut i: usize = 0;
        while i < n
            invariant
                i <= n,
                n == self.entries@.len(),
                self.wf(),
                forall|q: int| 0 <= q < i ==> (#[trigger] self.entries@[q]).0@ != id@,
            decreases n - i,
        {
            let hit = str_eq(self.entries[i].0.as_str(), id);
            if hit {
                proof {
                    lemma_entries_map_get(self.entries@, i as int);
                }
                return Some(&self.entries[i].1);
            }
            i = i + 1;
        }
        proof {
            lemma_entries_map_domain(self.entries@, id@);
        }
        None
    }

    /// Binds a fresh identifier.
    pub fn put(&mut self, id: String, h: String)
        requires
            old(self).wf(),
            !old(self)@.contains_key(id@),
        ensures
            final(self).wf(),
            final(self)@ == old(self)@.insert(id@, h@),
    {
        proof {
            lemma_entries_map_domain(self.entries@, id@);
            assert(self.entries@.push((id, h)).drop_last() =~= self.entries@);
        }
        self.entries.push((id, h));
    }
}

/// A change verdict the cache can give without the store: either the
/// stored hash for the identifier is already known, or it must be fetched.
pub enum LookupOutcome {
    Decided(bool),
    NeedFetch,
}

/// The cache's verdict on whether `id`'s hash changed: decided by
/// comparison when `id` was fetched before, else a fetch is needed.
pub fn check_cached(cache: &HashIndex, id: &String, fresh: &String) -> (r: LookupOutcome)
    requires
        cache.wf(),
    ensures
        match r {
            LookupOutcome::Decided(changed) => cache@.contains_key(id@) && changed == (cache@[id@]
                != fresh@),
            LookupOutcome::NeedFetch => !cache@.contains_key(id@),
        },
{
    match cache.get(id.as_str()) {
        Some(h) => {
            let same = str_eq(h.as_str(), fresh.as_str());
            LookupOutcome::Decided(!same)
        },
        None => LookupOutcome::NeedFetch,
    }
}

/// Digests what the store answered for `id`: the fetched hash is cached —
/// an empty placeholder when the store had no entry — and the verdict is
/// change exactly when the entry was missing or differed from `fresh`.
pub fn apply_fetched(cache: &mut HashIndex, id: String, fetched: Option<String>, fresh: &String)
    -> (changed: bool)
    requires
        old(cache).wf(),
        !old(cache)@.contains_key(id@),
    ensures
        final(cache).wf(),
        changed == match fetched {
            Some(h) => h@ != fresh@,
            None => true,
        },
        final(cache)@ == old(cache)@.insert(
            id@,
            match fetched {
                Some(h) => h@,
                None => Seq::<char>::empty(),
            },
        ),
{
    match fetched {
        Some(h) => {
            let same = str_eq(h.as_str(), fresh.as_str());
            cache.put(id, h);
            !same
        },
        None => {
            cache.put(id, String::new());
            true
        },
    }
}

} // verus!
