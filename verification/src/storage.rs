use vstd::prelude::*;

use crate::error::ServerError;
use crate::types::{make_key_error, spec_is_expired, ElementModel, StorageElement, value_wf};

verus! {

/// Container for one entry of the store.
#[derive(Debug)]
pub struct HashMapContainer {
    /// The key under which the entry is stored.
    pub key: String,
    /// The data for the entry.
    pub element: StorageElement,
    /// The entry's slot in the expiring-keys index, when it carries an
    /// expiration.
    pub key_index: Option<usize>,
}

/// Top level storage container.
///
/// Entries live in a vector with distinct keys. A second vector holds the
/// keys of exactly those entries that carry an expiration, and each such
/// entry records its slot there, so that one uniformly random expiring key
/// can be drawn in constant time.
pub struct HashMapStorage {
    /// The entries, with pairwise distinct keys.
    pub storage: Vec<HashMapContainer>,
    /// The keys of the entries that carry an expiration.
    pub expiring_keys: Vec<String>,
}

/// Whether some entry is stored under the key.
pub open spec fn has_key(s: Seq<HashMapContainer>, k: Seq<char>) -> bool {
    exists|i: int| 0 <= i < s.len() && s[i].key@ == k
}

/// The position of the entry stored under the key.
pub open spec fn key_pos(s: Seq<HashMapContainer>, k: Seq<char>) -> int {
    choose|i: int| 0 <= i < s.len() && s[i].key@ == k
}

/// The mapping from keys to entry models that an entry sequence denotes.
pub open spec fn map_of(s: Seq<HashMapContainer>) -> Map<Seq<char>, ElementModel> {
    Map::new(|k: Seq<char>| has_key(s, k), |k: Seq<char>| s[key_pos(s, k)].element@)
}

/// The entry keys of a sequence are pairwise distinct.
pub open spec fn seq_keys_distinct(s: Seq<HashMapContainer>) -> bool {
    forall|i: int, j: int|
        0 <= i < s.len() && 0 <= j < s.len() && i != j ==> (#[trigger] s[i].key@)
            != (#[trigger] s[j].key@)
}

/// Under distinct keys, the entry holding key `k` is the one `key_pos` picks.
pub proof fn lemma_key_pos(s: Seq<HashMapContainer>, i: int)
    requires
        seq_keys_distinct(s),
        0 <= i < s.len(),
    ensures
        has_key(s, s[i].key@),
        key_pos(s, s[i].key@) == i,
        map_of(s).dom().contains(s[i].key@),
        map_of(s)[s[i].key@] == s[i].element@,
{
    assert(has_key(s, s[i].key@));
    let j = key_pos(s, s[i].key@);
    if j != i {
        assert(s[j].key@ == s[i].key@);
        assert(false);
    }
}

/// Appending an entry with a fresh key adds one binding to the map.
pub proof fn lemma_map_of_push(s: Seq<HashMapContainer>, c: HashMapContainer)
    requires
        seq_keys_distinct(s),
        !has_key(s, c.key@),
    ensures
        map_of(s.push(c)) =~= map_of(s).insert(c.key@, c.element@),
        seq_keys_distinct(s.push(c)),
{
    let t = s.push(c);
    assert forall|a: int, b: int|
        0 <= a < t.len() && 0 <= b < t.len() && a != b implies (#[trigger] t[a].key@)
        != (#[trigger] t[b].key@) by {
        if a == s.len() as int && t[a].key@ == t[b].key@ {
            assert(s[b].key@ == c.key@);
            assert(has_key(s, c.key@));
        } else if b == s.len() as int && t[a].key@ == t[b].key@ {
            assert(s[a].key@ == c.key@);
            assert(has_key(s, c.key@));
        }
    }
    assert forall|k: Seq<char>| #[trigger] has_key(t, k) implies has_key(s, k) || k == c.key@ by {
        let i = choose|i: int| 0 <= i < t.len() && t[i].key@ == k;
        if i < s.len() {
            assert(s[i].key@ == k);
        }
    }
    assert forall|k: Seq<char>| #[trigger] has_key(s, k) implies has_key(t, k) by {
        let i = choose|i: int| 0 <= i < s.len() && s[i].key@ == k;
        assert(t[i].key@ == k);
    }
    assert(t[s.len() as int].key@ == c.key@);
    assert(has_key(t, c.key@));
    assert forall|k: Seq<char>| #[trigger] has_key(s, k) implies map_of(t)[k] == map_of(s)[k] by {
        let i = key_pos(s, k);
        assert(0 <= i < s.len() && s[i].key@ == k);
        lemma_key_pos(s, i);
        assert(t[i].key@ == k);
        lemma_key_pos(t, i);
    }
    assert(map_of(t)[c.key@] == c.element@) by {
        lemma_key_pos(t, s.len() as int);
    }
}

/// Replacing the entry at one position, keeping its key, rebinds that key.
pub proof fn lemma_map_of_update(s: Seq<HashMapContainer>, i: int, c: HashMapContainer)
    requires
        seq_keys_distinct(s),
        0 <= i < s.len(),
        c.key@ == s[i].key@,
    ensures
        map_of(s.update(i, c)) =~= map_of(s).insert(c.key@, c.element@),
        seq_keys_distinct(s.update(i, c)),
{
    let t = s.update(i, c);
    lemma_key_pos(s, i);
    assert forall|k: Seq<char>| #[trigger] has_key(t, k) implies has_key(s, k) by {
        let w = choose|w: int| 0 <= w < t.len() && t[w].key@ == k;
        assert(s[w].key@ == t[w].key@ || w == i);
        if w == i {
            assert(s[i].key@ == k);
        }
    }
    assert forall|k: Seq<char>| #[trigger] has_key(s, k) implies has_key(t, k) by {
        let w = choose|w: int| 0 <= w < s.len() && s[w].key@ == k;
        assert(t[w].key@ == k);
    }
    assert(seq_keys_distinct(t));
    assert forall|k: Seq<char>| has_key(t, k) && k != c.key@ implies #[trigger] map_of(t)[k]
        == map_of(s)[k] by {
        let j = key_pos(t, k);
        assert(0 <= j < t.len() && t[j].key@ == k);
        assert(j != i);
        assert(s[j].key@ == k);
        lemma_key_pos(s, j);
        lemma_key_pos(t, j);
    }
    assert(map_of(t)[c.key@] == c.element@) by {
        lemma_key_pos(t, i);
    }
}

/// Removing the entry at one position removes its key's binding.
pub proof fn lemma_map_of_remove(s: Seq<HashMapContainer>, i: int)
    requires
        seq_keys_distinct(s),
        0 <= i < s.len(),
    ensures
        map_of(s.remove(i)) =~= map_of(s).remove(s[i].key@),
        seq_keys_distinct(s.remove(i)),
{
    let t = s.remove(i);
    assert forall|w: int| 0 <= w < t.len() implies #[trigger] t[w] == (if w < i {
        s[w]
    } else {
        s[w + 1]
    }) by {}
    assert forall|k: Seq<char>| #[trigger] has_key(t, k) implies has_key(s, k) && k != s[i].key@ by {
        let w = choose|w: int| 0 <= w < t.len() && t[w].key@ == k;
        if w < i {
            assert(s[w].key@ == k);
        } else {
            assert(s[w + 1].key@ == k);
        }
    }
    assert forall|k: Seq<char>| has_key(s, k) && k != s[i].key@ implies #[trigger] has_key(t, k) by {
        let w = choose|w: int| 0 <= w < s.len() && s[w].key@ == k;
        assert(w != i);
        if w < i {
            assert(t[w].key@ == k);
        } else {
            assert(t[w - 1].key@ == k);
        }
    }
    assert(seq_keys_distinct(t));
    assert forall|k: Seq<char>| #[trigger] has_key(t, k) implies map_of(t)[k] == map_of(s)[k] by {
        let j = key_pos(t, k);
        assert(0 <= j < t.len() && t[j].key@ == k);
        lemma_key_pos(t, j);
        if j < i {
            assert(s[j].key@ == k);
            lemma_key_pos(s, j);
        } else {
            assert(s[j + 1].key@ == k);
            lemma_key_pos(s, j + 1);
        }
    }
}

impl HashMapStorage {
    /// The store as a mapping from keys to entry models, expired entries
    /// included.
    pub open spec fn as_map(&self) -> Map<Seq<char>, ElementModel> {
        map_of(self.storage@)
    }

    /// Whether the key holds an entry that has not expired at instant `now`.
    pub open spec fn spec_contains_live(&self, k: Seq<char>, now: u64) -> bool {
        self.as_map().dom().contains(k) && !spec_is_expired(self.as_map()[k], now)
    }

    /// The entry keys are pairwise distinct.
    pub open spec fn keys_distinct(&self) -> bool {
        seq_keys_distinct(self.storage@)
    }

    /// Some entry records slot `p` of the expiring-keys index.
    pub open spec fn slot_backed(&self, p: usize) -> bool {
        exists|i: int|
            0 <= i < self.storage@.len() && #[trigger] self.storage@[i].key_index == Some(p)
    }

    /// The expiration index is sound: an entry records a slot exactly when it
    /// carries an expiration, the slot holds its key, and every slot is
    /// recorded by some entry.
    pub open spec fn index_wf(&self) -> bool {
        &&& forall|i: int|
            0 <= i < self.storage@.len() ==> match #[trigger] self.storage@[i].key_index {
                Some(p) => {
                    &&& self.storage@[i].element.expiration is Some
                    &&& 0 <= p < self.expiring_keys@.len()
                    &&& self.expiring_keys@[p as int]@ == self.storage@[i].key@
                },
                None => self.storage@[i].element.expiration is None,
            }
        &&& forall|p: usize| p < self.expiring_keys@.len() ==> #[trigger] self.slot_backed(p)
    }

    /// The store's invariant: distinct keys, a sound expiration index, and
    /// well-formed stored values.
    pub open spec fn wf(&self) -> bool {
        &&& self.keys_distinct()
        &&& self.index_wf()
        &&& forall|i: int|
            0 <= i < self.storage@.len() ==> value_wf(
                (#[trigger] self.storage@[i]).element.value@,
            )
    }

    /// Create a new, empty storage container.
    pub fn new() -> (r: HashMapStorage)
        ensures
            r.wf(),
            r.as_map() =~= Map::<Seq<char>, ElementModel>::empty(),
            r.storage@.len() == 0,
            r.expiring_keys@.len() == 0,
    {
        HashMapStorage { storage: Vec::new(), expiring_keys: Vec::new() }
    }

    /// The position of the entry stored under the key, if any.
    fn find(&self, key: &str) -> (r: Option<usize>)
        ensures
            match r {
                Some(i) => i < self.storage@.len() && self.storage@[i as int].key@ == key@
                    && has_key(self.storage@, key@),
                None => !has_key(self.storage@, key@),
            },
    {
        let key_string = key.to_owned();
        let mut i: usize = 0;
        while i < self.storage.len()
            invariant
                key_string@ == key@,
                i <= self.storage@.len(),
                forall|j: int| 0 <= j < i ==> (#[trigger] self.storage@[j].key@) != key@,
            decreases self.storage@.len() - i,
        {
            if self.storage[i].key == key_string {
                return Some(i);
            }
            i = i + 1;
        }
        None
    }

    /// Get a value if it exists and has not expired at instant `now`.
    pub fn get_if_exists(&self, key: &str, now: u64) -> (r: Result<
        Option<StorageElement>,
        ServerError,
    >)
        requires
            self.wf(),
        ensures
            match r {
                Ok(Some(e)) => self.spec_contains_live(key@, now) && e@ == self.as_map()[key@]
                    && value_wf(e.value@),
                Ok(None) => !self.spec_contains_live(key@, now),
                Err(_) => false,
            },
    {
        match self.find(key) {
            Some(i) => {
                proof {
                    lemma_key_pos(self.storage@, i as int);
                }
                if self.storage[i].element.is_expired(now) {
                    Ok(None)
                } else {
                    Ok(Some(self.storage[i].element.clone()))
                }
            },
            None => Ok(None),
        }
    }

    /// Get a value, or a `KeyError` when the key is absent or expired at
    /// instant `now`.
    pub fn get(&self, key: &str, now: u64) -> (r: Result<StorageElement, ServerError>)
        requires
            self.wf(),
        ensures
            match r {
                Ok(e) => self.spec_contains_live(key@, now) && e@ == self.as_map()[key@]
                    && value_wf(e.value@),
                Err(e) => !self.spec_contains_live(key@, now) && e is KeyError,
            },
    {
        match self.get_if_exists(key, now) {
            Ok(Some(element)) => Ok(element),
            Ok(None) => Err(make_key_error(key)),
            Err(error) => Err(error),
        }
    }

    /// Check whether a key holds an entry that is live at instant `now`.
    pub fn contains_key(&self, key: &str, now: u64) -> (r: Result<bool, ServerError>)
        requires
            self.wf(),
        ensures
            match r {
                Ok(b) => b == self.spec_contains_live(key@, now),
                Err(_) => false,
            },
    {
        match self.find(key) {
            Some(i) => {
                proof {
                    lemma_key_pos(self.storage@, i as int);
                }
                Ok(!self.storage[i].element.is_expired(now))
            },
            None => Ok(false),
        }
    }

    /// The number of entries physically present, expired ones included.
    pub fn len(&self) -> (r: Result<usize, ServerError>)
        ensures
            r matches Ok(n) && n == self.storage@.len(),
    {
        Ok(self.storage.len())
    }

    /// The number of entries that carry an expiration.
    pub fn expiring_keys_count(&self) -> (r: Result<usize, ServerError>)
        ensures
            r matches Ok(n) && n == self.expiring_keys@.len(),
    {
        Ok(self.expiring_keys.len())
    }

    /// Drop slot `index` of the expiring-keys index by moving the last slot
    /// into its place; the entry that recorded the last slot is repointed.
    ///
    /// The entry that recorded slot `index` still records it afterwards; the
    /// caller overwrites that entry.
    fn invalidate_key_index(&mut self, index: usize)
        requires
            old(self).wf(),
            index < old(self).expiring_keys@.len(),
        ensures
            old(self).expiring_keys@.len() <= usize::MAX,
            final(self).expiring_keys@.len() == old(self).expiring_keys@.len() - 1,
            ({
                let pre = old(self).storage@;
                let exp = old(self).expiring_keys@;
                let last = exp.len() - 1;
                if index as int == last {
                    final(self).storage@ == pre && final(self).expiring_keys@ =~= exp.drop_last()
                } else {
                    let m = key_pos(pre, exp[last]@);
                    &&& 0 <= m < pre.len()
                    &&& pre[m].key_index == Some(last as usize)
                    &&& pre[m].key@ == exp[last]@
                    &&& final(self).storage@ =~= pre.update(
                        m,
                        HashMapContainer {
                            key: pre[m].key,
                            element: pre[m].element,
                            key_index: Some(index),
                        },
                    )
                    &&& final(self).expiring_keys@ =~= exp.update(index as int, exp[last]).drop_last()
                }
            }),
    {
        let last = self.expiring_keys.len() - 1;
        let removing_last = index == last;
        if !removing_last {
            let ghost pre = self.storage@;
            let ghost exp = self.expiring_keys@;
            proof {
                assert(self.slot_backed(last));
                let i = choose|i: int|
                    0 <= i < pre.len() && #[trigger] pre[i].key_index == Some(last);
                lemma_key_pos(pre, i);
                assert(key_pos(pre, exp[last as int]@) == i);
            }
            let moved = self.find(self.expiring_keys[last].as_str());
            match moved {
                Some(m) => {
                    proof {
                        lemma_key_pos(pre, m as int);
                    }
                    let mut container = self.storage.remove(m);
                    container.key_index = Some(index);
                    self.storage.insert(m, container);
                    proof {
                        assert(self.storage@ =~= pre.update(
                            m as int,
                            HashMapContainer {
                                key: pre[m as int].key,
                                element: pre[m as int].element,
                                key_index: Some(index),
                            },
                        ));
                    }
                },
                None => {
                    proof {
                        assert(false);
                    }
                },
            }
        }
        let _ = self.expiring_keys.swap_remove(index);
        proof {
            if removing_last {
                assert(self.expiring_keys@ =~= old(self).expiring_keys@.drop_last());
            }
        }
    }

    /// Two entries never record the same index slot.
    pub proof fn lemma_slot_unique(&self, a: int, b: int, p: usize)
        requires
            self.wf(),
            0 <= a < self.storage@.len(),
            0 <= b < self.storage@.len(),
            self.storage@[a].key_index == Some(p),
            self.storage@[b].key_index == Some(p),
        ensures
            a == b,
    {
        if a != b {
            assert(self.storage@[a].key@ == self.expiring_keys@[p as int]@);
            assert(self.storage@[b].key@ == self.expiring_keys@[p as int]@);
            assert(false);
        }
    }

    /// Insert or replace the entry under `key`, updating the expiration
    /// index as the entry's old and new expirations demand.
    pub fn set(&mut self, key: &str, value: StorageElement) -> (r: Result<(), ServerError>)
        requires
            old(self).wf(),
            value_wf(value.value@),
        ensures
            r is Ok,
            final(self).wf(),
            final(self).as_map() =~= old(self).as_map().insert(key@, value@),
            final(self).storage@.len() == old(self).storage@.len() + (if has_key(
                old(self).storage@,
                key@,
            ) {
                0int
            } else {
                1int
            }),
            final(self).expiring_keys@.len() == old(self).expiring_keys@.len() + (if value.expiration
                is Some {
                1int
            } else {
                0int
            }) - (if has_key(old(self).storage@, key@) && old(self).as_map()[key@].expiration
                is Some {
                1int
            } else {
                0int
            }),
    {
        let ghost pre = *old(self);
        match self.find(key) {
            None => {
                let key_index: Option<usize> = match &value.expiration {
                    None => None,
                    Some(_) => {
                        self.expiring_keys.push(key.to_owned());
                        Some(self.expiring_keys.len() - 1)
                    },
                };
                let container = HashMapContainer { key: key.to_owned(), element: value, key_index };
                self.storage.push(container);
                proof {
                    lemma_map_of_push(pre.storage@, self.storage@.last());
                    assert(self.storage@ =~= pre.storage@.push(self.storage@.last()));
                    assert(self.as_map() =~= pre.as_map().insert(key@, value@));
                    let n = pre.storage@.len() as int;
                    assert forall|j: int|
                        0 <= j < self.storage@.len() implies match #[trigger] self.storage@[j].key_index {
                        Some(p) => {
                            &&& self.storage@[j].element.expiration is Some
                            &&& 0 <= p < self.expiring_keys@.len()
                            &&& self.expiring_keys@[p as int]@ == self.storage@[j].key@
                        },
                        None => self.storage@[j].element.expiration is None,
                    } by {
                        if j < n {
                            assert(self.storage@[j] == pre.storage@[j]);
                        }
                    }
                    assert forall|p: usize|
                        p < self.expiring_keys@.len() implies #[trigger] self.slot_backed(p) by {
                        if (p as int) < pre.expiring_keys@.len() {
                            assert(pre.slot_backed(p));
                            let i = choose|i: int|
                                0 <= i < pre.storage@.len() && #[trigger] pre.storage@[i].key_index
                                    == Some(p);
                            assert(self.storage@[i].key_index == Some(p));
                        } else {
                            assert(self.storage@[n].key_index == Some(p));
                        }
                    }
                }
                Ok(())
            },
            Some(i) => {
                let ghost pi = i as int;
                let had_index = match &self.storage[i].key_index {
                    None => false,
                    Some(_) => true,
                };
                if !had_index {
                    // The entry carried no expiration; index the key when the
                    // new entry carries one.
                    let key_index: Option<usize> = match &value.expiration {
                        None => None,
                        Some(_) => {
                            self.expiring_keys.push(key.to_owned());
                            Some(self.expiring_keys.len() - 1)
                        },
                    };
                    let container = HashMapContainer {
                        key: key.to_owned(),
                        element: value,
                        key_index,
                    };
                    let _ = self.storage.remove(i);
                    self.storage.insert(i, container);
                    proof {
                        assert(self.storage@ =~= pre.storage@.update(pi, self.storage@[pi]));
                        lemma_map_of_update(pre.storage@, pi, self.storage@[pi]);
                        lemma_key_pos(pre.storage@, pi);
                        assert(self.as_map() =~= pre.as_map().insert(key@, value@));
                        assert forall|j: int|
                            0 <= j < self.storage@.len() implies match #[trigger] self.storage@[j].key_index {
                            Some(p) => {
                                &&& self.storage@[j].element.expiration is Some
                                &&& 0 <= p < self.expiring_keys@.len()
                                &&& self.expiring_keys@[p as int]@ == self.storage@[j].key@
                            },
                            None => self.storage@[j].element.expiration is None,
                        } by {
                            if j != pi {
                                assert(self.storage@[j] == pre.storage@[j]);
                            }
                        }
                        assert forall|p: usize|
                            p < self.expiring_keys@.len() implies #[trigger] self.slot_backed(
                            p,
                        ) by {
                            if (p as int) < pre.expiring_keys@.len() {
                                assert(pre.slot_backed(p));
                                let w = choose|w: int|
                                    0 <= w < pre.storage@.len()
                                        && #[trigger] pre.storage@[w].key_index == Some(p);
                                assert(w != pi);
                                assert(self.storage@[w].key_index == Some(p));
                            } else {
                                assert(self.storage@[pi].key_index == Some(p));
                            }
                        }
                    }
                    Ok(())
                } else {
                    let keep_index = match &value.expiration {
                        None => false,
                        Some(_) => true,
                    };
                    if keep_index {
                        // Expiring before and after: the slot is kept.
                        let old_index = match self.storage[i].key_index {
                            Some(ki) => ki,
                            None => 0,
                        };
                        let container = HashMapContainer {
                            key: key.to_owned(),
                            element: value,
                            key_index: Some(old_index),
                        };
                        let _ = self.storage.remove(i);
                        self.storage.insert(i, container);
                        proof {
                            assert(self.storage@ =~= pre.storage@.update(pi, self.storage@[pi]));
                            lemma_map_of_update(pre.storage@, pi, self.storage@[pi]);
                            lemma_key_pos(pre.storage@, pi);
                            assert(self.as_map() =~= pre.as_map().insert(key@, value@));
                            assert forall|j: int|
                                0 <= j < self.storage@.len() implies match #[trigger] self.storage@[j].key_index {
                                Some(p) => {
                                    &&& self.storage@[j].element.expiration is Some
                                    &&& 0 <= p < self.expiring_keys@.len()
                                    &&& self.expiring_keys@[p as int]@ == self.storage@[j].key@
                                },
                                None => self.storage@[j].element.expiration is None,
                            } by {
                                if j != pi {
                                    assert(self.storage@[j] == pre.storage@[j]);
                                }
                            }
                            assert forall|p: usize|
                                p < self.expiring_keys@.len() implies #[trigger] self.slot_backed(
                                p,
                            ) by {
                                assert(pre.slot_backed(p));
                                let w = choose|w: int|
                                    0 <= w < pre.storage@.len()
                                        && #[trigger] pre.storage@[w].key_index == Some(p);
                                if w != pi {
                                    assert(self.storage@[w].key_index == Some(p));
                                } else {
                                    assert(self.storage@[pi].key_index == Some(p));
                                }
                            }
                        }
                        Ok(())
                    } else {
                        // The entry leaves the index: drop its slot first.
                        let old_index = match self.storage[i].key_index {
                            Some(ki) => ki,
                            None => 0,
                        };
                        let ghost last = pre.expiring_keys@.len() - 1;
                        self.invalidate_key_index(old_index);
                        let ghost mid = *self;
                        let container = HashMapContainer {
                            key: key.to_owned(),
                            element: value,
                            key_index: None,
                        };
                        let _ = self.storage.remove(i);
                        self.storage.insert(i, container);
                        proof {
                            assert(self.storage@ =~= mid.storage@.update(pi, self.storage@[pi]));
                            if old_index as int == last {
                                // The dropped slot was the last one.
                                assert(mid.storage@ == pre.storage@);
                                lemma_map_of_update(pre.storage@, pi, self.storage@[pi]);
                                lemma_key_pos(pre.storage@, pi);
                                assert(self.as_map() =~= pre.as_map().insert(key@, value@));
                                assert forall|j: int|
                                    0 <= j < self.storage@.len() implies match #[trigger] self.storage@[j].key_index {
                                    Some(p) => {
                                        &&& self.storage@[j].element.expiration is Some
                                        &&& 0 <= p < self.expiring_keys@.len()
                                        &&& self.expiring_keys@[p as int]@
                                            == self.storage@[j].key@
                                    },
                                    None => self.storage@[j].element.expiration is None,
                                } by {
                                    if j != pi {
                                        assert(self.storage@[j] == pre.storage@[j]);
                                        match pre.storage@[j].key_index {
                                            Some(p) => {
                                                if p as int == last {
                                                    pre.lemma_slot_unique(j, pi, p);
                                                }
                                            },
                                            None => {},
                                        }
                                    }
                                }
                                assert forall|p: usize|
                                    p < self.expiring_keys@.len() implies #[trigger] self.slot_backed(
                                    p,
                                ) by {
                                    assert(pre.slot_backed(p));
                                    let w = choose|w: int|
                                        0 <= w < pre.storage@.len()
                                            && #[trigger] pre.storage@[w].key_index == Some(p);
                                    if w == pi {
                                        assert(pre.storage@[pi].key_index == Some(old_index));
                                        assert(false);
                                    }
                                    assert(self.storage@[w].key_index == Some(p));
                                }
                            } else {
                                // The last slot's key moved into the dropped slot.
                                let m = key_pos(pre.storage@, pre.expiring_keys@[last]@);
                                assert(m != pi) by {
                                    if m == pi {
                                        assert(pre.storage@[pi].key_index == Some(
                                            last as usize,
                                        ));
                                        assert(pre.storage@[pi].key_index == Some(old_index));
                                    }
                                }
                                assert(mid.storage@[pi] == pre.storage@[pi]);
                                assert(mid.storage@[pi].key@ == key@);
                                assert(seq_keys_distinct(mid.storage@)) by {
                                    lemma_map_of_update(pre.storage@, m, mid.storage@[m]);
                                }
                                lemma_map_of_update(mid.storage@, pi, self.storage@[pi]);
                                lemma_map_of_update(pre.storage@, m, mid.storage@[m]);
                                lemma_key_pos(pre.storage@, pi);
                                lemma_key_pos(pre.storage@, m);
                                assert(self.as_map() =~= pre.as_map().insert(key@, value@)) by {
                                    assert(mid.as_map() =~= pre.as_map().insert(
                                        pre.storage@[m].key@,
                                        pre.storage@[m].element@,
                                    ));
                                    assert(pre.as_map()[pre.storage@[m].key@]
                                        == pre.storage@[m].element@);
                                    assert(self.as_map() =~= mid.as_map().insert(key@, value@));
                                }
                                assert forall|j: int|
                                    0 <= j < self.storage@.len() implies match #[trigger] self.storage@[j].key_index {
                                    Some(p) => {
                                        &&& self.storage@[j].element.expiration is Some
                                        &&& 0 <= p < self.expiring_keys@.len()
                                        &&& self.expiring_keys@[p as int]@
                                            == self.storage@[j].key@
                                    },
                                    None => self.storage@[j].element.expiration is None,
                                } by {
                                    if j != pi && j != m {
                                        assert(self.storage@[j] == pre.storage@[j]);
                                        match pre.storage@[j].key_index {
                                            Some(p) => {
                                                if p as int == last {
                                                    pre.lemma_slot_unique(j, m, p);
                                                }
                                                if p as int == old_index as int {
                                                    pre.lemma_slot_unique(j, pi, p);
                                                }
                                            },
                                            None => {},
                                        }
                                    } else if j == m {
                                        assert(self.storage@[m].key_index == Some(old_index));
                                        assert(self.expiring_keys@[old_index as int]@
                                            == pre.storage@[m].key@);
                                    }
                                }
                                assert forall|p: usize|
                                    p < self.expiring_keys@.len() implies #[trigger] self.slot_backed(
                                    p,
                                ) by {
                                    if p == old_index {
                                        assert(self.storage@[m].key_index == Some(p));
                                    } else {
                                        assert(pre.slot_backed(p));
                                        let w = choose|w: int|
                                            0 <= w < pre.storage@.len()
                                                && #[trigger] pre.storage@[w].key_index == Some(p);
                                        if w == pi {
                                            assert(pre.storage@[pi].key_index == Some(old_index));
                                            assert(false);
                                        }
                                        if w == m {
                                            assert(pre.storage@[m].key_index == Some(
                                                last as usize,
                                            ));
                                            assert(false);
                                        }
                                        assert(self.storage@[w].key_index == Some(p));
                                    }
                                }
                            }
                        }
                        Ok(())
                    }
                }
            },
        }
    }

    /// Set a value only when no entry is present under the key, expired
    /// entries included.
    pub fn set_if_not_exists(&mut self, key: &str, value: StorageElement) -> (r: Result<
        bool,
        ServerError,
    >)
        requires
            old(self).wf(),
            value_wf(value.value@),
        ensures
            final(self).wf(),
            match r {
                Ok(b) => {
                    &&& b == !old(self).as_map().dom().contains(key@)
                    &&& (b ==> final(self).as_map() =~= old(self).as_map().insert(key@, value@))
                    &&& (!b ==> *final(self) == *old(self))
                },
                Err(_) => false,
            },
    {
        match self.find(key) {
            Some(_) => Ok(false),
            None => {
                match self.set(key, value) {
                    Ok(()) => Ok(true),
                    Err(other) => Err(other),
                }
            },
        }
    }

    /// Replace the entry under a key that currently exists and is live at
    /// instant `now`; otherwise a `KeyError`.
    pub fn update(&mut self, key: &str, value: StorageElement, now: u64) -> (r: Result<
        (),
        ServerError,
    >)
        requires
            old(self).wf(),
            value_wf(value.value@),
        ensures
            final(self).wf(),
            match r {
                Ok(()) => old(self).spec_contains_live(key@, now) && final(self).as_map()
                    =~= old(self).as_map().insert(key@, value@),
                Err(e) => e is KeyError && !old(self).spec_contains_live(key@, now) && *final(self)
                    == *old(self),
            },
    {
        let live = match self.contains_key(key, now) {
            Ok(b) => b,
            Err(err) => return Err(err),
        };
        if live {
            self.set(key, value)
        } else {
            Err(make_key_error(key))
        }
    }

    /// Change the expiration of an entry that exists and is live at instant
    /// `now`, keeping its value; otherwise a `KeyError`.
    pub fn update_expiration(&mut self, key: &str, expiration: Option<u64>, now: u64) -> (r: Result<
        (),
        ServerError,
    >)
        requires
            old(self).wf(),
        ensures
            final(self).wf(),
            match r {
                Ok(()) => {
                    &&& old(self).spec_contains_live(key@, now)
                    &&& final(self).as_map() =~= old(self).as_map().insert(
                        key@,
                        ElementModel {
                            key: old(self).as_map()[key@].key,
                            expiration,
                            value: old(self).as_map()[key@].value,
                        },
                    )
                },
                Err(e) => e is KeyError && !old(self).spec_contains_live(key@, now) && *final(self)
                    == *old(self),
            },
    {
        let element = match self.find(key) {
            None => return Err(make_key_error(key)),
            Some(i) => {
                proof {
                    lemma_key_pos(self.storage@, i as int);
                }
                if self.storage[i].element.is_expired(now) {
                    return Err(make_key_error(key));
                }
                self.storage[i].element.clone()
            },
        };
        let updated = StorageElement { key: element.key, expiration, value: element.value };
        self.set(key, updated)
    }

    /// Remove the entry at position `i`, dropping its index slot first.
    fn remove_entry(&mut self, i: usize) -> (c: HashMapContainer)
        requires
            old(self).wf(),
            i < old(self).storage@.len(),
        ensures
            final(self).wf(),
            c == old(self).storage@[i as int],
            final(self).as_map() =~= old(self).as_map().remove(c.key@),
            final(self).storage@.len() == old(self).storage@.len() - 1,
            final(self).expiring_keys@.len() == old(self).expiring_keys@.len() - (
            if c.element.expiration is Some {
                1int
            } else {
                0int
            }),
    {
        let ghost pre = *old(self);
        let ghost pi = i as int;
        let old_index: Option<usize> = match &self.storage[i].key_index {
            Some(ki) => Some(*ki),
            None => None,
        };
        match old_index {
            Some(ki) => {
                let ghost last = pre.expiring_keys@.len() - 1;
                self.invalidate_key_index(ki);
                let ghost mid = *self;
                let c = self.storage.remove(i);
                proof {
                    if ki as int == last {
                        assert(mid.storage@ == pre.storage@);
                        lemma_map_of_remove(pre.storage@, pi);
                        lemma_key_pos(pre.storage@, pi);
                        assert forall|j: int|
                            0 <= j < self.storage@.len() implies match #[trigger] self.storage@[j].key_index {
                            Some(p) => {
                                &&& self.storage@[j].element.expiration is Some
                                &&& 0 <= p < self.expiring_keys@.len()
                                &&& self.expiring_keys@[p as int]@ == self.storage@[j].key@
                            },
                            None => self.storage@[j].element.expiration is None,
                        } by {
                            let w = if j < pi {
                                j
                            } else {
                                j + 1
                            };
                            assert(self.storage@[j] == pre.storage@[w]);
                            match pre.storage@[w].key_index {
                                Some(p) => {
                                    if p as int == last {
                                        pre.lemma_slot_unique(w, pi, p);
                                        assert(false);
                                    }
                                },
                                None => {},
                            }
                        }
                        assert forall|p: usize|
                            p < self.expiring_keys@.len() implies #[trigger] self.slot_backed(
                            p,
                        ) by {
                            assert(pre.slot_backed(p));
                            let w = choose|w: int|
                                0 <= w < pre.storage@.len() && #[trigger] pre.storage@[w].key_index
                                    == Some(p);
                            if w == pi {
                                assert(false);
                            }
                            if w < pi {
                                assert(self.storage@[w].key_index == Some(p));
                            } else {
                                assert(self.storage@[w - 1].key_index == Some(p));
                            }
                        }
                    } else {
                        let m = key_pos(pre.storage@, pre.expiring_keys@[last]@);
                        assert(m != pi) by {
                            if m == pi {
                                assert(pre.storage@[pi].key_index == Some(last as usize));
                                assert(pre.storage@[pi].key_index == Some(ki));
                            }
                        }
                        assert(seq_keys_distinct(mid.storage@)) by {
                            lemma_map_of_update(pre.storage@, m, mid.storage@[m]);
                        }
                        lemma_map_of_update(pre.storage@, m, mid.storage@[m]);
                        lemma_map_of_remove(mid.storage@, pi);
                        lemma_key_pos(pre.storage@, pi);
                        lemma_key_pos(pre.storage@, m);
                        assert(mid.storage@[pi] == pre.storage@[pi]);
                        assert(self.as_map() =~= pre.as_map().remove(pre.storage@[pi].key@)) by {
                            assert(mid.as_map() =~= pre.as_map().insert(
                                pre.storage@[m].key@,
                                pre.storage@[m].element@,
                            ));
                            assert(pre.as_map()[pre.storage@[m].key@] == pre.storage@[m].element@);
                            assert(mid.storage@[pi].key@ == pre.storage@[pi].key@);
                            assert(self.as_map() =~= mid.as_map().remove(pre.storage@[pi].key@));
                        }
                        assert forall|j: int|
                            0 <= j < self.storage@.len() implies match #[trigger] self.storage@[j].key_index {
                            Some(p) => {
                                &&& self.storage@[j].element.expiration is Some
                                &&& 0 <= p < self.expiring_keys@.len()
                                &&& self.expiring_keys@[p as int]@ == self.storage@[j].key@
                            },
                            None => self.storage@[j].element.expiration is None,
                        } by {
                            let w = if j < pi {
                                j
                            } else {
                                j + 1
                            };
                            assert(self.storage@[j] == mid.storage@[w]);
                            if w != m {
                                assert(mid.storage@[w] == pre.storage@[w]);
                                match pre.storage@[w].key_index {
                                    Some(p) => {
                                        if p as int == last {
                                            pre.lemma_slot_unique(w, m, p);
                                            assert(false);
                                        }
                                        if p == ki {
                                            pre.lemma_slot_unique(w, pi, p);
                                            assert(false);
                                        }
                                    },
                                    None => {},
                                }
                            } else {
                                assert(mid.storage@[m].key_index == Some(ki));
                                assert(self.expiring_keys@[ki as int]@ == pre.storage@[m].key@);
                            }
                        }
                        assert forall|p: usize|
                            p < self.expiring_keys@.len() implies #[trigger] self.slot_backed(
                            p,
                        ) by {
                            if p == ki {
                                let w = if m < pi {
                                    m
                                } else {
                                    m - 1
                                };
                                assert(self.storage@[w] == mid.storage@[m]);
                                assert(self.storage@[w].key_index == Some(p));
                            } else {
                                assert(pre.slot_backed(p));
                                let w = choose|w: int|
                                    0 <= w < pre.storage@.len()
                                        && #[trigger] pre.storage@[w].key_index == Some(p);
                                if w == pi {
                                    assert(false);
                                }
                                if w == m {
                                    assert(pre.storage@[m].key_index == Some(last as usize));
                                    assert(false);
                                }
                                assert(mid.storage@[w] == pre.storage@[w]);
                                let v = if w < pi {
                                    w
                                } else {
                                    w - 1
                                };
                                assert(self.storage@[v].key_index == Some(p));
                            }
                        }
                    }
                }
                c
            },
            None => {
                let c = self.storage.remove(i);
                proof {
                    lemma_map_of_remove(pre.storage@, pi);
                    lemma_key_pos(pre.storage@, pi);
                    assert forall|j: int|
                        0 <= j < self.storage@.len() implies match #[trigger] self.storage@[j].key_index {
                        Some(p) => {
                            &&& self.storage@[j].element.expiration is Some
                            &&& 0 <= p < self.expiring_keys@.len()
                            &&& self.expiring_keys@[p as int]@ == self.storage@[j].key@
                        },
                        None => self.storage@[j].element.expiration is None,
                    } by {
                        let w = if j < pi {
                            j
                        } else {
                            j + 1
                        };
                        assert(self.storage@[j] == pre.storage@[w]);
                    }
                    assert forall|p: usize|
                        p < self.expiring_keys@.len() implies #[trigger] self.slot_backed(p) by {
                        assert(pre.slot_backed(p));
                        let w = choose|w: int|
                            0 <= w < pre.storage@.len() && #[trigger] pre.storage@[w].key_index
                                == Some(p);
                        if w == pi {
                            assert(false);
                        }
                        if w < pi {
                            assert(self.storage@[w].key_index == Some(p));
                        } else {
                            assert(self.storage@[w - 1].key_index == Some(p));
                        }
                    }
                }
                c
            },
        }
    }

    /// Delete the entry under a key.
    ///
    /// Reports `true` exactly when an entry was removed that had not yet
    /// expired at instant `now`; an expired entry is still removed.
    pub fn delete(&mut self, key: &str, now: u64) -> (r: Result<bool, ServerError>)
        requires
            old(self).wf(),
        ensures
            final(self).wf(),
            final(self).as_map() =~= old(self).as_map().remove(key@),
            match r {
                Ok(b) => b == old(self).spec_contains_live(key@, now),
                Err(_) => false,
            },
    {
        match self.find(key) {
            None => {
                proof {
                    assert(self.as_map() =~= self.as_map().remove(key@));
                }
                Ok(false)
            },
            Some(i) => {
                proof {
                    lemma_key_pos(self.storage@, i as int);
                }
                let container = self.remove_entry(i);
                Ok(!container.element.is_expired(now))
            },
        }
    }

    /// Remove the entry under a key when it has expired at instant `now`;
    /// reports whether it did. A missing key is a `KeyError`.
    pub fn check_and_expire(&mut self, key: &str, now: u64) -> (r: Result<bool, ServerError>)
        requires
            old(self).wf(),
        ensures
            final(self).wf(),
            match r {
                Ok(true) => {
                    &&& old(self).as_map().dom().contains(key@)
                    &&& spec_is_expired(old(self).as_map()[key@], now)
                    &&& final(self).as_map() =~= old(self).as_map().remove(key@)
                },
                Ok(false) => old(self).spec_contains_live(key@, now) && *final(self) == *old(self),
                Err(e) => e is KeyError && !old(self).as_map().dom().contains(key@) && *final(self)
                    == *old(self),
            },
    {
        let i = match self.find(key) {
            Some(i) => i,
            None => {
                let mut msg = String::from_str("Key ");
                msg.append(key);
                msg.append(" not found.");
                return Err(ServerError::KeyError(msg));
            },
        };
        proof {
            lemma_key_pos(self.storage@, i as int);
        }
        if self.storage[i].element.is_expired(now) {
            let _ = self.remove_entry(i);
            Ok(true)
        } else {
            Ok(false)
        }
    }

    /// A key drawn from the expiring-keys index, or `None` when it is empty.
    ///
    /// Which key comes back depends on a random number; every outcome is one
    /// of the indexed keys.
    fn get_random_key(&self) -> (r: Option<String>)
        ensures
            self.expiring_keys@.len() <= usize::MAX,
            match r {
                None => self.expiring_keys@.len() == 0,
                Some(k) => exists|p: int|
                    0 <= p < self.expiring_keys@.len() && (#[trigger] self.expiring_keys@[p])@
                        == k@,
            },
    {
        let n = self.expiring_keys.len();
        if n == 0 {
            return None;
        }
        let index = (random_u64() as usize) % n;
        Some(self.expiring_keys[index].clone())
    }

    /// Run one step of the probabilistic expiration policy: draw one indexed
    /// key at random, and remove its entry when it has expired at instant
    /// `now`. Reports how many entries were removed.
    pub fn invalidate_expired_keys(&mut self, now: u64) -> (r: Result<usize, ServerError>)
        requires
            old(self).wf(),
        ensures
            final(self).wf(),
            match r {
                Ok(n) => n <= 1 && (if n == 1 {
                    exists|k: Seq<char>|
                        {
                            &&& old(self).as_map().dom().contains(k)
                            &&& spec_is_expired(#[trigger] old(self).as_map()[k], now)
                            &&& final(self).as_map() =~= old(self).as_map().remove(k)
                        }
                } else {
                    *final(self) == *old(self)
                }),
                Err(_) => false,
            },
    {
        let key = match self.get_random_key() {
            Some(key) => key,
            None => {
                return Ok(0);
            },
        };
        proof {
            let p = choose|p: int|
                0 <= p < self.expiring_keys@.len() && (#[trigger] self.expiring_keys@[p])@ == key@;
            assert(self.slot_backed(p as usize));
            let w = choose|w: int|
                0 <= w < self.storage@.len() && #[trigger] self.storage@[w].key_index == Some(
                    p as usize,
                );
            assert(self.storage@[w].key@ == key@);
            assert(has_key(self.storage@, key@));
        }
        match self.check_and_expire(key.as_str(), now) {
            Ok(true) => Ok(1),
            Ok(false) => Ok(0),
            Err(err) => Err(err),
        }
    }
}

/// Relies on `rand::thread_rng` and `rand_core::RngCore::next_u64`: a random
/// number; nothing is assumed about its value.
#[verifier::external_body]
fn random_u64() -> u64 {
    rand::RngCore::next_u64(&mut rand::thread_rng())
}

} // verus!
