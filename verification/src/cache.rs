use crate::store::Store;
use crate::store::ids_match;
use crate::types::CacheStats;
use crate::types::Vector;
use crate::types::VectorV;
use crate::types::blen;
use crate::util::views_of_vectors;
use vstd::hash_map::StringHashMap;
use vstd::prelude::*;

verus! {

broadcast use vstd::hash_map::axiom_string_hash_map_spec_len;

/// Cache time-to-live in nanoseconds: 24 hours.
pub const CACHE_TTL: u64 = 86_400_000_000_000;

/// Default memory bound: 100 MiB.
pub const DEFAULT_MAX_MEMORY: usize = 104_857_600;

/// Default entry bound.
pub const DEFAULT_MAX_ENTRIES: usize = 1000;

/// Fixed per-vector overhead charged by the memory estimate, covering the
/// record itself beyond its strings and embedding.
pub const VECTOR_BASE_COST: usize = 120;

/// A cached collection: its vectors and access bookkeeping.
pub struct CacheEntry {
    pub vectors: Vec<Vector>,
    pub timestamp: u64,
    pub last_accessed: u64,
    pub memory_size: usize,
}

/// Saturating addition on sizes.
pub open spec fn usat_add(a: usize, b: usize) -> usize {
    if a + b <= usize::MAX {
        (a + b) as usize
    } else {
        usize::MAX
    }
}

fn sat_add_usize(a: usize, b: usize) -> (r: usize)
    ensures
        r == usat_add(a, b),
{
    if a > usize::MAX - b {
        usize::MAX
    } else {
        a + b
    }
}

/// The memory estimate of one vector: overhead, eight bytes per embedding
/// component, and the byte lengths of its strings.
pub open spec fn vector_mem(v: VectorV) -> int {
    VECTOR_BASE_COST + 8 * v.embedding.len() + blen(v.id) + blen(v.document_id) + blen(v.chunk_id)
        + blen(v.model)
}

/// The saturating memory estimate of a vector list.
pub open spec fn vectors_mem(vs: Seq<VectorV>) -> usize
    decreases vs.len(),
{
    if vs.len() == 0 {
        0
    } else {
        usat_add(
            vectors_mem(vs.drop_last()),
            if vector_mem(vs.last()) <= usize::MAX {
                vector_mem(vs.last()) as usize
            } else {
                usize::MAX
            },
        )
    }
}

/// Estimates the memory a vector list occupies when cached.
pub fn estimate_vectors_memory_size(vectors: &Vec<Vector>) -> (r: usize)
    ensures
        r == vectors_mem(views_of_vectors(vectors@)),
{
    let ghost views = views_of_vectors(vectors@);
    let n = vectors.len();
    let mut total: usize = 0;
    let mut i: usize = 0;
    while i < n
        invariant
            0 <= i <= n,
            n == vectors@.len(),
            views == views_of_vectors(vectors@),
            total == vectors_mem(views.take(i as int)),
        decreases n - i,
    {
        proof {
            assert(views[i as int] == vectors@[i as int]@);
            assert(views.take(i + 1).drop_last() =~= views.take(i as int));
            assert(views.take(i + 1).last() == views[i as int]);
        }
        let v = &vectors[i];
        let mut one: usize = VECTOR_BASE_COST;
        let dims = v.embedding.len();
        if dims > usize::MAX / 8 {
            one = usize::MAX;
        } else {
            one = sat_add_usize(one, dims * 8);
        }
        one = sat_add_usize(one, v.id.as_str().as_bytes().len());
        one = sat_add_usize(one, v.document_id.as_str().as_bytes().len());
        one = sat_add_usize(one, v.chunk_id.as_str().as_bytes().len());
        one = sat_add_usize(one, v.model.as_str().as_bytes().len());
        proof {
            assert(one == (if vector_mem(views[i as int]) <= usize::MAX {
                vector_mem(views[i as int]) as usize
            } else {
                usize::MAX
            })) by {
                assert(8 * views[i as int].embedding.len() == (views[
                    i as int
                ].embedding.len()) * 8);
            }
        }
        total = sat_add_usize(total, one);
        i += 1;
    }
    proof {
        assert(views.take(n as int) =~= views);
    }
    total
}

/// An entry is fresh when its age is under the time-to-live; an entry
/// stamped in the future counts as expired.
pub open spec fn entry_fresh(e: CacheEntry, now: u64) -> bool {
    e.timestamp <= now && now - e.timestamp < CACHE_TTL
}

/// Whether the id names a fresh entry of the map.
pub open spec fn fresh_key(m: Map<Seq<char>, CacheEntry>, k: Seq<char>, now: u64) -> bool {
    m.contains_key(k) && entry_fresh(m[k], now)
}

/// The saturating total of the entry sizes an id list names.
pub open spec fn list_mem(order: Seq<Seq<char>>, m: Map<Seq<char>, CacheEntry>) -> usize
    decreases order.len(),
{
    if order.len() == 0 {
        0
    } else {
        usat_add(
            list_mem(order.drop_last(), m),
            if m.contains_key(order.last()) {
                m[order.last()].memory_size
            } else {
                0
            },
        )
    }
}

/// A filtered id list never sums to more than the full list.
proof fn lemma_list_mem_filter_le(
    order: Seq<Seq<char>>,
    m: Map<Seq<char>, CacheEntry>,
    pred: spec_fn(Seq<char>) -> bool,
)
    ensures
        list_mem(order.filter(pred), m) <= list_mem(order, m),
    decreases order.len(),
{
    reveal(Seq::filter);
    if order.len() > 0 {
        let prefix = order.drop_last();
        lemma_list_mem_filter_le(prefix, m, pred);
        if pred(order.last()) {
            assert(order.filter(pred) =~= prefix.filter(pred).push(order.last()));
            assert(prefix.filter(pred).push(order.last()).drop_last() =~= prefix.filter(pred));
            assert(prefix.filter(pred).push(order.last()).last() == order.last());
            assert(list_mem(order.filter(pred), m) == usat_add(
                list_mem(prefix.filter(pred), m),
                if m.contains_key(order.last()) {
                    m[order.last()].memory_size
                } else {
                    0
                },
            ));
        } else {
            assert(order.filter(pred) =~= prefix.filter(pred));
        }
    }
}

/// The sum only reads the entries the list names: maps agreeing there sum
/// alike.
proof fn lemma_list_mem_congruent(
    order: Seq<Seq<char>>,
    m1: Map<Seq<char>, CacheEntry>,
    m2: Map<Seq<char>, CacheEntry>,
)
    requires
        forall|i: int|
            0 <= i < order.len() ==> ((m1.contains_key(#[trigger] order[i]) <==> m2.contains_key(
                order[i],
            )) && (m1.contains_key(order[i]) ==> m1[order[i]].memory_size
                == m2[order[i]].memory_size)),
    ensures
        list_mem(order, m1) == list_mem(order, m2),
    decreases order.len(),
{
    if order.len() > 0 {
        assert(order[order.len() - 1] == order.last());
        assert forall|i: int|
            0 <= i < order.drop_last().len() implies ((m1.contains_key(
            #[trigger] order.drop_last()[i],
        ) <==> m2.contains_key(order.drop_last()[i])) && (m1.contains_key(order.drop_last()[i])
            ==> m1[order.drop_last()[i]].memory_size == m2[order.drop_last()[i]].memory_size)) by {
            assert(order.drop_last()[i] == order[i]);
        }
        lemma_list_mem_congruent(order.drop_last(), m1, m2);
    }
}

/// The bounded LRU cache: entries by collection id, with the access order
/// as a list whose head is the least recently used id.
pub struct BoundedCache {
    pub entries: StringHashMap<CacheEntry>,
    pub access_order: Vec<String>,
    pub total_memory: usize,
    pub max_memory: usize,
    pub max_entries: usize,
}

impl BoundedCache {
    /// Well-formedness, which every operation preserves: the access list
    /// mirrors the entry map, the memory account is the exact sum of the
    /// live entries, and both bounds hold.
    pub open spec fn wf(&self) -> bool {
        &&& ids_match(self.access_order.deep_view(), self.entries@)
        &&& self.total_memory == list_mem(self.access_order.deep_view(), self.entries@)
        &&& self.total_memory <= self.max_memory
        &&& self.entries@.len() <= self.max_entries
    }

    pub fn new(max_memory: usize, max_entries: usize) -> (r: Self)
        ensures
            r.wf(),
            r.entries@ == Map::<Seq<char>, CacheEntry>::empty(),
            r.max_memory == max_memory,
            r.max_entries == max_entries,
    {
        let r = BoundedCache {
            entries: StringHashMap::new(),
            access_order: Vec::new(),
            total_memory: 0,
            max_memory,
            max_entries,
        };
        proof {
            assert(r.access_order.deep_view() =~= Seq::<Seq<char>>::empty());
        }
        r
    }

    /// Recomputes the memory account from the live entries.
    fn recalculate_memory(&mut self)
        ensures
            final (self).entries@ == old(self).entries@,
            final (self).access_order@ == old(self).access_order@,
            final (self).max_memory == old(self).max_memory,
            final (self).max_entries == old(self).max_entries,
            final (self).total_memory == list_mem(
                final (self).access_order.deep_view(),
                final (self).entries@,
            ),
    {
        let n = self.access_order.len();
        let ghost order = self.access_order.deep_view();
        let mut total: usize = 0;
        let mut i: usize = 0;
        while i < n
            invariant
                0 <= i <= n,
                n == self.access_order@.len(),
                *self == *old(self),
                order == self.access_order.deep_view(),
                total == list_mem(order.take(i as int), self.entries@),
            decreases n - i,
        {
            proof {
                assert(order[i as int] == self.access_order@[i as int]@);
                assert(order.take(i + 1).drop_last() =~= order.take(i as int));
                assert(order.take(i + 1).last() == order[i as int]);
            }
            let add: usize = match self.entries.get(self.access_order[i].as_str()) {
                Some(e) => e.memory_size,
                None => 0,
            };
            total = sat_add_usize(total, add);
            i += 1;
        }
        proof {
            assert(order.take(n as int) =~= order);
        }
        self.total_memory = total;
    }

    /// Removes one entry and restores the memory account.
    fn remove_entry(&mut self, collection_id: &String)
        requires
            old(self).wf(),
        ensures
            final (self).wf(),
            final (self).entries@ == old(self).entries@.remove(collection_id@),
            final (self).access_order.deep_view() == old(self).access_order.deep_view().filter(
                |x: Seq<char>| x != collection_id@,
            ),
            final (self).max_memory == old(self).max_memory,
            final (self).max_entries == old(self).max_entries,
    {
        let ghost pre_order = self.access_order.deep_view();
        self.entries.remove(collection_id.as_str());
        crate::util::string_vec_remove(&mut self.access_order, collection_id);
        self.recalculate_memory();
        proof {
            crate::util::lemma_filter_no_dup(pre_order, |x: Seq<char>| x != collection_id@);
            assert forall|k: Seq<char>|
                self.entries@.dom().contains(k) <==> self.access_order.deep_view().contains(
                    k,
                ) by {
                crate::util::lemma_filter_membership(
                    pre_order,
                    |x: Seq<char>| x != collection_id@,
                    k,
                );
            }
            lemma_list_mem_filter_le(pre_order, old(self).entries@, |x: Seq<char>| x != collection_id@);
            let ord = self.access_order.deep_view();
            assert forall|i: int| 0 <= i < ord.len() implies ord[i] != collection_id@ by {
                pre_order.lemma_filter_pred(|x: Seq<char>| x != collection_id@, i);
            }
            lemma_list_mem_congruent(ord, self.entries@, old(self).entries@);
            assert(self.total_memory <= old(self).total_memory);
            crate::store::lemma_ids_match_len(ord, self.entries@);
            crate::store::lemma_ids_match_len(pre_order, old(self).entries@);
            pre_order.lemma_filter_len(|x: Seq<char>| x != collection_id@);
        }
    }

    /// Looks a collection up: a fresh entry is promoted to most recent and
    /// its vectors returned; an expired entry is evicted and reported as a
    /// miss.
    pub fn get(&mut self, collection_id: &String, now: u64) -> (r: Option<Vec<Vector>>)
        requires
            old(self).wf(),
        ensures
            final (self).wf(),
            final (self).max_memory == old(self).max_memory,
            final (self).max_entries == old(self).max_entries,
            r is Some <==> fresh_key(old(self).entries@, collection_id@, now),
            r matches Some(vs) ==> ({
                &&& views_of_vectors(vs@) == views_of_vectors(
                    old(self).entries@[collection_id@].vectors@,
                )
                &&& final (self).entries@ =~= old(self).entries@.insert(
                    collection_id@,
                    final (self).entries@[collection_id@],
                )
                &&& final (self).entries@[collection_id@].timestamp == old(
                    self,
                ).entries@[collection_id@].timestamp
                &&& final (self).entries@[collection_id@].last_accessed == now
                &&& views_of_vectors(final (self).entries@[collection_id@].vectors@)
                    == views_of_vectors(old(self).entries@[collection_id@].vectors@)
                &&& final (self).access_order.deep_view() == old(
                    self,
                ).access_order.deep_view().filter(|x: Seq<char>| x != collection_id@).push(
                    collection_id@,
                )
            }),
            (r is None && old(self).entries@.contains_key(collection_id@)) ==> ({
                &&& final (self).entries@ == old(self).entries@.remove(collection_id@)
                &&& final (self).access_order.deep_view() == old(
                    self,
                ).access_order.deep_view().filter(|x: Seq<char>| x != collection_id@)
            }),
            !old(self).entries@.contains_key(collection_id@) ==> *final (self) == *old(self),
    {
        let fresh = match self.entries.get(collection_id.as_str()) {
            Some(e) => e.timestamp <= now && now - e.timestamp < CACHE_TTL,
            None => {
                return None;
            },
        };
        if !fresh {
            self.remove_entry(collection_id);
            return None;
        }
        let entry = self.entries.get(collection_id.as_str()).unwrap();
        let vectors = crate::util::clone_vector_vec(&entry.vectors);
        let updated = CacheEntry {
            vectors: crate::util::clone_vector_vec(&entry.vectors),
            timestamp: entry.timestamp,
            last_accessed: now,
            memory_size: entry.memory_size,
        };
        let ghost pre_order = self.access_order.deep_view();
        let ghost pre_entries = self.entries@;
        self.entries.insert(collection_id.clone(), updated);
        crate::util::string_vec_remove(&mut self.access_order, collection_id);
        self.access_order.push(collection_id.clone());
        self.recalculate_memory();
        proof {
            let ghost ord = self.access_order.deep_view();
            assert(ord =~= pre_order.filter(|x: Seq<char>| x != collection_id@).push(
                collection_id@,
            ));
            crate::util::lemma_filter_no_dup(pre_order, |x: Seq<char>| x != collection_id@);
            let kept = pre_order.filter(|x: Seq<char>| x != collection_id@);
            assert(ord.no_duplicates()) by {
                assert forall|i: int, j: int|
                    0 <= i < ord.len() && 0 <= j < ord.len() && i != j implies ord[i] != ord[j] by {
                    if i < ord.len() - 1 && j < ord.len() - 1 {
                        assert(kept[i] == ord[i]);
                        assert(kept[j] == ord[j]);
                    } else if i == ord.len() - 1 && j < ord.len() - 1 {
                        assert(kept[j] == ord[j]);
                        crate::util::lemma_filter_membership(
                            pre_order,
                            |x: Seq<char>| x != collection_id@,
                            ord[j],
                        );
                        if ord[j] == collection_id@ {
                            assert(kept.contains(ord[j]));
                        }
                    } else if j == ord.len() - 1 && i < ord.len() - 1 {
                        assert(kept[i] == ord[i]);
                        crate::util::lemma_filter_membership(
                            pre_order,
                            |x: Seq<char>| x != collection_id@,
                            ord[i],
                        );
                        if ord[i] == collection_id@ {
                            assert(kept.contains(ord[i]));
                        }
                    }
                }
            }
            assert forall|k: Seq<char>| self.entries@.dom().contains(k) <==> ord.contains(k) by {
                crate::util::lemma_filter_membership(
                    pre_order,
                    |x: Seq<char>| x != collection_id@,
                    k,
                );
                if k == collection_id@ {
                    assert(ord[ord.len() - 1] == k);
                    assert(ord.contains(k));
                } else {
                    if kept.contains(k) {
                        let m = choose|m: int| 0 <= m < kept.len() && kept[m] == k;
                        assert(ord[m] == k);
                        assert(ord.contains(k));
                    }
                    if ord.contains(k) {
                        let m = choose|m: int| 0 <= m < ord.len() && ord[m] == k;
                        assert(m < ord.len() - 1);
                        assert(kept[m] == k);
                        assert(kept.contains(k));
                    }
                }
            }
            // the new account stays within the bound
            lemma_list_mem_filter_le(pre_order, pre_entries, |x: Seq<char>| x != collection_id@);
            assert forall|i: int| 0 <= i < kept.len() implies kept[i] != collection_id@ by {
                pre_order.lemma_filter_pred(|x: Seq<char>| x != collection_id@, i);
            }
            lemma_list_mem_congruent(kept, self.entries@, pre_entries);
            assert(list_mem(ord, self.entries@) == usat_add(
                list_mem(kept, self.entries@),
                self.entries@[collection_id@].memory_size,
            )) by {
                assert(ord.drop_last() =~= kept);
            }
            assert(self.entries@[collection_id@].memory_size
                == pre_entries[collection_id@].memory_size);
            assert(pre_order.contains(collection_id@));
            lemma_list_mem_pull_out(
                pre_order,
                pre_entries,
                collection_id@,
                |x: Seq<char>| x != collection_id@,
            );
            assert(old(self).total_memory == list_mem(pre_order, pre_entries));
            assert(list_mem(pre_order, pre_entries) == usat_add(
                list_mem(kept, pre_entries),
                pre_entries[collection_id@].memory_size,
            ));
            assert(list_mem(kept, self.entries@) == list_mem(kept, pre_entries));
            assert(self.total_memory == list_mem(ord, self.entries@));
            assert(self.total_memory <= old(self).total_memory);
            crate::store::lemma_ids_match_len(ord, self.entries@);
            crate::store::lemma_ids_match_len(pre_order, pre_entries);
        }
        Some(vectors)
    }
}

/// Filtering out the head of a duplicate-free list drops exactly the head.
proof fn lemma_filter_drop_head(s: Seq<Seq<char>>, pred: spec_fn(Seq<char>) -> bool)
    requires
        s.len() > 0,
        !pred(s[0]),
        forall|i: int| 0 < i < s.len() ==> pred(#[trigger] s[i]),
    ensures
        s.filter(pred) == s.drop_first(),
    decreases s.len(),
{
    reveal(Seq::filter);
    if s.len() == 1 {
        assert(s.drop_last() =~= Seq::<Seq<char>>::empty());
        assert(s.drop_last().filter(pred) =~= Seq::<Seq<char>>::empty());
        assert(s.filter(pred) =~= s.drop_first());
    } else {
        assert(s.drop_last()[0] == s[0]);
        assert forall|i: int| 0 < i < s.drop_last().len() implies pred(
            #[trigger] s.drop_last()[i],
        ) by {
            assert(s.drop_last()[i] == s[i]);
        }
        lemma_filter_drop_head(s.drop_last(), pred);
        assert(pred(s.last()));
        assert(s.filter(pred) =~= s.drop_last().drop_first().push(s.last()));
        assert(s.drop_last().drop_first().push(s.last()) =~= s.drop_first());
    }
}

impl BoundedCache {
    /// Removes a collection's entry, if present.
    pub fn remove(&mut self, collection_id: &String)
        requires
            old(self).wf(),
        ensures
            final (self).wf(),
            final (self).entries@ == old(self).entries@.remove(collection_id@),
            final (self).access_order.deep_view() == old(self).access_order.deep_view().filter(
                |x: Seq<char>| x != collection_id@,
            ),
            final (self).max_memory == old(self).max_memory,
            final (self).max_entries == old(self).max_entries,
    {
        self.remove_entry(collection_id);
    }

    /// Clears the whole cache.
    pub fn clear(&mut self)
        ensures
            final (self).wf(),
            final (self).entries@ == Map::<Seq<char>, CacheEntry>::empty(),
            final (self).max_memory == old(self).max_memory,
            final (self).max_entries == old(self).max_entries,
    {
        self.entries.clear();
        self.access_order = Vec::new();
        self.total_memory = 0;
        proof {
            assert(self.access_order.deep_view() =~= Seq::<Seq<char>>::empty());
            crate::store::lemma_ids_match_len(self.access_order.deep_view(), self.entries@);
        }
    }

    /// Drops every expired entry and reports how many left.
    pub fn remove_expired_entries(&mut self, now: u64) -> (evicted: u64)
        requires
            old(self).wf(),
        ensures
            final (self).wf(),
            final (self).max_memory == old(self).max_memory,
            final (self).max_entries == old(self).max_entries,
            final (self).access_order.deep_view() == old(self).access_order.deep_view().filter(
                |x: Seq<char>| fresh_key(old(self).entries@, x, now),
            ),
            forall|k: Seq<char>|
                final (self).entries@.contains_key(k) <==> fresh_key(old(self).entries@, k, now),
            forall|k: Seq<char>|
                final (self).entries@.contains_key(k) ==> final (self).entries@[k] == old(
                    self,
                ).entries@[k],
            evicted == old(self).entries@.len() - final (self).entries@.len(),
    {
        let ghost pre_order = self.access_order.deep_view();
        let ghost pre_entries = self.entries@;
        let ghost freshp = |x: Seq<char>| fresh_key(old(self).entries@, x, now);
        let n = self.access_order.len();
        let mut fresh_list: Vec<String> = Vec::new();
        let mut i: usize = 0;
        while i < n
            invariant
                0 <= i <= n,
                n == pre_order.len(),
                n == self.access_order@.len(),
                old(self).wf(),
                self.access_order@ == old(self).access_order@,
                self.max_memory == old(self).max_memory,
                self.max_entries == old(self).max_entries,
                pre_order == old(self).access_order.deep_view(),
                freshp == (|x: Seq<char>| fresh_key(old(self).entries@, x, now)),
                fresh_list.deep_view() == pre_order.take(i as int).filter(freshp),
                forall|k: Seq<char>|
                    self.entries@.contains_key(k) <==> (old(self).entries@.contains_key(k) && !(
                    exists|j: int|
                        0 <= j < i && pre_order[j] == k && !fresh_key(old(self).entries@, k, now))),
                forall|k: Seq<char>|
                    self.entries@.contains_key(k) ==> self.entries@[k] == old(self).entries@[k],
            decreases n - i,
        {
            proof {
                assert(pre_order[i as int] == self.access_order@[i as int]@);
                assert(pre_order.take(i + 1).drop_last() =~= pre_order.take(i as int));
                assert(pre_order.take(i + 1).last() == pre_order[i as int]);
            }
            let ghost pre_fresh = fresh_list.deep_view();
            let id = &self.access_order[i];
            let keep = match self.entries.get(id.as_str()) {
                Some(e) => e.timestamp <= now && now - e.timestamp < CACHE_TTL,
                None => false,
            };
            if keep {
                fresh_list.push(id.clone());
            } else {
                self.entries.remove(id.as_str());
            }
            proof {
                reveal(Seq::filter);
                if keep {
                    assert(fresh_list.deep_view() =~= pre_fresh.push(pre_order[i as int]));
                }
                assert(fresh_list.deep_view() =~= pre_order.take(i + 1).filter(freshp));
                assert forall|k: Seq<char>|
                    self.entries@.contains_key(k) <==> (old(self).entries@.contains_key(k) && !(
                    exists|j: int|
                        0 <= j < i + 1 && pre_order[j] == k && !fresh_key(
                            old(self).entries@,
                            k,
                            now,
                        ))) by {
                    if !keep && k == pre_order[i as int] {
                        assert(!self.entries@.contains_key(k));
                    }
                }
            }
            i += 1;
        }
        proof {
            assert(pre_order.take(n as int) =~= pre_order);
        }
        let before = self.access_order.len();
        let after = fresh_list.len();
        self.access_order = fresh_list;
        self.recalculate_memory();
        proof {
            let ord = self.access_order.deep_view();
            crate::util::lemma_filter_no_dup(pre_order, freshp);
            assert forall|k: Seq<char>|
                self.entries@.dom().contains(k) <==> ord.contains(k) by {
                crate::util::lemma_filter_membership(pre_order, freshp, k);
                if self.entries@.contains_key(k) {
                    assert(old(self).entries@.contains_key(k));
                    assert(pre_order.contains(k));
                    assert(fresh_key(old(self).entries@, k, now)) by {
                        if !fresh_key(old(self).entries@, k, now) {
                            let j = choose|j: int| 0 <= j < pre_order.len() && pre_order[j] == k;
                            assert(!self.entries@.contains_key(k));
                        }
                    }
                }
                if ord.contains(k) {
                    assert(pre_order.contains(k) && freshp(k));
                    let j = choose|j: int| 0 <= j < pre_order.len() && pre_order[j] == k;
                    assert(self.entries@.contains_key(k));
                }
            }
            lemma_list_mem_filter_le(pre_order, old(self).entries@, freshp);
            assert forall|i2: int|
                0 <= i2 < ord.len() implies ((self.entries@.contains_key(#[trigger] ord[i2])
                <==> old(self).entries@.contains_key(ord[i2])) && (self.entries@.contains_key(
                ord[i2],
            ) ==> self.entries@[ord[i2]].memory_size == old(
                self,
            ).entries@[ord[i2]].memory_size)) by {
                pre_order.lemma_filter_pred(freshp, i2);
                assert(ord.contains(ord[i2]));
            }
            lemma_list_mem_congruent(ord, self.entries@, old(self).entries@);
            assert(self.total_memory <= old(self).total_memory);
            crate::store::lemma_ids_match_len(ord, self.entries@);
            crate::store::lemma_ids_match_len(pre_order, old(self).entries@);
            pre_order.lemma_filter_len(freshp);
            assert forall|k: Seq<char>|
                self.entries@.contains_key(k) <==> fresh_key(old(self).entries@, k, now) by {
                if self.entries@.contains_key(k) {
                    assert(old(self).entries@.contains_key(k));
                    if !fresh_key(old(self).entries@, k, now) {
                        assert(pre_order.contains(k));
                        let j = choose|j: int| 0 <= j < pre_order.len() && pre_order[j] == k;
                        assert(!self.entries@.contains_key(k));
                    }
                }
                if fresh_key(old(self).entries@, k, now) {
                    assert(old(self).entries@.contains_key(k));
                    assert(self.entries@.contains_key(k));
                }
            }
        }
        (before - after) as u64
    }

    /// The ids that survive the admission sweep for a new entry: the entry
    /// being replaced and every expired entry leave first.
    pub open spec fn insert_survivors(pre: BoundedCache, c: Seq<char>, now: u64) -> Seq<
        Seq<char>,
    > {
        pre.access_order.deep_view().filter(|x: Seq<char>| x != c).filter(
            |x: Seq<char>| fresh_key(pre.entries@, x, now),
        )
    }

    /// The entries that survive the replacement-and-expiry sweep of an
    /// admission for `c`: everything fresh except `c` itself.
    pub open spec fn surviving_entries(pre: BoundedCache, c: Seq<char>, now: u64) -> Map<
        Seq<char>,
        CacheEntry,
    > {
        Map::new(
            |k: Seq<char>|
                pre.entries@.contains_key(k) && k != c && entry_fresh(pre.entries@[k], now),
            |k: Seq<char>| pre.entries@[k],
        )
    }

    /// Whether a new entry of the given size fits beside the survivors once
    /// `kk` of them have been evicted from the least-recent end.
    pub open spec fn insert_fits(
        pre: BoundedCache,
        c: Seq<char>,
        now: u64,
        kk: int,
        size: usize,
    ) -> bool {
        let f = BoundedCache::insert_survivors(pre, c, now);
        usat_add(
            list_mem(f.skip(kk), BoundedCache::surviving_entries(pre, c, now)),
            size,
        ) <= pre.max_memory && f.skip(kk).len() < pre.max_entries
    }

    /// Admits a collection's vectors, evicting first expired entries and
    /// then least-recently-used ones until both bounds can take the new
    /// entry, and not one entry more.  An entry that cannot fit even in an
    /// empty cache is refused, and the caller proceeds as on a miss.
    pub fn insert(&mut self, collection_id: String, vectors: Vec<Vector>, now: u64) -> (admitted:
        bool)
        requires
            old(self).wf(),
        ensures
            final (self).wf(),
            final (self).max_memory == old(self).max_memory,
            final (self).max_entries == old(self).max_entries,
            admitted ==> ({
                &&& final (self).entries@.contains_key(collection_id@)
                &&& views_of_vectors(final (self).entries@[collection_id@].vectors@)
                    == views_of_vectors(vectors@)
                &&& final (self).entries@[collection_id@].timestamp == now
                &&& final (self).entries@[collection_id@].last_accessed == now
                &&& final (self).entries@[collection_id@].memory_size == vectors_mem(
                    views_of_vectors(vectors@),
                )
            }),
            !admitted ==> !final (self).entries@.contains_key(collection_id@),
            forall|k: Seq<char>|
                k != collection_id@ && #[trigger] final (self).entries@.contains_key(k) ==> (old(
                    self,
                ).entries@.contains_key(k) && final (self).entries@[k] == old(self).entries@[k]),
            (vectors_mem(views_of_vectors(vectors@)) <= old(self).max_memory && old(
                self,
            ).max_entries >= 1) ==> admitted,
            exists|kk: int|
                0 <= kk <= BoundedCache::insert_survivors(*old(self), collection_id@, now).len()
                    && final (self).access_order.deep_view() == (if admitted {
                    (#[trigger] BoundedCache::insert_survivors(
                        *old(self),
                        collection_id@,
                        now,
                    ).skip(kk)).push(collection_id@)
                } else {
                    BoundedCache::insert_survivors(*old(self), collection_id@, now).skip(kk)
                }) && (forall|j: int|
                    0 <= j < kk ==> !BoundedCache::insert_fits(
                        *old(self),
                        collection_id@,
                        now,
                        j,
                        vectors_mem(views_of_vectors(vectors@)),
                    )) && (admitted ==> BoundedCache::insert_fits(
                    *old(self),
                    collection_id@,
                    now,
                    kk,
                    vectors_mem(views_of_vectors(vectors@)),
                )),
    {
        let ghost orig = *old(self);
        let memory_size = estimate_vectors_memory_size(&vectors);
        let ghost old_entries = old(self).entries@;
        let ghost p1 = |x: Seq<char>| x != collection_id@;
        self.remove_entry(&collection_id);
        let ghost mid = *self;
        let ghost p2m = |x: Seq<char>| fresh_key(mid.entries@, x, now);
        let ghost p2 = |x: Seq<char>| fresh_key(old(self).entries@, x, now);
        let _dropped = self.remove_expired_entries(now);
        proof {
            // the two freshness predicates agree on the surviving list
            let o1 = old(self).access_order.deep_view().filter(p1);
            assert(mid.access_order.deep_view() == o1);
            assert(o1.filter(p2m) =~= o1.filter(p2)) by {
                lemma_filter_agree(o1, p2m, p2);
                assert forall|i: int| 0 <= i < o1.len() implies p2m(#[trigger] o1[i]) == p2(
                    o1[i],
                ) by {
                    crate::util::lemma_filter_membership(
                        old(self).access_order.deep_view(),
                        p1,
                        o1[i],
                    );
                    assert(o1[i] != collection_id@) by {
                        old(self).access_order.deep_view().lemma_filter_pred(p1, i);
                    }
                }
            }
        }
        let ghost f = BoundedCache::insert_survivors(*old(self), collection_id@, now);
        proof {
            assert(f == old(self).access_order.deep_view().filter(p1).filter(p2));
        }
        let ghost mut evictions: int = 0;
        proof {
            assert(self.access_order.deep_view() == f.skip(0)) by {
                assert(f.skip(0) =~= f);
            }
            assert(!f.contains(collection_id@)) by {
                if f.contains(collection_id@) {
                    crate::util::lemma_filter_membership(
                        old(self).access_order.deep_view().filter(p1),
                        p2,
                        collection_id@,
                    );
                    crate::util::lemma_filter_membership(
                        old(self).access_order.deep_view(),
                        p1,
                        collection_id@,
                    );
                }
            }
        }
        let mut over: bool = sat_add_usize(self.total_memory, memory_size) > self.max_memory
            || self.access_order.len() >= self.max_entries;
        while over && self.access_order.len() > 0
            invariant
                self.wf(),
                orig == *old(self),
                orig.wf(),
                self.max_memory == orig.max_memory,
                self.max_entries == orig.max_entries,
                0 <= evictions <= f.len(),
                f == BoundedCache::insert_survivors(orig, collection_id@, now),
                f == orig.access_order.deep_view().filter(p1).filter(p2),
                p1 == (|x: Seq<char>| x != collection_id@),
                p2 == (|x: Seq<char>| fresh_key(old(self).entries@, x, now)),
                memory_size == vectors_mem(views_of_vectors(vectors@)),
                self.access_order.deep_view() == f.skip(evictions),
                !f.contains(collection_id@),
                over == (usat_add(self.total_memory, memory_size) > self.max_memory
                    || self.access_order.deep_view().len() >= self.max_entries),
                forall|j: int|
                    0 <= j < evictions ==> !BoundedCache::insert_fits(
                        orig,
                        collection_id@,
                        now,
                        j,
                        memory_size,
                    ),
                forall|k: Seq<char>|
                    #[trigger] self.entries@.contains_key(k) ==> (k != collection_id@
                        && orig.entries@.contains_key(k) && self.entries@[k]
                        == orig.entries@[k]),
            decreases f.len() - evictions,
        {
            proof {
                lemma_survivor_account(*self, orig, collection_id@, now, evictions, p1, p2);
                assert(!BoundedCache::insert_fits(
                    orig,
                    collection_id@,
                    now,
                    evictions,
                    memory_size,
                ));
            }
            let head = self.access_order[0].clone();
            let ghost cur = self.access_order.deep_view();
            let ghost pre_iter_entries = self.entries@;
            proof {
                assert(cur[0] == self.access_order@[0]@);
                assert(cur.contains(cur[0]));
            }
            self.remove_entry(&head);
            proof {
                let hp = |x: Seq<char>| x != head@;
                assert(!hp(cur[0]));
                assert forall|i2: int| 0 < i2 < cur.len() implies hp(#[trigger] cur[i2]) by {
                    if cur[i2] == head@ {
                        assert(cur[0] == head@);
                    }
                }
                lemma_filter_drop_head(cur, hp);
                assert(self.access_order.deep_view() == cur.drop_first());
                assert(cur.drop_first() =~= f.skip(evictions + 1));
                assert(self.entries@ == pre_iter_entries.remove(head@));
                assert forall|k: Seq<char>|
                    self.entries@.contains_key(k) implies (k != collection_id@
                        && orig.entries@.contains_key(k) && self.entries@[k]
                        == orig.entries@[k]) by {
                    assert(pre_iter_entries.contains_key(k));
                    assert(k != collection_id@);
                    assert(orig.entries@.contains_key(k));
                    assert(pre_iter_entries[k] == orig.entries@[k]);
                    assert(self.entries@[k] == pre_iter_entries[k]);
                }
            }
            proof {
                evictions = evictions + 1;
            }
            over = sat_add_usize(self.total_memory, memory_size) > self.max_memory
                || self.access_order.len() >= self.max_entries;
        }
        proof {
            if !over {
                lemma_survivor_account(*self, orig, collection_id@, now, evictions, p1, p2);
                assert(BoundedCache::insert_fits(
                    orig,
                    collection_id@,
                    now,
                    evictions,
                    memory_size,
                ));
            }
        }
        if over {
            // Nothing left to evict and the entry still does not fit: the
            // caller proceeds as on a miss.
            proof {
                assert(self.access_order.deep_view().len() == 0);
                assert(self.access_order.deep_view() =~= Seq::<Seq<char>>::empty());
                assert(self.total_memory == 0);
                assert(!self.entries@.contains_key(collection_id@));
                if vectors_mem(views_of_vectors(vectors@)) <= old(self).max_memory && old(
                    self,
                ).max_entries >= 1 {
                    assert(usat_add(0, memory_size) == memory_size);
                    assert(false);
                }
            }
            return false;
        }
        let entry = CacheEntry { vectors, timestamp: now, last_accessed: now, memory_size };
        let ghost pre_entries2 = self.entries@;
        let ghost pre_order2 = self.access_order.deep_view();
        let ghost pre_total = self.total_memory;
        self.entries.insert(collection_id.clone(), entry);
        self.access_order.push(collection_id);
        self.total_memory = sat_add_usize(self.total_memory, memory_size);
        proof {
            let ord = self.access_order.deep_view();
            assert(ord =~= pre_order2.push(ord.last()));
            assert(ord.last() == ord[ord.len() - 1]);
            assert forall|k: Seq<char>|
                self.entries@.dom().contains(k) <==> ord.contains(k) by {
                if k == ord.last() {
                    assert(ord.contains(k));
                    assert(self.entries@.dom().contains(k));
                } else {
                    if pre_order2.contains(k) {
                        let m = choose|m: int| 0 <= m < pre_order2.len() && pre_order2[m] == k;
                        assert(ord[m] == k);
                        assert(ord.contains(k));
                    }
                    if ord.contains(k) {
                        let m = choose|m: int| 0 <= m < ord.len() && ord[m] == k;
                        assert(m < ord.len() - 1);
                        assert(pre_order2[m] == k);
                        assert(pre_order2.contains(k));
                    }
                }
            }
            assert(ord.no_duplicates()) by {
                assert(!pre_order2.contains(ord.last()));
                assert forall|i2: int, j2: int|
                    0 <= i2 < ord.len() && 0 <= j2 < ord.len() && i2 != j2 implies ord[i2]
                    != ord[j2] by {
                    if i2 < ord.len() - 1 && j2 < ord.len() - 1 {
                        assert(pre_order2[i2] == ord[i2]);
                        assert(pre_order2[j2] == ord[j2]);
                    } else if i2 == ord.len() - 1 && j2 < ord.len() - 1 {
                        assert(pre_order2[j2] == ord[j2]);
                        if ord[j2] == ord.last() {
                            assert(pre_order2.contains(ord.last()));
                        }
                    } else if j2 == ord.len() - 1 && i2 < ord.len() - 1 {
                        assert(pre_order2[i2] == ord[i2]);
                        if ord[i2] == ord.last() {
                            assert(pre_order2.contains(ord.last()));
                        }
                    }
                }
            }
            assert(ord.drop_last() =~= pre_order2);
            assert forall|i2: int|
                0 <= i2 < pre_order2.len() implies ((self.entries@.contains_key(
                #[trigger] pre_order2[i2],
            ) <==> pre_entries2.contains_key(pre_order2[i2])) && (self.entries@.contains_key(
                pre_order2[i2],
            ) ==> self.entries@[pre_order2[i2]].memory_size
                == pre_entries2[pre_order2[i2]].memory_size)) by {
                assert(pre_order2.contains(pre_order2[i2]));
            }
            lemma_list_mem_congruent(pre_order2, self.entries@, pre_entries2);
            assert(list_mem(ord, self.entries@) == usat_add(pre_total, memory_size));
            crate::store::lemma_ids_match_len(ord, self.entries@);
            crate::store::lemma_ids_match_len(pre_order2, pre_entries2);
        }
        true
    }

    /// The statistics record: entry count, memory account, limits, and the
    /// integer percentage of memory in use.
    pub fn get_stats(&self) -> (r: CacheStats)
        requires
            self.wf(),
        ensures
            r.entry_count == self.entries@.len(),
            r.total_memory_bytes == self.total_memory,
            r.max_memory_bytes == self.max_memory,
            r.max_entries == self.max_entries,
            r.memory_usage_percent == (if self.max_memory == 0 {
                0int
            } else {
                (self.total_memory * 100) / (self.max_memory as int)
            }),
    {
        proof {
            crate::store::lemma_ids_match_len(self.access_order.deep_view(), self.entries@);
        }
        let percent: u32 = if self.max_memory == 0 {
            0
        } else {
            let p = ((self.total_memory as u128) * 100) / (self.max_memory as u128);
            proof {
                assert((self.total_memory as int) * 100 / (self.max_memory as int)
                    <= 100) by (nonlinear_arith)
                    requires
                        0 <= self.total_memory <= self.max_memory,
                        self.max_memory > 0,
                ;
            }
            p as u32
        };
        CacheStats {
            entry_count: self.access_order.len(),
            total_memory_bytes: self.total_memory,
            max_memory_bytes: self.max_memory,
            max_entries: self.max_entries,
            memory_usage_percent: percent,
        }
    }
}

// =============================================================================
// CACHE-BACKED RETRIEVAL
// =============================================================================

/// The vectors of a collection, from the cache when a fresh entry exists,
/// and from storage otherwise; a non-empty storage result is offered to the
/// cache on the way out.  After an invalidation the next call reads the
/// authoritative set from storage.
pub fn get_cached_vectors(
    cache: &mut BoundedCache,
    store: &Store,
    collection_id: &String,
    now: u64,
) -> (r: Vec<Vector>)
    requires
        old(cache).wf(),
        store.wf(),
    ensures
        final (cache).wf(),
        final (cache).max_memory == old(cache).max_memory,
        final (cache).max_entries == old(cache).max_entries,
        fresh_key(old(cache).entries@, collection_id@, now) ==> views_of_vectors(r@)
            == views_of_vectors(old(cache).entries@[collection_id@].vectors@),
        !fresh_key(old(cache).entries@, collection_id@, now) ==> ({
            &&& (store.vector_index@.contains_key(collection_id@) ==> views_of_vectors(r@)
                == crate::vectors::resolved_vectors(
                *store,
                store.vector_index@[collection_id@]@,
            ))
            &&& (!store.vector_index@.contains_key(collection_id@) ==> r@.len() == 0)
            &&& forall|i: int|
                0 <= i < r@.len() ==> crate::types::valid_vector((#[trigger] r@[i])@)
        }),
        fresh_key(final (cache).entries@, collection_id@, now) ==> views_of_vectors(
            final (cache).entries@[collection_id@].vectors@,
        ) == views_of_vectors(r@),
        fresh_key(old(cache).entries@, collection_id@, now) ==> fresh_key(
            final (cache).entries@,
            collection_id@,
            now,
        ),
{
    match cache.get(collection_id, now) {
        Some(vs) => vs,
        None => {
            let vectors = crate::vectors::get_collection_vectors(store, collection_id);
            if vectors.len() > 0 {
                let copy = crate::util::clone_vector_vec(&vectors);
                let _admitted = cache.insert(collection_id.clone(), copy, now);
            }
            vectors
        },
    }
}

/// Drops a collection's cache entry after its data changed.
pub fn invalidate_collection_cache(cache: &mut BoundedCache, collection_id: &String)
    requires
        old(cache).wf(),
    ensures
        final (cache).wf(),
        final (cache).entries@ == old(cache).entries@.remove(collection_id@),
        final (cache).access_order.deep_view() == old(cache).access_order.deep_view().filter(
            |x: Seq<char>| x != collection_id@,
        ),
        !fresh_key(final (cache).entries@, collection_id@, 0),
        final (cache).max_memory == old(cache).max_memory,
        final (cache).max_entries == old(cache).max_entries,
{
    cache.remove(collection_id);
}

/// Clears the whole cache.
pub fn clear_cache(cache: &mut BoundedCache)
    ensures
        final (cache).wf(),
        final (cache).entries@ == Map::<Seq<char>, CacheEntry>::empty(),
        final (cache).max_memory == old(cache).max_memory,
        final (cache).max_entries == old(cache).max_entries,
{
    cache.clear();
}

/// The cache statistics record.
pub fn get_cache_stats(cache: &BoundedCache) -> (r: CacheStats)
    requires
        cache.wf(),
    ensures
        r.entry_count == cache.entries@.len(),
        r.total_memory_bytes == cache.total_memory,
        r.max_memory_bytes == cache.max_memory,
        r.max_entries == cache.max_entries,
{
    cache.get_stats()
}

/// Drops every expired entry, reporting how many left.
pub fn cleanup_cache(cache: &mut BoundedCache, now: u64) -> (r: u32)
    requires
        old(cache).wf(),
    ensures
        final (cache).wf(),
        forall|k: Seq<char>|
            final (cache).entries@.contains_key(k) <==> fresh_key(old(cache).entries@, k, now),
        forall|k: Seq<char>|
            #[trigger] final (cache).entries@.contains_key(k) ==> final (cache).entries@[k] == old(
                cache,
            ).entries@[k],
        final (cache).access_order.deep_view() == old(cache).access_order.deep_view().filter(
            |x: Seq<char>| fresh_key(old(cache).entries@, x, now),
        ),
        r == (old(cache).entries@.len() - final (cache).entries@.len()) as u32,
        final (cache).max_memory == old(cache).max_memory,
        final (cache).max_entries == old(cache).max_entries,
{
    let evicted = cache.remove_expired_entries(now);
    #[verifier::truncate] (evicted as u32)
}

/// The running memory account during an admission equals the survivor
/// suffix summed over the pristine surviving entries.
proof fn lemma_survivor_account(
    cache: BoundedCache,
    orig: BoundedCache,
    c: Seq<char>,
    now: u64,
    ev: int,
    p1: spec_fn(Seq<char>) -> bool,
    p2: spec_fn(Seq<char>) -> bool,
)
    requires
        cache.wf(),
        forall|x: Seq<char>| #[trigger] p1(x) <==> x != c,
        forall|x: Seq<char>| #[trigger] p2(x) <==> fresh_key(orig.entries@, x, now),
        BoundedCache::insert_survivors(orig, c, now) == orig.access_order.deep_view().filter(
            p1,
        ).filter(p2),
        0 <= ev <= BoundedCache::insert_survivors(orig, c, now).len(),
        cache.access_order.deep_view() == BoundedCache::insert_survivors(orig, c, now).skip(ev),
        forall|k: Seq<char>|
            #[trigger] cache.entries@.contains_key(k) ==> (k != c && orig.entries@.contains_key(k)
                && cache.entries@[k] == orig.entries@[k]),
    ensures
        cache.total_memory == list_mem(
            BoundedCache::insert_survivors(orig, c, now).skip(ev),
            BoundedCache::surviving_entries(orig, c, now),
        ),
{
    let f = BoundedCache::insert_survivors(orig, c, now);
    let order0 = orig.access_order.deep_view();
    let o1 = order0.filter(p1);
    let ord = cache.access_order.deep_view();
    let sur = BoundedCache::surviving_entries(orig, c, now);
    assert forall|i: int|
        0 <= i < ord.len() implies ((cache.entries@.contains_key(#[trigger] ord[i])
        <==> sur.contains_key(ord[i])) && (cache.entries@.contains_key(ord[i])
        ==> cache.entries@[ord[i]].memory_size == sur[ord[i]].memory_size)) by {
        let k = ord[i];
        assert(f.skip(ev)[i] == f[ev + i]);
        assert(f[ev + i] == k);
        assert(0 <= ev + i < f.len());
        o1.lemma_filter_pred(p2, ev + i);
        crate::util::lemma_filter_elem_from(o1, p2, ev + i);
        let j = choose|j: int| 0 <= j < o1.len() && o1[j] == f[ev + i];
        order0.lemma_filter_pred(p1, j);
        assert(p2(k) && p1(k));
        assert(sur.contains_key(k));
        assert(ord.contains(k));
        assert(cache.entries@.contains_key(k));
    }
    lemma_list_mem_congruent(ord, cache.entries@, sur);
}

/// Two predicates that agree pointwise on a list filter it alike.
proof fn lemma_filter_agree(
    s: Seq<Seq<char>>,
    p: spec_fn(Seq<char>) -> bool,
    q: spec_fn(Seq<char>) -> bool,
)
    requires
        forall|i: int| 0 <= i < s.len() ==> p(#[trigger] s[i]) == q(s[i]),
    ensures
        s.filter(p) == s.filter(q),
    decreases s.len(),
{
    reveal(Seq::filter);
    if s.len() > 0 {
        assert forall|i: int| 0 <= i < s.drop_last().len() implies p(
            #[trigger] s.drop_last()[i],
        ) == q(s.drop_last()[i]) by {
            assert(s.drop_last()[i] == s[i]);
        }
        lemma_filter_agree(s.drop_last(), p, q);
        assert(s[s.len() - 1] == s.last());
    }
}

/// Summing a list equals summing it without one id, saturating-added to
/// that id's size: the account of a promoted entry is unchanged.
proof fn lemma_list_mem_pull_out(
    order: Seq<Seq<char>>,
    m: Map<Seq<char>, CacheEntry>,
    c: Seq<char>,
    pred: spec_fn(Seq<char>) -> bool,
)
    requires
        order.no_duplicates(),
        m.contains_key(c),
        order.contains(c),
        forall|x: Seq<char>| #[trigger] pred(x) <==> x != c,
    ensures
        list_mem(order, m) == usat_add(list_mem(order.filter(pred), m), m[c].memory_size),
    decreases order.len(),
{
    reveal(Seq::filter);
    if order.len() > 0 {
        let prefix = order.drop_last();
        if order.last() == c {
            assert(!prefix.contains(c)) by {
                if prefix.contains(c) {
                    let i = choose|i: int| 0 <= i < prefix.len() && prefix[i] == c;
                    assert(order[i] == c && order[order.len() - 1] == c);
                }
            }
            assert forall|i: int| 0 <= i < prefix.len() implies pred(#[trigger] prefix[i]) by {
                if prefix[i] == c {
                    assert(prefix.contains(c));
                }
            }
            lemma_filter_of_absent(prefix, pred);
            assert(order.filter(pred) == prefix);
            assert(list_mem(order, m) == usat_add(list_mem(prefix, m), m[c].memory_size));
        } else {
            assert(prefix.contains(c)) by {
                let i = choose|i: int| 0 <= i < order.len() && order[i] == c;
                assert(prefix[i] == c);
            }
            lemma_list_mem_pull_out(prefix, m, c, pred);
            let last_size: usize = if m.contains_key(order.last()) {
                m[order.last()].memory_size
            } else {
                0
            };
            assert(pred(order.last()));
            assert(order.filter(pred) =~= prefix.filter(pred).push(order.last()));
            assert(prefix.filter(pred).push(order.last()).drop_last() =~= prefix.filter(pred));
            assert(list_mem(order.filter(pred), m) == usat_add(
                list_mem(prefix.filter(pred), m),
                last_size,
            ));
            assert(list_mem(order, m) == usat_add(list_mem(prefix, m), last_size));
            assert(list_mem(prefix, m) == usat_add(
                list_mem(prefix.filter(pred), m),
                m[c].memory_size,
            ));
            // reassociate the two saturating additions
            assert(usat_add(
                usat_add(list_mem(prefix.filter(pred), m), m[c].memory_size),
                last_size,
            ) == usat_add(
                usat_add(list_mem(prefix.filter(pred), m), last_size),
                m[c].memory_size,
            ));
        }
    }
}

/// Filtering with a predicate every element satisfies leaves the list as it
/// is.
proof fn lemma_filter_of_absent(order: Seq<Seq<char>>, pred: spec_fn(Seq<char>) -> bool)
    requires
        forall|i: int| 0 <= i < order.len() ==> pred(#[trigger] order[i]),
    ensures
        order.filter(pred) == order,
    decreases order.len(),
{
    reveal(Seq::filter);
    if order.len() > 0 {
        assert forall|i: int|
            0 <= i < order.drop_last().len() implies pred(#[trigger] order.drop_last()[i]) by {
            assert(order.drop_last()[i] == order[i]);
        }
        lemma_filter_of_absent(order.drop_last(), pred);
        assert(order[order.len() - 1] == order.last());
        assert(pred(order.last()));
        assert(order.filter(pred) =~= order);
    }
}

} // verus!
