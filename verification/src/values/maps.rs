//! Maps from value to value, in two representations: up to 31 entries lie
//! in an inline array that is searched from the front; the 32nd distinct key
//! moves the entries into a hash table of the `hashbrown` crate, where they
//! stay. Keys are equal when their words are equal.

use vstd::prelude::*;
use super::Val;

verus! {

/// The number of entries that the small representation holds.
pub const SMALL_MAP_MAX: usize = 31;

/// The most entries a map holds on a machine with wide words: its length
/// must fit in an integer word.
pub const MAX_MAP_LEN: usize = 0x7FFF_FFFE;

/// The most entries a map holds: no more than `MAX_MAP_LEN`, and so few
/// that the bytes of its table can be counted in an `isize` with room to
/// spare. A table that grows makes room for up to twice its entries, in
/// buckets of 17 bytes whose number is a power of two above eight sevenths
/// of that: fewer than 78 bytes for each entry.
pub open spec fn spec_map_limit() -> usize {
    if (isize::MAX as usize) / 128 < MAX_MAP_LEN {
        (isize::MAX as usize) / 128
    } else {
        MAX_MAP_LEN
    }
}

pub fn map_limit() -> (n: usize)
    ensures
        n == spec_map_limit(),
        32 < n <= MAX_MAP_LEN,
{
    let by_bytes = (isize::MAX as usize) / 128;
    if by_bytes < MAX_MAP_LEN {
        by_bytes
    } else {
        MAX_MAP_LEN
    }
}

/// A hash table from word to word of the `hashbrown` crate. Verus does not
/// look inside; what it holds is named by `word_table_entries`.
#[verifier::external_body]
pub struct WordTable {
    inner: hashbrown::HashMap<u64, u64>,
}

/// The entries that a `WordTable` holds.
pub uninterp spec fn word_table_entries(t: WordTable) -> Map<u64, u64>;

/// The table without entries.
pub open spec fn no_entries() -> Map<u64, u64> {
    Map::empty()
}

/// Calls `hashbrown::HashMap::new`: the new table has no entry.
#[verifier::external_body]
pub(crate) fn word_table_new() -> (t: WordTable)
    ensures
        word_table_entries(t) == no_entries(),
{
    WordTable { inner: hashbrown::HashMap::new() }
}

/// Calls `hashbrown::HashMap::len`: the number of entries.
#[verifier::external_body]
pub(crate) fn word_table_len(t: &WordTable) -> (n: usize)
    requires
        word_table_entries(*t).dom().finite(),
    ensures
        n == word_table_entries(*t).dom().len(),
{
    t.inner.len()
}

/// Calls `hashbrown::HashMap::get`: the value under `k`, if there is one.
#[verifier::external_body]
pub(crate) fn word_table_get(t: &WordTable, k: u64) -> (r: Option<u64>)
    ensures
        r == (if word_table_entries(*t).contains_key(k) {
            Some(word_table_entries(*t)[k])
        } else {
            None
        }),
{
    t.inner.get(&k).copied()
}

/// Calls `hashbrown::HashMap::insert`: `k` now maps to `v`, and the value
/// that it mapped to before is returned, if there was one. The call panics
/// when the table would outgrow `isize::MAX` bytes, so the number of entries
/// is kept far below that.
#[verifier::external_body]
pub(crate) fn word_table_insert(t: &mut WordTable, k: u64, v: u64) -> (r: Option<u64>)
    requires
        word_table_entries(*old(t)).dom().finite(),
        word_table_entries(*old(t)).dom().len() < spec_map_limit(),
    ensures
        word_table_entries(*final(t)) == word_table_entries(*old(t)).insert(k, v),
        r == (if word_table_entries(*old(t)).contains_key(k) {
            Some(word_table_entries(*old(t))[k])
        } else {
            None
        }),
{
    t.inner.insert(k, v)
}

/// Calls `hashbrown::HashMap::remove`: `k` maps to nothing any more, and
/// the value that it mapped to before is returned, if there was one.
#[verifier::external_body]
pub(crate) fn word_table_remove(t: &mut WordTable, k: u64) -> (r: Option<u64>)
    ensures
        word_table_entries(*final(t)) == word_table_entries(*old(t)).remove(k),
        r == (if word_table_entries(*old(t)).contains_key(k) {
            Some(word_table_entries(*old(t))[k])
        } else {
            None
        }),
{
    t.inner.remove(&k)
}

/// Collects what `hashbrown::HashMap::iter` visits: every entry once, in an
/// order that is not specified.
#[verifier::external_body]
pub(crate) fn word_table_pairs(t: &WordTable) -> (r: Vec<(u64, u64)>)
    requires
        word_table_entries(*t).dom().finite(),
    ensures
        r@.len() == word_table_entries(*t).dom().len(),
        forall|i: int|
            0 <= i < r@.len() ==> word_table_entries(*t).contains_pair(
                (#[trigger] r@[i]).0,
                r@[i].1,
            ),
        forall|i: int, j: int| 0 <= i < j < r@.len() ==> r@[i].0 != r@[j].0,
{
    t.inner.iter().map(|(k, v)| (*k, *v)).collect()
}

/// A map from value to value.
pub enum ValMap {
    SmallMap { len: usize, items: [(Val, Val); 31] },
    HashMap(WordTable),
}

/// The map that a run of entries with distinct keys stands for.
pub open spec fn pairs_map(s: Seq<(Val, Val)>) -> Map<Val, Val>
    decreases s.len(),
{
    if s.len() == 0 {
        Map::empty()
    } else {
        pairs_map(s.drop_last()).insert(s.last().0, s.last().1)
    }
}

/// No key occurs twice among the entries.
pub open spec fn distinct_keys(s: Seq<(Val, Val)>) -> bool {
    forall|i: int, j: int| 0 <= i < j < s.len() ==> s[i].0 != s[j].0
}

/// A map of words read as a map of values.
pub open spec fn val_map(raw: Map<u64, u64>) -> Map<Val, Val> {
    Map::new(|k: Val| raw.contains_key(k.0), |k: Val| Val(raw[k.0]))
}

/// The entries of a small map decide what its map holds.
pub proof fn lemma_pairs_map(s: Seq<(Val, Val)>, k: Val)
    requires
        distinct_keys(s),
    ensures
        pairs_map(s).dom().finite(),
        pairs_map(s).dom().len() == s.len(),
        pairs_map(s).contains_key(k) <==> exists|i: int| 0 <= i < s.len() && s[i].0 == k,
        forall|i: int| 0 <= i < s.len() && s[i].0 == k ==> pairs_map(s)[k] == s[i].1,
    decreases s.len(),
{
    if s.len() > 0 {
        let init = s.drop_last();
        assert(distinct_keys(init)) by {
            assert forall|i: int, j: int| 0 <= i < j < init.len() implies init[i].0
                != init[j].0 by {
                assert(init[i] == s[i] && init[j] == s[j]);
            }
        }
        lemma_pairs_map(init, k);
        lemma_pairs_map(init, s.last().0);
        assert(!pairs_map(init).contains_key(s.last().0)) by {
            if pairs_map(init).contains_key(s.last().0) {
                let i = choose|i: int| 0 <= i < init.len() && init[i].0 == s.last().0;
                assert(s[i].0 == s[s.len() - 1].0);
            }
        }
        if pairs_map(s).contains_key(k) {
            if k == s.last().0 {
                assert(s[s.len() - 1].0 == k);
            } else {
                let i = choose|i: int| 0 <= i < init.len() && init[i].0 == k;
                assert(s[i].0 == k);
            }
        }
        if exists|i: int| 0 <= i < s.len() && s[i].0 == k {
            let i = choose|i: int| 0 <= i < s.len() && s[i].0 == k;
            if i < s.len() - 1 {
                assert(init[i].0 == k);
            }
        }
        assert forall|i: int| 0 <= i < s.len() && s[i].0 == k implies pairs_map(s)[k]
            == s[i].1 by {
            if i < s.len() - 1 {
                assert(init[i].0 == k);
                assert(s[i].0 != s[s.len() - 1].0);
            }
        }
    }
}

/// Overwriting the value of an entry overwrites the value in the map.
pub proof fn lemma_pairs_map_update(s: Seq<(Val, Val)>, i: int, v: Val)
    requires
        distinct_keys(s),
        0 <= i < s.len(),
    ensures
        distinct_keys(s.update(i, (s[i].0, v))),
        pairs_map(s.update(i, (s[i].0, v))) == pairs_map(s).insert(s[i].0, v),
    decreases s.len(),
{
    let k = s[i].0;
    let after = s.update(i, (k, v));
    assert(distinct_keys(after)) by {
        assert forall|a: int, b: int| 0 <= a < b < after.len() implies after[a].0
            != after[b].0 by {
            assert(s[a].0 != s[b].0);
        }
    }
    if i == s.len() - 1 {
        assert(after.drop_last() =~= s.drop_last());
        assert(pairs_map(after) =~= pairs_map(s).insert(k, v));
    } else {
        let init = s.drop_last();
        assert(distinct_keys(init)) by {
            assert forall|a: int, b: int| 0 <= a < b < init.len() implies init[a].0
                != init[b].0 by {
                assert(init[a] == s[a] && init[b] == s[b]);
            }
        }
        lemma_pairs_map_update(init, i, v);
        assert(after.drop_last() =~= init.update(i, (k, v)));
        assert(s[i].0 != s[s.len() - 1].0);
        assert(pairs_map(after) =~= pairs_map(s).insert(k, v));
    }
}

/// Moving the last entry into the place of entry `i` removes the key of
/// entry `i` from the map.
pub proof fn lemma_pairs_map_remove(s: Seq<(Val, Val)>, i: int)
    requires
        distinct_keys(s),
        0 <= i < s.len(),
    ensures
        distinct_keys(s.update(i, s.last()).drop_last()),
        pairs_map(s.update(i, s.last()).drop_last()) == pairs_map(s).remove(s[i].0),
{
    let k = s[i].0;
    let after = s.update(i, s.last()).drop_last();
    assert(distinct_keys(after)) by {
        assert forall|a: int, b: int| 0 <= a < b < after.len() implies after[a].0
            != after[b].0 by {
            if a == i {
                assert(s[b].0 != s[s.len() - 1].0);
            } else if b == i {
                assert(s[a].0 != s[s.len() - 1].0);
            } else {
                assert(s[a].0 != s[b].0);
            }
        }
    }
    assert forall|key: Val| #[trigger]
        pairs_map(after).contains_key(key) <==> pairs_map(s).remove(k).contains_key(key) by {
        lemma_pairs_map(after, key);
        lemma_pairs_map(s, key);
        if pairs_map(after).contains_key(key) {
            let a = choose|a: int| 0 <= a < after.len() && after[a].0 == key;
            if a == i {
                assert(s[s.len() - 1].0 == key);
                if i < s.len() - 1 {
                    assert(s[i].0 != s[s.len() - 1].0);
                }
            } else {
                assert(s[a].0 == key);
                if a < i {
                    assert(s[a].0 != s[i].0);
                } else {
                    assert(s[i].0 != s[a].0);
                }
            }
        }
        if pairs_map(s).remove(k).contains_key(key) {
            let a = choose|a: int| 0 <= a < s.len() && s[a].0 == key;
            if a == s.len() - 1 {
                assert(after[i].0 == key);
            } else {
                assert(after[a].0 == key);
            }
        }
    }
    assert forall|key: Val| #[trigger]
        pairs_map(after).contains_key(key) implies pairs_map(after)[key] == pairs_map(s).remove(
        k,
    )[key] by {
        lemma_pairs_map(after, key);
        lemma_pairs_map(s, key);
        let a = choose|a: int| 0 <= a < after.len() && after[a].0 == key;
        if a == i {
            assert(s[s.len() - 1].0 == key);
        } else {
            assert(s[a].0 == key);
        }
    }
    assert(pairs_map(after) =~= pairs_map(s).remove(k));
}

/// Inserting into a map of words inserts into the map of values.
pub proof fn lemma_val_map_insert(raw: Map<u64, u64>, k: u64, v: u64)
    ensures
        val_map(raw.insert(k, v)) == val_map(raw).insert(Val(k), Val(v)),
{
    assert(val_map(raw.insert(k, v)) =~= val_map(raw).insert(Val(k), Val(v)));
}

/// Removing from a map of words removes from the map of values.
pub proof fn lemma_val_map_remove(raw: Map<u64, u64>, k: u64)
    ensures
        val_map(raw.remove(k)) == val_map(raw).remove(Val(k)),
{
    assert(val_map(raw.remove(k)) =~= val_map(raw).remove(Val(k)));
}

/// A finite map of words stands for a map of values with as many entries.
pub proof fn lemma_val_map_len(raw: Map<u64, u64>)
    requires
        raw.dom().finite(),
    ensures
        val_map(raw).dom().finite(),
        val_map(raw).dom().len() == raw.dom().len(),
{
    let f = |k: u64| Val(k);
    assert forall|v: Val| raw.dom().map(f).contains(v) == val_map(raw).dom().contains(v) by {
        if val_map(raw).dom().contains(v) {
            assert(raw.dom().contains(v.0) && f(v.0) == v);
        }
    }
    assert(raw.dom().map(f) =~= val_map(raw).dom());
    vstd::set_lib::lemma_map_size(raw.dom(), val_map(raw).dom(), f);
}

/// What a map holds and how many entries it counts.
pub ghost struct MapModel {
    pub entries: Map<Val, Val>,
    pub len: nat,
}

impl MapModel {
    /// The count is the number of keys, and there are finitely many.
    pub open spec fn wf(self) -> bool {
        &&& self.entries.dom().finite()
        &&& self.len == self.entries.dom().len()
    }
}

/// The map after `key` was set to `value`.
pub open spec fn put_spec(m: MapModel, key: Val, value: Val) -> MapModel {
    MapModel {
        entries: m.entries.insert(key, value),
        len: if m.entries.contains_key(key) {
            m.len
        } else {
            m.len + 1
        },
    }
}

/// The value under `key`, or `nil`.
pub open spec fn lookup_spec(m: MapModel, key: Val) -> Val {
    if m.entries.contains_key(key) {
        m.entries[key]
    } else {
        Val(0)
    }
}

/// The map after `key` was removed.
pub open spec fn remove_spec(m: MapModel, key: Val) -> MapModel {
    MapModel {
        entries: m.entries.remove(key),
        len: if m.entries.contains_key(key) {
            (m.len - 1) as nat
        } else {
            m.len
        },
    }
}

/// A get after a put of the same key returns what was put.
pub proof fn lemma_put_get(m: MapModel, key: Val, value: Val)
    ensures
        lookup_spec(put_spec(m, key, value), key) == value,
{
}

/// A second put of a key overwrites the first and leaves the length as the
/// first left it.
pub proof fn lemma_put_put(m: MapModel, key: Val, first: Val, second: Val)
    ensures
        lookup_spec(put_spec(put_spec(m, key, first), key, second), key) == second,
        put_spec(put_spec(m, key, first), key, second).len == put_spec(m, key, first).len,
{
}

/// After a key was removed a get of it returns `nil`, and the map counts
/// one entry less if it held the key, and as many as before if it did not.
pub proof fn lemma_remove_get(m: MapModel, key: Val)
    requires
        m.wf(),
    ensures
        lookup_spec(remove_spec(m, key), key) == Val(0),
        m.entries.contains_key(key) ==> remove_spec(m, key).len == m.len - 1,
        !m.entries.contains_key(key) ==> remove_spec(m, key) == m,
{
    if !m.entries.contains_key(key) {
        assert(m.entries.remove(key) =~= m.entries);
    } else {
        lemma_changes_keep_count(m, key, Val(0));
    }
}

/// A put and a remove leave the count the number of keys.
pub proof fn lemma_changes_keep_count(m: MapModel, key: Val, value: Val)
    requires
        m.wf(),
    ensures
        put_spec(m, key, value).wf(),
        remove_spec(m, key).wf(),
        m.entries.contains_key(key) ==> m.len >= 1,
{
    broadcast use vstd::set::group_set_axioms;

    assert(m.entries.insert(key, value).dom() =~= m.entries.dom().insert(key));
    assert(m.entries.remove(key).dom() =~= m.entries.dom().remove(key));
}

/// A well-formed map counts its keys, and holds no more entries than an
/// integer word can count.
pub proof fn lemma_map_len(m: &ValMap)
    requires
        m.wf(),
    ensures
        m.as_model().wf(),
        m.spec_len() <= spec_map_limit(),
        m.spec_len() <= MAX_MAP_LEN,
{
    match m {
        ValMap::SmallMap { len, items } => {
            lemma_pairs_map(items@.take(*len as int), Val(0));
        },
        ValMap::HashMap(table) => {
            lemma_val_map_len(word_table_entries(*table));
        },
    }
}

impl ValMap {
    /// The map from value to value that this map stands for.
    pub open spec fn model(&self) -> Map<Val, Val> {
        match self {
            ValMap::SmallMap { len, items } => pairs_map(items@.take(*len as int)),
            ValMap::HashMap(table) => val_map(word_table_entries(*table)),
        }
    }

    /// The entries and their number.
    pub open spec fn as_model(&self) -> MapModel {
        MapModel { entries: self.model(), len: self.spec_len() }
    }

    /// The number of entries.
    pub open spec fn spec_len(&self) -> nat {
        match self {
            ValMap::SmallMap { len, items } => *len as nat,
            ValMap::HashMap(table) => word_table_entries(*table).dom().len(),
        }
    }

    /// Whether the map is in its small representation.
    pub open spec fn is_small(&self) -> bool {
        self is SmallMap
    }

    /// The invariant of a map: a small one has its entries, with distinct
    /// keys, at the front of its array and `(nil, nil)` in the unused slots.
    pub open spec fn wf(&self) -> bool {
        match self {
            ValMap::SmallMap { len, items } => {
                &&& *len <= SMALL_MAP_MAX
                &&& distinct_keys(items@.take(*len as int))
                &&& forall|i: int| *len <= i < SMALL_MAP_MAX ==> items@[i] == (Val(0), Val(0))
            },
            ValMap::HashMap(table) => {
                &&& word_table_entries(*table).dom().finite()
                &&& word_table_entries(*table).dom().len() <= spec_map_limit()
            },
        }
    }

    /// The empty map, in the small representation.
    pub fn new() -> (m: ValMap)
        ensures
            m.wf(),
            m.is_small(),
            m.model() == Map::<Val, Val>::empty(),
            m.spec_len() == 0,
    {
        ValMap::SmallMap { len: 0, items: [(Val::nil(), Val::nil());31] }
    }

    /// The place of `key` among the first `len` entries.
    fn position(items: &[(Val, Val); 31], len: usize, key: Val) -> (r: Option<usize>)
        requires
            len <= SMALL_MAP_MAX,
        ensures
            match r {
                Some(i) => i < len && items@[i as int].0 == key,
                None => forall|j: int| 0 <= j < len ==> items@[j].0 != key,
            },
    {
        let mut i: usize = 0;
        while i < len
            invariant
                i <= len <= SMALL_MAP_MAX,
                forall|j: int| 0 <= j < i ==> items@[j].0 != key,
            decreases len - i,
        {
            if items[i].0.0 == key.0 {
                return Some(i);
            }
            i += 1;
        }
        None
    }

    /// Maps `key` to `value` and returns the value that `key` mapped to
    /// before, or `nil`. A small map that is full moves to the hash
    /// representation when the key is new. A map that holds as many entries
    /// as a map can takes no new key.
    pub fn insert(&mut self, key: Val, value: Val) -> (old_value: Val)
        requires
            old(self).wf(),
            old(self).model().contains_key(key) || old(self).spec_len() < spec_map_limit(),
        ensures
            final(self).wf(),
            final(self).as_model() == put_spec(old(self).as_model(), key, value),
            old_value == lookup_spec(old(self).as_model(), key),
            final(self).model() == old(self).model().insert(key, value),
            old_value == (if old(self).model().contains_key(key) {
                old(self).model()[key]
            } else {
                Val(0)
            }),
            final(self).spec_len() == old(self).spec_len() + (if old(self).model().contains_key(
                key,
            ) {
                0nat
            } else {
                1nat
            }),
            final(self).is_small() <==> old(self).is_small() && (old(self).model().contains_key(
                key,
            ) || old(self).spec_len() < SMALL_MAP_MAX),
    {
        match self {
            ValMap::SmallMap { len, items } => {
                let n = *len;
                let ghost entries = items@.take(n as int);
                proof {
                    lemma_pairs_map(entries, key);
                }
                match Self::position(items, n, key) {
                    Some(i) => {
                        let old_value = items[i].1;
                        items[i] = (key, value);
                        proof {
                            assert(entries[i as int].0 == key);
                            lemma_pairs_map_update(entries, i as int, value);
                            assert(items@.take(n as int) =~= entries.update(
                                i as int,
                                (key, value),
                            ));
                        }
                        old_value
                    },
                    None => {
                        proof {
                            if pairs_map(entries).contains_key(key) {
                                let j = choose|j: int| 0 <= j < entries.len() && entries[j].0 == key;
                                assert(items@[j].0 == key);
                            }
                        }
                        if n < SMALL_MAP_MAX {
                            items[n] = (key, value);
                            *len = n + 1;
                            proof {
                                let after = items@.take(n + 1);
                                assert(after =~= entries.push((key, value)));
                                assert(after.drop_last() =~= entries);
                                assert(distinct_keys(after)) by {
                                    assert forall|a: int, b: int|
                                        0 <= a < b < after.len() implies after[a].0
                                        != after[b].0 by {
                                        if b < n {
                                            assert(entries[a].0 != entries[b].0);
                                        } else {
                                            assert(entries[a].0 != key);
                                        }
                                    }
                                }
                            }
                            Val::nil()
                        } else {
                            let mut table = word_table_new();
                            let mut i: usize = 0;
                            proof {
                                assert(val_map(word_table_entries(table)) =~= pairs_map(
                                    entries.take(0),
                                ));
                                lemma_pairs_map(entries.take(0), key);
                                assert(word_table_entries(table).dom() =~= Set::<u64>::empty());
                            }
                            while i < SMALL_MAP_MAX
                                invariant
                                    i <= SMALL_MAP_MAX,
                                    n == SMALL_MAP_MAX,
                                    entries == items@.take(n as int),
                                    distinct_keys(entries),
                                    word_table_entries(table).dom().finite(),
                                    word_table_entries(table).dom().len() == i,
                                    val_map(word_table_entries(table)) == pairs_map(
                                        entries.take(i as int),
                                    ),
                                decreases SMALL_MAP_MAX - i,
                            {
                                let (k, v) = items[i];
                                let ghost raw = word_table_entries(table);
                                proof {
                                    let prefix = entries.take(i as int);
                                    assert(distinct_keys(prefix)) by {
                                        assert forall|a: int, b: int|
                                            0 <= a < b < prefix.len() implies prefix[a].0
                                            != prefix[b].0 by {
                                            assert(entries[a].0 != entries[b].0);
                                        }
                                    }
                                    lemma_pairs_map(prefix, k);
                                    if pairs_map(prefix).contains_key(k) {
                                        let j = choose|j: int|
                                            0 <= j < prefix.len() && prefix[j].0 == k;
                                        assert(entries[j].0 != entries[i as int].0);
                                    }
                                    assert(!raw.contains_key(k.0)) by {
                                        if raw.contains_key(k.0) {
                                            assert(val_map(raw).contains_key(k));
                                        }
                                    }
                                }
                                let _ = word_table_insert(&mut table, k.0, v.0);
                                proof {
                                    lemma_val_map_insert(raw, k.0, v.0);
                                    assert(entries.take(i + 1).drop_last() =~= entries.take(
                                        i as int,
                                    ));
                                    assert(entries.take(i + 1).last() == (k, v));
                                }
                                i += 1;
                            }
                            let ghost raw = word_table_entries(table);
                            proof {
                                assert(entries.take(SMALL_MAP_MAX as int) =~= entries);
                                assert(!raw.contains_key(key.0)) by {
                                    if raw.contains_key(key.0) {
                                        assert(val_map(raw).contains_key(key));
                                    }
                                }
                            }
                            let _ = word_table_insert(&mut table, key.0, value.0);
                            proof {
                                lemma_val_map_insert(raw, key.0, value.0);
                            }
                            *self = ValMap::HashMap(table);
                            Val::nil()
                        }
                    },
                }
            },
            ValMap::HashMap(table) => {
                let ghost raw = word_table_entries(*table);
                proof {
                    lemma_val_map_insert(raw, key.0, value.0);
                }
                if word_table_len(table) < map_limit() {
                    match word_table_insert(table, key.0, value.0) {
                        Some(w) => Val(w),
                        None => Val::nil(),
                    }
                } else {
                    // The table is full, so the key is one of its own: its
                    // entry makes room for the new one.
                    let prior = word_table_remove(table, key.0);
                    proof {
                        assert(val_map(raw).contains_key(key));
                        assert(raw.remove(key.0).dom() =~= raw.dom().remove(key.0));
                    }
                    let _ = word_table_insert(table, key.0, value.0);
                    proof {
                        assert(raw.remove(key.0).insert(key.0, value.0) =~= raw.insert(
                            key.0,
                            value.0,
                        ));
                    }
                    match prior {
                        Some(w) => Val(w),
                        None => Val::nil(),
                    }
                }
            },
        }
    }

    /// The value that `key` maps to, or `nil`.
    pub fn get(&self, key: Val) -> (value: Val)
        requires
            self.wf(),
        ensures
            value == lookup_spec(self.as_model(), key),
            value == (if self.model().contains_key(key) {
                self.model()[key]
            } else {
                Val(0)
            }),
    {
        match self {
            ValMap::SmallMap { len, items } => {
                proof {
                    lemma_pairs_map(items@.take(*len as int), key);
                }
                match Self::position(items, *len, key) {
                    Some(i) => {
                        assert(items@.take(*len as int)[i as int].0 == key);
                        items[i].1
                    },
                    None => {
                        proof {
                            let entries = items@.take(*len as int);
                            if pairs_map(entries).contains_key(key) {
                                let j = choose|j: int| 0 <= j < entries.len() && entries[j].0 == key;
                                assert(items@[j].0 == key);
                            }
                        }
                        Val::nil()
                    },
                }
            },
            ValMap::HashMap(table) => {
                match word_table_get(table, key.0) {
                    Some(w) => Val(w),
                    None => Val::nil(),
                }
            },
        }
    }

    /// Whether `key` is one of the map's keys.
    pub fn has_key(&self, key: Val) -> (b: bool)
        requires
            self.wf(),
        ensures
            b == self.model().contains_key(key),
    {
        match self {
            ValMap::SmallMap { len, items } => {
                proof {
                    lemma_pairs_map(items@.take(*len as int), key);
                }
                match Self::position(items, *len, key) {
                    Some(i) => {
                        assert(items@.take(*len as int)[i as int].0 == key);
                        true
                    },
                    None => {
                        proof {
                            let entries = items@.take(*len as int);
                            if pairs_map(entries).contains_key(key) {
                                let j = choose|j: int| 0 <= j < entries.len() && entries[j].0 == key;
                                assert(items@[j].0 == key);
                            }
                        }
                        false
                    },
                }
            },
            ValMap::HashMap(table) => {
                match word_table_get(table, key.0) {
                    Some(_) => true,
                    None => false,
                }
            },
        }
    }

    /// Takes `key` out of the map and returns the value that it mapped to,
    /// or `nil`. The representation stays what it was.
    pub fn remove(&mut self, key: Val) -> (old_value: Val)
        requires
            old(self).wf(),
        ensures
            final(self).wf(),
            final(self).as_model() == remove_spec(old(self).as_model(), key),
            old_value == lookup_spec(old(self).as_model(), key),
            final(self).model() == old(self).model().remove(key),
            old_value == (if old(self).model().contains_key(key) {
                old(self).model()[key]
            } else {
                Val(0)
            }),
            final(self).spec_len() == old(self).spec_len() - (if old(self).model().contains_key(
                key,
            ) {
                1int
            } else {
                0int
            }),
            final(self).is_small() == old(self).is_small(),
    {
        match self {
            ValMap::SmallMap { len, items } => {
                let n = *len;
                let ghost entries = items@.take(n as int);
                proof {
                    lemma_pairs_map(entries, key);
                }
                match Self::position(items, n, key) {
                    Some(i) => {
                        let deleted = items[i].1;
                        let last = items[n - 1];
                        items[i] = last;
                        items[n - 1] = (Val::nil(), Val::nil());
                        *len = n - 1;
                        proof {
                            assert(entries[i as int].0 == key);
                            lemma_pairs_map_remove(entries, i as int);
                            assert(items@.take(n - 1) =~= entries.update(
                                i as int,
                                entries.last(),
                            ).drop_last());
                        }
                        deleted
                    },
                    None => {
                        proof {
                            if pairs_map(entries).contains_key(key) {
                                let j = choose|j: int| 0 <= j < entries.len() && entries[j].0 == key;
                                assert(items@[j].0 == key);
                            }
                            assert(pairs_map(entries).remove(key) =~= pairs_map(entries));
                        }
                        Val::nil()
                    },
                }
            },
            ValMap::HashMap(table) => {
                let ghost raw = word_table_entries(*table);
                proof {
                    lemma_val_map_remove(raw, key.0);
                }
                match word_table_remove(table, key.0) {
                    Some(w) => Val(w),
                    None => Val::nil(),
                }
            },
        }
    }

    /// The number of entries.
    pub fn len(&self) -> (n: usize)
        requires
            self.wf(),
        ensures
            n == self.spec_len(),
    {
        match self {
            ValMap::SmallMap { len, .. } => *len,
            ValMap::HashMap(table) => word_table_len(table),
        }
    }

    /// The entries of the map, each once: those of a small map in the order
    /// in which they lie in its array, those of a hash table in no order
    /// that could be named.
    pub fn iter(&self) -> (r: Vec<(Val, Val)>)
        requires
            self.wf(),
        ensures
            r@.len() == self.spec_len(),
            forall|i: int|
                0 <= i < r@.len() ==> self.model().contains_pair((#[trigger] r@[i]).0, r@[i].1),
            distinct_keys(r@),
            self matches ValMap::SmallMap { len, items } ==> r@ == items@.take(len as int),
    {
        match self {
            ValMap::SmallMap { len, items } => {
                let ghost entries = items@.take(*len as int);
                let mut out: Vec<(Val, Val)> = Vec::new();
                let mut i: usize = 0;
                while i < *len
                    invariant
                        i <= *len <= SMALL_MAP_MAX,
                        entries == items@.take(*len as int),
                        out@ == entries.take(i as int),
                    decreases *len - i,
                {
                    out.push(items[i]);
                    assert(out@ =~= entries.take(i + 1));
                    i += 1;
                }
                proof {
                    assert(entries.take(*len as int) =~= entries);
                    assert forall|k: int| 0 <= k < out@.len() implies self.model().contains_pair(
                        (#[trigger] out@[k]).0,
                        out@[k].1,
                    ) by {
                        lemma_pairs_map(entries, out@[k].0);
                    }
                }
                out
            },
            ValMap::HashMap(table) => {
                let pairs = word_table_pairs(table);
                let mut out: Vec<(Val, Val)> = Vec::new();
                let mut i: usize = 0;
                while i < pairs.len()
                    invariant
                        i <= pairs.len(),
                        out@.len() == i,
                        forall|k: int|
                            0 <= k < i ==> (#[trigger] out@[k]) == (
                                Val(pairs@[k].0),
                                Val(pairs@[k].1),
                            ),
                    decreases pairs.len() - i,
                {
                    let (k, v) = pairs[i];
                    out.push((Val(k), Val(v)));
                    i += 1;
                }
                proof {
                    assert forall|a: int, b: int| 0 <= a < b < out@.len() implies out@[a].0
                        != out@[b].0 by {
                        assert(pairs@[a].0 != pairs@[b].0);
                    }
                    assert forall|k: int| 0 <= k < out@.len() implies self.model().contains_pair(
                        (#[trigger] out@[k]).0,
                        out@[k].1,
                    ) by {
                        assert(word_table_entries(*table).contains_pair(
                            pairs@[k].0,
                            pairs@[k].1,
                        ));
                    }
                }
                out
            },
        }
    }

    /// Empties the map; it is small again.
    pub fn clear(&mut self)
        ensures
            final(self).wf(),
            final(self).is_small(),
            final(self).model() == Map::<Val, Val>::empty(),
            final(self).spec_len() == 0,
    {
        *self = ValMap::new();
    }
}

} // verus!
