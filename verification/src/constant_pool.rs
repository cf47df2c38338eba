//! The per-chunk constant pool: a mapping from (type id, local index) to a
//! previously decoded value, populated from checkpoint records found while
//! scanning the chunk body.  A later checkpoint supersedes an earlier one
//! for the same key; a lookup of an absent key is not an error.

use vstd::prelude::*;
use crate::value::{view_of, ValueDescriptor, ValueView};

verus! {

struct PoolEntry {
    class_id: i64,
    index: i64,
    value: ValueDescriptor,
}

/// The mapping a sequence of entries denotes: each keyed by (type id, local
/// index), a later entry superseding an earlier one with the same key.
spec fn pool_entries_map(s: Seq<PoolEntry>) -> Map<(int, int), ValueDescriptor>
    decreases s.len(),
{
    if s.len() == 0 {
        Map::empty()
    } else {
        pool_entries_map(s.drop_last()).insert(
            (s.last().class_id as int, s.last().index as int),
            s.last().value,
        )
    }
}

/// The per-chunk constant pool; lookups of absent keys yield `None`, never
/// an error, since pools may be legitimately partial.
pub struct ConstantPool {
    entries: Vec<PoolEntry>,
}

impl View for ConstantPool {
    type V = Map<(int, int), ValueDescriptor>;

    closed spec fn view(&self) -> Map<(int, int), ValueDescriptor> {
        pool_entries_map(self.entries@)
    }
}

impl ConstantPool {
    pub fn new() -> (p: Self)
        ensures
            p@ == Map::<(int, int), ValueDescriptor>::empty(),
    {
        ConstantPool { entries: Vec::new() }
    }

    /// Registers a value under (type id, local index), superseding any prior
    /// entry with the same key: later checkpoints win.
    pub fn insert(&mut self, class_id: i64, index: i64, value: ValueDescriptor)
        ensures
            final(self)@ == old(self)@.insert((class_id as int, index as int), value),
    {
        self.entries.push(PoolEntry { class_id, index, value });
        proof {
            assert(self.entries@.drop_last() =~= old(self).entries@);
        }
    }

    /// Looks a value up by (type id, local index); `None` for an absent key.
    pub fn get(&self, class_id: i64, constant_index: i64) -> (r: Option<&ValueDescriptor>)
        ensures
            match r {
                Some(v) => self@.contains_key((class_id as int, constant_index as int)) && *v
                    == self@[(class_id as int, constant_index as int)],
                None => !self@.contains_key((class_id as int, constant_index as int)),
            },
    {
        let n = self.entries.len();
        let mut j: usize = n;
        while j > 0
            invariant
                j <= n,
                n == self.entries@.len(),
                forall|k: int|
                    j <= k < n ==> !(self.entries@[k].class_id == class_id
                        && self.entries@[k].index == constant_index),
            decreases j,
        {
            j = j - 1;
            if self.entries[j].class_id == class_id && self.entries[j].index == constant_index {
                proof {
                    lemma_pool_map_found(
                        self.entries@,
                        j as int,
                        (class_id as int, constant_index as int),
                    );
                }
                return Some(&self.entries[j].value);
            }
        }
        proof {
            lemma_pool_map_absent(self.entries@, (class_id as int, constant_index as int));
        }
        None
    }
}

proof fn lemma_pool_map_found(s: Seq<PoolEntry>, j: int, key: (int, int))
    requires
        0 <= j < s.len(),
        (s[j].class_id as int, s[j].index as int) == key,
        forall|k: int| j < k < s.len() ==> (s[k].class_id as int, s[k].index as int) != key,
    ensures
        pool_entries_map(s).contains_key(key),
        pool_entries_map(s)[key] == s[j].value,
    decreases s.len(),
{
    if j == s.len() - 1 {
    } else {
        assert(s.drop_last()[j] == s[j]);
        lemma_pool_map_found(s.drop_last(), j, key);
    }
}

proof fn lemma_pool_map_absent(s: Seq<PoolEntry>, key: (int, int))
    requires
        forall|k: int| 0 <= k < s.len() ==> (s[k].class_id as int, s[k].index as int) != key,
    ensures
        !pool_entries_map(s).contains_key(key),
    decreases s.len(),
{
    if s.len() > 0 {
        lemma_pool_map_absent(s.drop_last(), key);
    }
}

/// The views of everything a pool holds.
pub open spec fn cpool_views(m: Map<(int, int), ValueDescriptor>) -> Map<(int, int), ValueView> {
    m.map_values(|v: ValueDescriptor| view_of(v))
}

/// Registering one value moves its view into the pool's views.
pub proof fn lemma_cpool_views_insert(
    m: Map<(int, int), ValueDescriptor>,
    key: (int, int),
    v: ValueDescriptor,
)
    ensures
        cpool_views(m.insert(key, v)) == cpool_views(m).insert(key, view_of(v)),
{
    assert(cpool_views(m.insert(key, v)) =~= cpool_views(m).insert(key, view_of(v)));
}

/// What a checkpoint record contributes: its (key, value) pairs folded over
/// a pool state in order, a later pair superseding an earlier one.
pub open spec fn apply_checkpoint(
    m: Map<(int, int), ValueDescriptor>,
    entries: Seq<((int, int), ValueDescriptor)>,
) -> Map<(int, int), ValueDescriptor>
    decreases entries.len(),
{
    if entries.len() == 0 {
        m
    } else {
        apply_checkpoint(m, entries.drop_last()).insert(
            entries.last().0,
            entries.last().1,
        )
    }
}

/// The value the last entry of `entries` with key `key` carries, if any.
pub open spec fn checkpoint_value(
    entries: Seq<((int, int), ValueDescriptor)>,
    key: (int, int),
) -> Option<ValueDescriptor>
    decreases entries.len(),
{
    if entries.len() == 0 {
        None
    } else if entries.last().0 == key {
        Some(entries.last().1)
    } else {
        checkpoint_value(entries.drop_last(), key)
    }
}

/// Folding one checkpoint over a pool leaves, at each key, the checkpoint's
/// last value for that key where it has one and the prior value otherwise;
/// the domain is the union.
pub proof fn lemma_apply_checkpoint(
    m: Map<(int, int), ValueDescriptor>,
    entries: Seq<((int, int), ValueDescriptor)>,
    key: (int, int),
)
    ensures
        apply_checkpoint(m, entries).contains_key(key) <==> (m.contains_key(key)
            || checkpoint_value(entries, key) is Some),
        checkpoint_value(entries, key) matches Some(v) ==> apply_checkpoint(m, entries)[key] == v,
        checkpoint_value(entries, key) is None && m.contains_key(key) ==> apply_checkpoint(
            m,
            entries,
        )[key] == m[key],
    decreases entries.len(),
{
    if entries.len() > 0 {
        lemma_apply_checkpoint(m, entries.drop_last(), key);
    }
}

/// Two checkpoint records in body order, with possibly overlapping keys:
/// for every shared key the later checkpoint's value stands; every other key
/// keeps the value the earlier checkpoint gave it; and the pool's domain is
/// the union of both checkpoints' keys and whatever was there before.
pub proof fn lemma_later_checkpoint_wins(
    m: Map<(int, int), ValueDescriptor>,
    first: Seq<((int, int), ValueDescriptor)>,
    second: Seq<((int, int), ValueDescriptor)>,
    key: (int, int),
)
    ensures
        ({
            let after = apply_checkpoint(apply_checkpoint(m, first), second);
            &&& after.contains_key(key) <==> (m.contains_key(key) || checkpoint_value(first, key)
                is Some || checkpoint_value(second, key) is Some)
            &&& (checkpoint_value(second, key) matches Some(v) ==> after[key] == v)
            &&& (checkpoint_value(second, key) is None && checkpoint_value(first, key) is Some
                ==> after[key] == checkpoint_value(first, key)->Some_0)
            &&& checkpoint_value(second, key) is None && checkpoint_value(first, key) is None
                && m.contains_key(key) ==> after[key] == m[key]
        }),
{
    lemma_apply_checkpoint(m, first, key);
    lemma_apply_checkpoint(apply_checkpoint(m, first), second, key);
}

} // verus!
