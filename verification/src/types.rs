//! The self-describing metadata model: type and field descriptors, and the
//! per-chunk pool of type descriptors keyed by type id.
//!
//! Field descriptors carry only the referenced type id, never an embedded
//! descriptor, so a type whose field references its own id is representable
//! without any recursion.

use vstd::prelude::*;
use crate::stream::StringValue;

verus! {

/// An advisory name/value annotation on a type or a field.
pub struct Annotation {
    pub name: Vec<u8>,
    pub value: StringValue,
}

/// One field of a type: its name, the id of its type, whether the value is
/// an ordered sequence of that type, and whether the value is a
/// constant-pool index rather than an inline value.
pub struct FieldDescriptor {
    pub name: Vec<u8>,
    pub class_id: i64,
    pub is_array: bool,
    pub is_constant_pool_reference: bool,
    pub annotations: Vec<Annotation>,
}

/// One record type: a chunk-scoped id, a name, its fields in declaration
/// order, and annotations.
pub struct TypeDescriptor {
    pub id: i64,
    pub name: Vec<u8>,
    pub fields: Vec<FieldDescriptor>,
    pub annotations: Vec<Annotation>,
}

/// The decode-relevant view of a field: its name, referenced type id, and
/// the array and constant-pool-reference flags.
pub struct FieldView {
    pub name: Seq<u8>,
    pub class_id: i64,
    pub is_array: bool,
    pub is_constant_pool_reference: bool,
}

/// The decode-relevant view of a type descriptor.  Annotations are advisory
/// and play no part in decoding, so they are not part of it.
pub struct TypeView {
    pub id: i64,
    pub name: Seq<u8>,
    pub fields: Seq<FieldView>,
}

pub open spec fn field_view(f: FieldDescriptor) -> FieldView {
    FieldView {
        name: f.name@,
        class_id: f.class_id,
        is_array: f.is_array,
        is_constant_pool_reference: f.is_constant_pool_reference,
    }
}

pub open spec fn fields_view(fs: Seq<FieldDescriptor>) -> Seq<FieldView> {
    Seq::new(fs.len(), |i: int| field_view(fs[i]))
}

pub open spec fn type_view(td: TypeDescriptor) -> TypeView {
    TypeView { id: td.id, name: td.name@, fields: fields_view(td.fields@) }
}

/// The decode-relevant views of a whole pool.
pub open spec fn pool_views(m: Map<int, TypeDescriptor>) -> Map<int, TypeView> {
    m.map_values(|td: TypeDescriptor| type_view(td))
}

/// Registering one descriptor moves its view into the pool's views.
pub proof fn lemma_pool_views_insert(m: Map<int, TypeDescriptor>, td: TypeDescriptor)
    ensures
        pool_views(m.insert(td.id as int, td)) == pool_views(m).insert(
            td.id as int,
            type_view(td),
        ),
{
    assert(pool_views(m.insert(td.id as int, td)) =~= pool_views(m).insert(
        td.id as int,
        type_view(td),
    ));
}

/// The mapping a sequence of descriptors denotes: each keyed by its id, a
/// later entry superseding an earlier one with the same id.
pub open spec fn descriptors_map(s: Seq<TypeDescriptor>) -> Map<int, TypeDescriptor>
    decreases s.len(),
{
    if s.len() == 0 {
        Map::empty()
    } else {
        descriptors_map(s.drop_last()).insert(s.last().id as int, s.last())
    }
}

/// The per-chunk table of type descriptors, keyed by type id; immutable
/// after metadata construction.
pub struct TypePool {
    entries: Vec<TypeDescriptor>,
}

impl View for TypePool {
    type V = Map<int, TypeDescriptor>;

    closed spec fn view(&self) -> Map<int, TypeDescriptor> {
        descriptors_map(self.entries@)
    }
}

impl TypePool {
    pub fn new() -> (p: Self)
        ensures
            p@ == Map::<int, TypeDescriptor>::empty(),
            p.type_count_spec() == 0,
    {
        TypePool { entries: Vec::new() }
    }

    /// How many descriptors were registered, duplicates included.
    pub closed spec fn type_count_spec(&self) -> nat {
        self.entries@.len()
    }

    /// Registers a descriptor under its id, superseding any earlier one with
    /// the same id.
    pub fn insert(&mut self, td: TypeDescriptor)
        ensures
            final(self)@ == old(self)@.insert(td.id as int, td),
            final(self).type_count_spec() == old(self).type_count_spec() + 1,
    {
        self.entries.push(td);
        proof {
            assert(self.entries@.drop_last() =~= old(self).entries@);
        }
    }

    pub fn type_count(&self) -> (n: usize)
        ensures
            self@.dom().finite(),
            self@.dom().len() <= n,
    {
        proof {
            lemma_descriptors_map_len(self.entries@);
        }
        self.entries.len()
    }

    /// The nesting budget value decoding runs under: one more than the
    /// number of registered descriptors, since any chain of inline field
    /// types longer than that must repeat a type.
    pub open spec fn decode_fuel(&self) -> nat {
        spec_decode_fuel(self.type_count_spec())
    }

    pub(crate) fn fuel_limit(&self) -> (n: usize)
        ensures
            n as nat == self.decode_fuel(),
            n >= 1,
    {
        let c = self.entries.len();
        if c == usize::MAX {
            c
        } else {
            c + 1
        }
    }

    /// Looks a descriptor up by type id.
    pub fn get(&self, id: i64) -> (r: Option<&TypeDescriptor>)
        ensures
            match r {
                Some(td) => self@.contains_key(id as int) && *td == self@[id as int],
                None => !self@.contains_key(id as int),
            },
    {
        let n = self.entries.len();
        let mut j: usize = n;
        while j > 0
            invariant
                j <= n,
                n == self.entries@.len(),
                forall|k: int| j <= k < n ==> self.entries@[k].id != id,
            decreases j,
        {
            j = j - 1;
            if self.entries[j].id == id {
                proof {
                    lemma_descriptors_map_found(self.entries@, j as int, id as int);
                }
                return Some(&self.entries[j]);
            }
        }
        proof {
            lemma_descriptors_map_absent(self.entries@, id as int);
        }
        None
    }
}

proof fn lemma_descriptors_map_len(s: Seq<TypeDescriptor>)
    ensures
        descriptors_map(s).dom().finite(),
        descriptors_map(s).dom().len() <= s.len(),
    decreases s.len(),
{
    if s.len() > 0 {
        lemma_descriptors_map_len(s.drop_last());
    }
}

proof fn lemma_descriptors_map_found(s: Seq<TypeDescriptor>, j: int, id: int)
    requires
        0 <= j < s.len(),
        s[j].id == id,
        forall|k: int| j < k < s.len() ==> s[k].id != id,
    ensures
        descriptors_map(s).contains_key(id),
        descriptors_map(s)[id] == s[j],
    decreases s.len(),
{
    if j == s.len() - 1 {
    } else {
        assert(s.drop_last()[j] == s[j]);
        lemma_descriptors_map_found(s.drop_last(), j, id);
    }
}

proof fn lemma_descriptors_map_absent(s: Seq<TypeDescriptor>, id: int)
    requires
        forall|k: int| 0 <= k < s.len() ==> s[k].id != id,
    ensures
        !descriptors_map(s).contains_key(id),
    decreases s.len(),
{
    if s.len() > 0 {
        lemma_descriptors_map_absent(s.drop_last(), id);
    }
}

/// The nesting budget a pool of `n` registered descriptors gives value
/// decoding.
pub open spec fn spec_decode_fuel(n: nat) -> nat {
    if n < usize::MAX {
        n + 1
    } else {
        usize::MAX as nat
    }
}

/// A type tree may contain a field whose type id equals its own declaring
/// type id.  Such a descriptor still registers and is reachable via that id,
/// with the self-referential field intact: the table holds ids, not embedded
/// descriptors, so nothing expands.
pub proof fn lemma_self_referential_type_reachable(pool: TypePool, td: TypeDescriptor, f: int)
    requires
        0 <= f < td.fields@.len(),
        td.fields@[f].class_id == td.id,
    ensures
        ({
            let after = pool@.insert(td.id as int, td);
            after.contains_key(td.id as int) && after[td.id as int] == td
                && after[td.id as int].fields@[f].class_id == after[td.id as int].id
        }),
{
}

} // verus!
