//! The tagged, lazily-resolvable value representation produced when decoding
//! an event, and the decoder from bytes to values.
//!
//! A constant-pool reference stays a reference when decoded: nothing
//! dereferences nested references while values are built, so cyclic value
//! graphs are representable and resolution is an explicit, single step.

use vstd::prelude::*;
use crate::stream::{spec_be, spec_read_i16, spec_read_i32, spec_read_i64, spec_read_string,
    ByteReader, HeapByteStream, StringValue};
use crate::types::{field_view, fields_view, pool_views, type_view, FieldView, TypeView};
use crate::varint::spec_varint;
use vstd::string::StringSliceAdditionalSpecFns;
use crate::types::TypePool;
use crate::metadata::Metadata;
use crate::{Error, Result};

verus! {

broadcast use vstd::std_specs::vec::axiom_vec_index_decreases;

/// One named field of a decoded struct value; insertion order is field
/// declaration order.
#[derive(Debug, PartialEq)]
pub struct StructField {
    pub name: Vec<u8>,
    pub value: ValueDescriptor,
}

/// A decoded value: a closed sum over scalar kinds, strings, arrays,
/// structs, and unresolved constant-pool references.
///
/// Floating-point fields are carried as their raw IEEE 754 bit patterns;
/// interpreting them as numbers is a caller concern.
#[derive(Debug, PartialEq)]
pub enum ValueDescriptor {
    Boolean(bool),
    Int8(i8),
    Char(u16),
    Int16(i16),
    Int32(i32),
    Int64(i64),
    Float32Bits(u32),
    Float64Bits(u64),
    String(StringValue),
    Array(Vec<ValueDescriptor>),
    Struct(Vec<StructField>),
    ConstantPool { class_id: i64, constant_index: i64 },
}

/// The mathematical shape of a decoded value: sequences and maps in place
/// of vectors, so that contracts can state what a decode yields.
pub enum ValueView {
    Boolean(bool),
    Int8(i8),
    Char(u16),
    Int16(i16),
    Int32(i32),
    Int64(i64),
    Float32Bits(u32),
    Float64Bits(u64),
    String(Option<Seq<u8>>),
    Array(Seq<ValueView>),
    Struct(Seq<(Seq<u8>, ValueView)>),
    ConstantPool(i64, i64),
}

/// The view a decoded value denotes.
pub open spec fn view_of(v: ValueDescriptor) -> ValueView
    decreases v,
{
    match v {
        ValueDescriptor::Boolean(b) => ValueView::Boolean(b),
        ValueDescriptor::Int8(x) => ValueView::Int8(x),
        ValueDescriptor::Char(x) => ValueView::Char(x),
        ValueDescriptor::Int16(x) => ValueView::Int16(x),
        ValueDescriptor::Int32(x) => ValueView::Int32(x),
        ValueDescriptor::Int64(x) => ValueView::Int64(x),
        ValueDescriptor::Float32Bits(x) => ValueView::Float32Bits(x),
        ValueDescriptor::Float64Bits(x) => ValueView::Float64Bits(x),
        ValueDescriptor::String(sv) => ValueView::String(sv@),
        // The guards keep the closures total; an out-of-range index is
        // never observed through a sequence built with this length.
        ValueDescriptor::Array(a) => ValueView::Array(
            Seq::new(
                a@.len(),
                |i: int|
                    if 0 <= i < a@.len() {
                        view_of(a[i])
                    } else {
                        ValueView::Boolean(false)
                    },
            ),
        ),
        ValueDescriptor::Struct(fs) => ValueView::Struct(
            Seq::new(
                fs@.len(),
                |i: int|
                    if 0 <= i < fs@.len() {
                        (fs[i].name@, view_of(fs[i].value))
                    } else {
                        (Seq::<u8>::empty(), ValueView::Boolean(false))
                    },
            ),
        ),
        ValueDescriptor::ConstantPool { class_id, constant_index } => ValueView::ConstantPool(
            class_id,
            constant_index,
        ),
    }
}

/// The views of an array value's elements.
pub open spec fn elems_views(es: Seq<ValueDescriptor>) -> Seq<ValueView> {
    Seq::new(es.len(), |i: int| view_of(es[i]))
}

/// The views of a struct value's fields, names kept in order.
pub open spec fn struct_fields_views(fs: Seq<StructField>) -> Seq<(Seq<u8>, ValueView)> {
    Seq::new(fs.len(), |i: int| (fs[i].name@, view_of(fs[i].value)))
}

/// The first field of `fields` named `name`, in declaration order.
pub open spec fn spec_field_lookup(fields: Seq<StructField>, name: Seq<u8>) -> Option<
    ValueDescriptor,
>
    decreases fields.len(),
{
    if fields.len() == 0 {
        None
    } else if fields[0].name@ == name {
        Some(fields[0].value)
    } else {
        spec_field_lookup(fields.skip(1), name)
    }
}

/// Compares a stored name against UTF-8 bytes.
pub fn bytes_eq(a: &Vec<u8>, b: &[u8]) -> (r: bool)
    ensures
        r == (a@ == b@),
{
    if a.len() != b.len() {
        return false;
    }
    let n = a.len();
    let mut i: usize = 0;
    while i < n
        invariant
            i <= n,
            n == a@.len() == b@.len(),
            forall|k: int| 0 <= k < i ==> a@[k] == b@[k],
        decreases n - i,
    {
        if a[i] != b[i] {
            return false;
        }
        i = i + 1;
    }
    proof {
        assert(a@ =~= b@);
    }
    true
}

/// Finds the first field named `name` in declaration order.
pub fn find_field<'a>(fields: &'a Vec<StructField>, name: &[u8]) -> (r: Option<
    &'a ValueDescriptor,
>)
    ensures
        match r {
            Some(v) => spec_field_lookup(fields@, name@) == Some(*v),
            None => spec_field_lookup(fields@, name@) is None,
        },
{
    let n = fields.len();
    let mut i: usize = 0;
    proof {
        assert(fields@.skip(0) =~= fields@);
    }
    while i < n
        invariant
            i <= n,
            n == fields@.len(),
            spec_field_lookup(fields@, name@) == spec_field_lookup(fields@.skip(i as int), name@),
        decreases n - i,
    {
        proof {
            assert(fields@.skip(i as int)[0] == fields@[i as int]);
            assert(fields@.skip(i as int).skip(1) =~= fields@.skip(i + 1));
        }
        if bytes_eq(&fields[i].name, name) {
            return Some(&fields[i].value);
        }
        i = i + 1;
    }
    proof {
        assert(fields@.skip(n as int).len() == 0);
    }
    None
}

impl ValueDescriptor {
    /// Decodes one value of type `class_id` from the stream, using the
    /// chunk's metadata for field layout and its selected integer encoding.
    pub fn try_new(stream: &mut HeapByteStream, class_id: i64, metadata: &Metadata) -> (r: Result<
        ValueDescriptor,
    >)
        ensures
            final(stream).data@ == old(stream).data@,
            r is Ok ==> old(stream).pos < final(stream).pos <= final(stream).data@.len(),
            match spec_value_end(
                old(stream).data@,
                old(stream).pos as int,
                class_id,
                pool_views(metadata.type_pool@),
                metadata.reader,
                metadata.type_pool.decode_fuel(),
            ) {
                Ok(vp) => r is Ok && view_of(r->Ok_0) == vp.0 && final(stream).pos == vp.1,
                Err(e) => r == Result::<ValueDescriptor>::Err(e),
            },
            r is Ok && metadata.type_pool@[class_id as int].fields@.len() > 0 ==> struct_shape(
                r->Ok_0,
                metadata.type_pool@[class_id as int],
            ),
    {
        let fuel = metadata.type_pool.fuel_limit();
        decode_value(stream, class_id, &metadata.type_pool, &metadata.reader, fuel)
    }
}

/// The shape a decoded struct owes to its descriptor: one value per field in
/// declaration order, under the field's name; a constant-pool-reference
/// field holds a reference keyed by the field's type; an array field holds
/// an array.
pub open spec fn struct_shape(v: ValueDescriptor, td: crate::types::TypeDescriptor) -> bool {
    &&& v is Struct
    &&& v->Struct_0@.len() == td.fields@.len()
    &&& forall|i: int|
        0 <= i < td.fields@.len() ==> (#[trigger] v->Struct_0@[i]).name@ == td.fields@[i].name@
    &&& forall|i: int|
        0 <= i < td.fields@.len() && td.fields@[i].is_constant_pool_reference ==> ((
        #[trigger] v->Struct_0@[i]).value matches ValueDescriptor::ConstantPool {
            class_id: cid,
            ..
        } && cid == td.fields@[i].class_id)
    &&& forall|i: int|
        0 <= i < td.fields@.len() && !td.fields@[i].is_constant_pool_reference
            && td.fields@[i].is_array ==> (#[trigger] v->Struct_0@[i]).value is Array
}

pub(crate) fn clone_bytes(v: &Vec<u8>) -> (r: Vec<u8>)
    ensures
        r@ == v@,
{
    let n = v.len();
    let mut out: Vec<u8> = Vec::new();
    let mut i: usize = 0;
    while i < n
        invariant
            i <= n,
            n == v@.len(),
            out@ == v@.subrange(0, i as int),
        decreases n - i,
    {
        out.push(v[i]);
        i = i + 1;
        proof {
            assert(out@ =~= v@.subrange(0, i as int));
        }
    }
    proof {
        assert(v@.subrange(0, n as int) =~= v@);
    }
    out
}

/// Decodes one value, recursing for structured and array fields.  `fuel`
/// bounds inline nesting: a chain of inline (non-reference) field types
/// longer than the type count must repeat a type, which only corrupt
/// metadata produces, and fails rather than recursing without bound.
fn decode_value(
    s: &mut HeapByteStream,
    class_id: i64,
    pool: &TypePool,
    mode: &ByteReader,
    fuel: usize,
) -> (r: Result<ValueDescriptor>)
    ensures
        final(s).data@ == old(s).data@,
        r is Ok ==> old(s).pos < final(s).pos <= final(s).data@.len(),
        match spec_value_end(
            old(s).data@,
            old(s).pos as int,
            class_id,
            pool_views(pool@),
            *mode,
            fuel as nat,
        ) {
            Ok(vp) => r is Ok && view_of(r->Ok_0) == vp.0 && final(s).pos == vp.1,
            Err(e) => r == Result::<ValueDescriptor>::Err(e),
        },
        r is Ok && pool@[class_id as int].fields@.len() > 0 ==> struct_shape(
            r->Ok_0,
            pool@[class_id as int],
        ),
    decreases fuel,
{
    let ghost data = s.data@;
    let ghost pos0 = s.pos as int;
    let ghost vpool = pool_views(pool@);
    let td = match pool.get(class_id) {
        Some(td) => td,
        None => {
            return Err(Error::ClassNotFound(class_id));
        },
    };
    proof {
        assert(vpool[class_id as int] == type_view(*td));
    }
    if fuel == 0 {
        return Err(Error::InvalidFormat);
    }
    if td.fields.len() == 0 {
        proof {
            assert(fields_view(td.fields@).len() == 0);
        }
        let r = decode_primitive(s, &td.name, mode);
        proof {
            match spec_primitive(td.name@, *mode, data, pos0) {
                PrimitiveOutcome::Value(v, p) => {
                    assert(r is Ok ==> view_of(r->Ok_0) == view_of(v));
                },
                _ => {},
            }
        }
        return r;
    }
    let nf = td.fields.len();
    let ghost fvs = fields_view(td.fields@);
    let ghost whole = spec_fields_end(data, pos0, fvs, vpool, *mode, fuel as nat);
    proof {
        assert(fvs.len() == nf);
        assert(fvs.skip(0) =~= fvs);
        assert(spec_value_end(data, pos0, class_id, vpool, *mode, fuel as nat) == (match whole {
            Ok(fp) => Result::<(ValueView, int)>::Ok((ValueView::Struct(fp.0), fp.1)),
            Err(e) => Result::<(ValueView, int)>::Err(e),
        }));
    }
    let mut fields: Vec<StructField> = Vec::new();
    let mut i: usize = 0;
    proof {
        assert(struct_fields_views(fields@) =~= Seq::<(Seq<u8>, ValueView)>::empty());
        match spec_fields_end(data, pos0, fvs.skip(0), vpool, *mode, fuel as nat) {
            Ok(fp) => {
                assert(struct_fields_views(fields@) + fp.0 =~= fp.0);
            },
            Err(e) => {},
        }
    }
    while i < nf
        invariant
            i <= nf,
            nf == td.fields@.len(),
            nf > 0,
            fuel >= 1,
            pool@.contains_key(class_id as int) && pool@[class_id as int] == *td,
            data == old(s).data@,
            pos0 == old(s).pos as int,
            vpool == pool_views(pool@),
            fvs == fields_view(td.fields@),
            fvs.len() == nf,
            whole == spec_fields_end(data, pos0, fvs, vpool, *mode, fuel as nat),
            s.data@ == data,
            i > 0 ==> old(s).pos < s.pos,
            s.pos <= s.data@.len() || i == 0,
            i == 0 ==> s.pos == old(s).pos,
            match spec_fields_end(data, s.pos as int, fvs.skip(i as int), vpool, *mode, fuel as nat) {
                Ok(fp) => whole == Result::<(Seq<(Seq<u8>, ValueView)>, int)>::Ok(
                    (struct_fields_views(fields@) + fp.0, fp.1),
                ),
                Err(e) => whole == Result::<(Seq<(Seq<u8>, ValueView)>, int)>::Err(e),
            },
            fields@.len() == i,
            forall|k: int| 0 <= k < i ==> (#[trigger] fields@[k]).name@ == td.fields@[k].name@,
            forall|k: int|
                0 <= k < i && td.fields@[k].is_constant_pool_reference ==> ((
                #[trigger] fields@[k]).value matches ValueDescriptor::ConstantPool {
                    class_id: cid,
                    ..
                } && cid == td.fields@[k].class_id),
            forall|k: int|
                0 <= k < i && !td.fields@[k].is_constant_pool_reference
                    && td.fields@[k].is_array ==> (#[trigger] fields@[k]).value is Array,
        decreases nf - i,
    {
        let ghost it_pos = s.pos as int;
        let ghost old_views = struct_fields_views(fields@);
        proof {
            assert(fvs.skip(i as int)[0] == fvs[i as int]);
            assert(fvs[i as int] == field_view(td.fields@[i as int]));
            assert(fvs.skip(i as int).skip(1) =~= fvs.skip(i + 1));
        }
        let f = &td.fields[i];
        let v = if f.is_constant_pool_reference {
            let idx = mode.read_varint(s)?;
            ValueDescriptor::ConstantPool { class_id: f.class_id, constant_index: idx as i64 }
        } else if f.is_array {
            let n = mode.read_varint(s)?;
            let ghost elems_pos = s.pos as int;
            let mut elems: Vec<ValueDescriptor> = Vec::new();
            let mut k: u64 = 0;
            proof {
                assert(elems_views(elems@) =~= Seq::<ValueView>::empty());
                match spec_elems_end(
                    data,
                    elems_pos,
                    f.class_id,
                    n as nat,
                    vpool,
                    *mode,
                    (fuel - 1) as nat,
                ) {
                    Ok(ep) => {
                        assert(elems_views(elems@) + ep.0 =~= ep.0);
                    },
                    Err(e) => {},
                }
            }
            while k < n
                invariant
                    k <= n,
                    fuel >= 1,
                    i < nf,
                    nf == td.fields@.len(),
                    pool@.contains_key(class_id as int) && pool@[class_id as int] == *td,
                    *f == td.fields@[i as int],
                    f.is_array && !f.is_constant_pool_reference,
                    data == old(s).data@,
                    pos0 == old(s).pos as int,
                    vpool == pool_views(pool@),
                    fvs == fields_view(td.fields@),
                    fvs.len() == nf,
                    whole == spec_fields_end(data, pos0, fvs, vpool, *mode, fuel as nat),
                    s.data@ == data,
                    old(s).pos < s.pos <= s.data@.len(),
                    fvs.skip(i as int)[0] == fvs[i as int],
                    fvs[i as int] == field_view(td.fields@[i as int]),
                    fvs.skip(i as int).skip(1) =~= fvs.skip(i + 1),
                    fvs.skip(i as int).len() == nf - i,
                    old_views == struct_fields_views(fields@),
                    spec_varint(data, it_pos) == Some((n, elems_pos)),
                    match spec_fields_end(
                        data,
                        it_pos,
                        fvs.skip(i as int),
                        vpool,
                        *mode,
                        fuel as nat,
                    ) {
                        Ok(fp) => whole == Result::<(Seq<(Seq<u8>, ValueView)>, int)>::Ok(
                            (old_views + fp.0, fp.1),
                        ),
                        Err(e) => whole == Result::<(Seq<(Seq<u8>, ValueView)>, int)>::Err(e),
                    },
                    match spec_elems_end(
                        data,
                        s.pos as int,
                        f.class_id,
                        (n - k) as nat,
                        vpool,
                        *mode,
                        (fuel - 1) as nat,
                    ) {
                        Ok(ep) => spec_elems_end(
                            data,
                            elems_pos,
                            f.class_id,
                            n as nat,
                            vpool,
                            *mode,
                            (fuel - 1) as nat,
                        ) == Result::<(Seq<ValueView>, int)>::Ok(
                            (elems_views(elems@) + ep.0, ep.1),
                        ),
                        Err(e) => spec_elems_end(
                            data,
                            elems_pos,
                            f.class_id,
                            n as nat,
                            vpool,
                            *mode,
                            (fuel - 1) as nat,
                        ) == Result::<(Seq<ValueView>, int)>::Err(e),
                    },
                decreases n - k,
            {
                let ghost old_evs = elems_views(elems@);
                let e = decode_value(s, f.class_id, pool, mode, fuel - 1)?;
                elems.push(e);
                k = k + 1;
                proof {
                    assert(elems_views(elems@) =~= old_evs + seq![view_of(e)]);
                    match spec_elems_end(
                        data,
                        s.pos as int,
                        f.class_id,
                        (n - k) as nat,
                        vpool,
                        *mode,
                        (fuel - 1) as nat,
                    ) {
                        Ok(ep) => {
                            assert(old_evs + (seq![view_of(e)] + ep.0) =~= elems_views(elems@)
                                + ep.0);
                        },
                        Err(e2) => {},
                    }
                }
            }
            proof {
                assert(spec_elems_end(
                    data,
                    s.pos as int,
                    f.class_id,
                    0nat,
                    vpool,
                    *mode,
                    (fuel - 1) as nat,
                ) == Result::<(Seq<ValueView>, int)>::Ok(
                    (Seq::<ValueView>::empty(), s.pos as int),
                ));
                assert(elems_views(elems@) + Seq::<ValueView>::empty() =~= elems_views(elems@));
                assert(view_of(ValueDescriptor::Array(elems)) is Array);
                assert(view_of(ValueDescriptor::Array(elems))->Array_0 =~= elems_views(elems@));
                assert(view_of(ValueDescriptor::Array(elems)) == ValueView::Array(
                    elems_views(elems@),
                ));
            }
            ValueDescriptor::Array(elems)
        } else {
            decode_value(s, f.class_id, pool, mode, fuel - 1)?
        };
        let name = clone_bytes(&f.name);
        proof {
            assert(struct_fields_views(fields@.push(StructField { name, value: v })) =~= old_views
                + seq![(td.fields@[i as int].name@, view_of(v))]);
            match spec_fields_end(data, it_pos, fvs.skip(i as int), vpool, *mode, fuel as nat) {
                Ok(fp) => {},
                Err(e) => {},
            }
        }
        fields.push(StructField { name, value: v });
        i = i + 1;
        proof {
            match spec_fields_end(data, s.pos as int, fvs.skip(i as int), vpool, *mode, fuel as nat) {
                Ok(fp) => {
                    assert(old_views + (seq![(fvs[i - 1].name, view_of(v))] + fp.0)
                        =~= struct_fields_views(fields@) + fp.0);
                },
                Err(e) => {},
            }
        }
    }
    proof {
        assert(fvs.skip(nf as int).len() == 0);
        match whole {
            Ok(fp) => {
                assert(struct_fields_views(fields@) + Seq::<(Seq<u8>, ValueView)>::empty()
                    =~= struct_fields_views(fields@));
                assert(view_of(ValueDescriptor::Struct(fields)) is Struct);
                assert(view_of(ValueDescriptor::Struct(fields))->Struct_0 =~= struct_fields_views(
                    fields@,
                ));
                assert(view_of(ValueDescriptor::Struct(fields)) == ValueView::Struct(
                    struct_fields_views(fields@),
                ));
            },
            Err(e) => {},
        }
    }
    Ok(ValueDescriptor::Struct(fields))
}

/// What decoding one primitive leaf owes, by its well-known type name.
pub enum PrimitiveOutcome {
    /// A fixed mapping applies: this value, the cursor there afterwards.
    Value(ValueDescriptor, int),
    /// The source ends before the value does.
    ShortRead,
    /// The name selects the tagged-string primitive.
    IsString,
    /// No well-known primitive has this name: corrupt metadata.
    Unknown,
}

/// The fixed mapping from well-known primitive type names to what one decode
/// at `pos` yields.  Strings are singled out; every other name is corrupt
/// metadata on a zero-field type.
pub open spec fn spec_primitive(
    name: Seq<u8>,
    mode: ByteReader,
    data: Seq<u8>,
    pos: int,
) -> PrimitiveOutcome {
    if name == "boolean".spec_bytes() {
        if 0 <= pos < data.len() {
            PrimitiveOutcome::Value(ValueDescriptor::Boolean(data[pos] != 0), pos + 1)
        } else {
            PrimitiveOutcome::ShortRead
        }
    } else if name == "byte".spec_bytes() {
        if 0 <= pos < data.len() {
            PrimitiveOutcome::Value(ValueDescriptor::Int8(data[pos] as i8), pos + 1)
        } else {
            PrimitiveOutcome::ShortRead
        }
    } else if name == "char".spec_bytes() {
        match spec_read_i16(mode, data, pos) {
            Some(vp) => PrimitiveOutcome::Value(ValueDescriptor::Char(vp.0 as u16), vp.1),
            Option::None => PrimitiveOutcome::ShortRead,
        }
    } else if name == "short".spec_bytes() {
        match spec_read_i16(mode, data, pos) {
            Some(vp) => PrimitiveOutcome::Value(ValueDescriptor::Int16(vp.0), vp.1),
            Option::None => PrimitiveOutcome::ShortRead,
        }
    } else if name == "int".spec_bytes() {
        match spec_read_i32(mode, data, pos) {
            Some(vp) => PrimitiveOutcome::Value(ValueDescriptor::Int32(vp.0), vp.1),
            Option::None => PrimitiveOutcome::ShortRead,
        }
    } else if name == "long".spec_bytes() {
        match spec_read_i64(mode, data, pos) {
            Some(vp) => PrimitiveOutcome::Value(ValueDescriptor::Int64(vp.0), vp.1),
            Option::None => PrimitiveOutcome::ShortRead,
        }
    } else if name == "float".spec_bytes() {
        if 0 <= pos && pos + 4 <= data.len() {
            PrimitiveOutcome::Value(
                ValueDescriptor::Float32Bits(spec_be(data, pos, 4) as u32),
                pos + 4,
            )
        } else {
            PrimitiveOutcome::ShortRead
        }
    } else if name == "double".spec_bytes() {
        if 0 <= pos && pos + 8 <= data.len() {
            PrimitiveOutcome::Value(
                ValueDescriptor::Float64Bits(spec_be(data, pos, 8) as u64),
                pos + 8,
            )
        } else {
            PrimitiveOutcome::ShortRead
        }
    } else if name == "java.lang.String".spec_bytes() || name == "string".spec_bytes() {
        PrimitiveOutcome::IsString
    } else {
        PrimitiveOutcome::Unknown
    }
}

/// What one value decode of type `class_id` at `pos` yields — the value's
/// view and the position past it — or the exact error it fails with.  This
/// is the record grammar itself: a zero-field type is a primitive leaf; any
/// other type is a struct whose fields follow in declaration order, a
/// constant-pool-reference field being one compressed index and an array
/// field a compressed count followed by that many element values.  `fuel`
/// bounds inline nesting exactly as the decoder's own budget does.
pub open spec fn spec_value_end(
    data: Seq<u8>,
    pos: int,
    class_id: i64,
    pool: Map<int, TypeView>,
    mode: ByteReader,
    fuel: nat,
) -> Result<(ValueView, int)>
    decreases fuel, 2int, 0int,
{
    if !pool.contains_key(class_id as int) {
        Err(Error::ClassNotFound(class_id))
    } else if fuel == 0 {
        Err(Error::InvalidFormat)
    } else {
        let tv = pool[class_id as int];
        if tv.fields.len() == 0 {
            match spec_primitive(tv.name, mode, data, pos) {
                PrimitiveOutcome::Value(v, p) => Ok((view_of(v), p)),
                PrimitiveOutcome::ShortRead => Err(Error::IoError),
                PrimitiveOutcome::IsString => match spec_read_string(data, pos) {
                    Ok(vp) => Ok((ValueView::String(vp.0), vp.1)),
                    Err(e) => Err(e),
                },
                PrimitiveOutcome::Unknown => Err(Error::InvalidFormat),
            }
        } else {
            match spec_fields_end(data, pos, tv.fields, pool, mode, fuel) {
                Ok(fp) => Ok((ValueView::Struct(fp.0), fp.1)),
                Err(e) => Err(e),
            }
        }
    }
}

/// What the given run of fields, decoded in order from `pos`, yields: the
/// named field values and the position past them.
pub open spec fn spec_fields_end(
    data: Seq<u8>,
    pos: int,
    fields: Seq<FieldView>,
    pool: Map<int, TypeView>,
    mode: ByteReader,
    fuel: nat,
) -> Result<(Seq<(Seq<u8>, ValueView)>, int)>
    decreases fuel, 1int, fields.len(),
{
    if fields.len() == 0 {
        Ok((Seq::<(Seq<u8>, ValueView)>::empty(), pos))
    } else if fuel == 0 {
        Err(Error::InvalidFormat)
    } else {
        let f = fields[0];
        let step: Result<(ValueView, int)> = if f.is_constant_pool_reference {
            match spec_varint(data, pos) {
                Some(vp) => Ok((ValueView::ConstantPool(f.class_id, vp.0 as i64), vp.1)),
                Option::None => Err(Error::IoError),
            }
        } else if f.is_array {
            match spec_varint(data, pos) {
                Some(vp) => match spec_elems_end(
                    data,
                    vp.1,
                    f.class_id,
                    vp.0 as nat,
                    pool,
                    mode,
                    (fuel - 1) as nat,
                ) {
                    Ok(ep) => Ok((ValueView::Array(ep.0), ep.1)),
                    Err(e) => Err(e),
                },
                Option::None => Err(Error::IoError),
            }
        } else {
            spec_value_end(data, pos, f.class_id, pool, mode, (fuel - 1) as nat)
        };
        match step {
            Ok(vp2) => match spec_fields_end(data, vp2.1, fields.skip(1), pool, mode, fuel) {
                Ok(fp) => Ok((seq![(f.name, vp2.0)] + fp.0, fp.1)),
                Err(e) => Err(e),
            },
            Err(e) => Err(e),
        }
    }
}

/// What `n` array elements of type `class_id`, decoded from `pos`, yield:
/// their views in stream order and the position past them.
pub open spec fn spec_elems_end(
    data: Seq<u8>,
    pos: int,
    class_id: i64,
    n: nat,
    pool: Map<int, TypeView>,
    mode: ByteReader,
    fuel: nat,
) -> Result<(Seq<ValueView>, int)>
    decreases fuel, 3int, n,
{
    if n == 0 {
        Ok((Seq::<ValueView>::empty(), pos))
    } else {
        match spec_value_end(data, pos, class_id, pool, mode, fuel) {
            Ok(vp) => match spec_elems_end(data, vp.1, class_id, (n - 1) as nat, pool, mode, fuel) {
                Ok(ep) => Ok((seq![vp.0] + ep.0, ep.1)),
                Err(e) => Err(e),
            },
            Err(e) => Err(e),
        }
    }
}

/// Decodes one primitive leaf value by its well-known type name.  A
/// zero-field type with any other name is a corrupt-metadata condition.
fn decode_primitive(s: &mut HeapByteStream, name: &Vec<u8>, mode: &ByteReader) -> (r: Result<
    ValueDescriptor,
>)
    ensures
        final(s).data@ == old(s).data@,
        r is Ok ==> old(s).pos < final(s).pos <= final(s).data@.len(),
        r is Ok ==> !(r->Ok_0 is Struct) && !(r->Ok_0 is Array) && !(r->Ok_0 is ConstantPool),
        match spec_primitive(name@, *mode, old(s).data@, old(s).pos as int) {
            PrimitiveOutcome::Value(v, p) => r == Result::<ValueDescriptor>::Ok(v) && final(s).pos
                == p,
            PrimitiveOutcome::ShortRead => r == Result::<ValueDescriptor>::Err(Error::IoError),
            PrimitiveOutcome::IsString => match spec_read_string(old(s).data@, old(s).pos as int) {
                Ok(vp) => r is Ok && (r->Ok_0 matches ValueDescriptor::String(sv) && sv@ == vp.0)
                    && final(s).pos == vp.1,
                Err(e) => r == Result::<ValueDescriptor>::Err(e),
            },
            PrimitiveOutcome::Unknown => r == Result::<ValueDescriptor>::Err(Error::InvalidFormat),
        },
{
    if bytes_eq(name, "boolean".as_bytes()) {
        let b = s.read_u8()?;
        Ok(ValueDescriptor::Boolean(b != 0))
    } else if bytes_eq(name, "byte".as_bytes()) {
        let b = s.read_u8()?;
        Ok(ValueDescriptor::Int8(b as i8))
    } else if bytes_eq(name, "char".as_bytes()) {
        let v = mode.read_i16(s)?;
        Ok(ValueDescriptor::Char(v as u16))
    } else if bytes_eq(name, "short".as_bytes()) {
        let v = mode.read_i16(s)?;
        Ok(ValueDescriptor::Int16(v))
    } else if bytes_eq(name, "int".as_bytes()) {
        let v = mode.read_i32(s)?;
        Ok(ValueDescriptor::Int32(v))
    } else if bytes_eq(name, "long".as_bytes()) {
        let v = mode.read_i64(s)?;
        Ok(ValueDescriptor::Int64(v))
    } else if bytes_eq(name, "float".as_bytes()) {
        let v = crate::stream::read_raw_u32(s)?;
        Ok(ValueDescriptor::Float32Bits(v))
    } else if bytes_eq(name, "double".as_bytes()) {
        let v = crate::stream::read_raw_u64(s)?;
        Ok(ValueDescriptor::Float64Bits(v))
    } else if bytes_eq(name, "java.lang.String".as_bytes()) || bytes_eq(name, "string".as_bytes()) {
        let v = mode.read_string(s)?;
        Ok(ValueDescriptor::String(v))
    } else {
        Err(Error::InvalidFormat)
    }
}

} // verus!
