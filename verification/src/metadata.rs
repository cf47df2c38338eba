//! Parsing of the self-describing metadata record: one interned string
//! table, then a type tree of class elements with field and setting
//! sub-elements, built into a flat type pool keyed by type id.
//!
//! Field descriptors store referenced type ids only, so nothing here
//! recursively expands, whatever the type graph references — including a
//! field whose type id equals its declaring type's own id.

use vstd::prelude::*;
use crate::stream::{
    spec_read_i32, spec_read_i64, spec_read_string, ByteReader, HeapByteStream, StringValue,
};
use crate::types::{
    field_view, fields_view, pool_views, spec_decode_fuel, type_view, Annotation, FieldDescriptor,
    FieldView, TypeDescriptor, TypePool, TypeView,
};
use crate::varint::spec_varint;
use crate::{Error, Result, EVENT_TYPE_METADATA};

verus! {

/// Element kind of a field sub-element in the type tree.
pub const ELEMENT_FIELD: u64 = 0;

/// Element kind of a setting sub-element in the type tree.
pub const ELEMENT_SETTING: u64 = 1;

/// Modifier bit on a field element: the value is an ordered sequence.
pub const MODIFIER_ARRAY: u64 = 1;

/// Modifier bit on a field element: the value is a constant-pool index.
pub const MODIFIER_CONSTANT_POOL: u64 = 2;

/// One chunk's metadata: its type pool, and the integer encoding everything
/// after the chunk header uses.
pub struct Metadata {
    pub type_pool: TypePool,
    pub reader: ByteReader,
}

/// The table a run of `n` tagged strings at `pos` denotes — null entries
/// distinct from empty ones — and the position past them, or the first
/// string's exact error.
pub open spec fn spec_strings(data: Seq<u8>, pos: int, n: nat) -> Result<
    (Seq<Option<Seq<u8>>>, int),
>
    decreases n,
{
    if n == 0 {
        Ok((Seq::<Option<Seq<u8>>>::empty(), pos))
    } else {
        match spec_read_string(data, pos) {
            Ok(vp) => match spec_strings(data, vp.1, (n - 1) as nat) {
                Ok(tp) => Ok((seq![vp.0] + tp.0, tp.1)),
                Err(e) => Err(e),
            },
            Err(e) => Err(e),
        }
    }
}

/// The whole string table: a count (negative counts are malformed) followed
/// by that many tagged strings.
pub open spec fn spec_string_table(data: Seq<u8>, pos: int, mode: ByteReader) -> Result<
    (Seq<Option<Seq<u8>>>, int),
> {
    match spec_read_i32(mode, data, pos) {
        Option::None => Err(Error::IoError),
        Some((count, p)) => if count < 0 {
            Err(Error::InvalidFormat)
        } else {
            spec_strings(data, p, (count as u32) as nat)
        },
    }
}

/// Where `n` annotation name/value pairs end.  A name index past the table
/// or naming a null entry, or a value index past the table, is malformed.
pub open spec fn spec_annotation_pairs(
    data: Seq<u8>,
    pos: int,
    table: Seq<Option<Seq<u8>>>,
    n: nat,
) -> Result<int>
    decreases n,
{
    if n == 0 {
        Ok(pos)
    } else {
        match spec_varint(data, pos) {
            Option::None => Err(Error::IoError),
            Some((name_idx, p1)) => match spec_varint(data, p1) {
                Option::None => Err(Error::IoError),
                Some((value_idx, p2)) => if name_idx as int >= table.len() || table[
                    name_idx as int
                ] is None {
                    Err(Error::InvalidFormat)
                } else if value_idx as int >= table.len() {
                    Err(Error::InvalidFormat)
                } else {
                    spec_annotation_pairs(data, p2, table, (n - 1) as nat)
                },
            },
        }
    }
}

/// Where one run of annotations (count, then pairs) ends.
pub open spec fn spec_annotations(data: Seq<u8>, pos: int, table: Seq<Option<Seq<u8>>>) -> Result<
    int,
> {
    match spec_varint(data, pos) {
        Option::None => Err(Error::IoError),
        Some((count, p)) => spec_annotation_pairs(data, p, table, count as nat),
    }
}

/// What `n` field or setting sub-elements declare: the field views in
/// declaration order (settings declare no field) and the position past them;
/// any other element kind is malformed.
pub open spec fn spec_elements(
    data: Seq<u8>,
    pos: int,
    table: Seq<Option<Seq<u8>>>,
    mode: ByteReader,
    n: nat,
) -> Result<(Seq<FieldView>, int)>
    decreases n,
{
    if n == 0 {
        Ok((Seq::<FieldView>::empty(), pos))
    } else {
        match spec_varint(data, pos) {
            Option::None => Err(Error::IoError),
            Some((kind, p1)) => if kind == ELEMENT_FIELD {
                match spec_varint(data, p1) {
                    Option::None => Err(Error::IoError),
                    Some((fni, p2)) => match spec_read_i64(mode, data, p2) {
                        Option::None => Err(Error::IoError),
                        Some((fcid, p3)) => match spec_varint(data, p3) {
                            Option::None => Err(Error::IoError),
                            Some((mods, p4)) => if fni as int >= table.len() || table[
                                fni as int
                            ] is None {
                                Err(Error::InvalidFormat)
                            } else {
                                match spec_annotations(data, p4, table) {
                                    Ok(p5) => match spec_elements(
                                        data,
                                        p5,
                                        table,
                                        mode,
                                        (n - 1) as nat,
                                    ) {
                                        Ok(fp) => Ok(
                                            (
                                                seq![
                                                    FieldView {
                                                        name: table[fni as int]->Some_0,
                                                        class_id: fcid,
                                                        is_array: mods & MODIFIER_ARRAY != 0,
                                                        is_constant_pool_reference: mods
                                                            & MODIFIER_CONSTANT_POOL != 0,
                                                    },
                                                ] + fp.0,
                                                fp.1,
                                            ),
                                        ),
                                        Err(e) => Err(e),
                                    },
                                    Err(e) => Err(e),
                                }
                            },
                        },
                    },
                }
            } else if kind == ELEMENT_SETTING {
                match spec_varint(data, p1) {
                    Option::None => Err(Error::IoError),
                    Some((sni, p2)) => match spec_varint(data, p2) {
                        Option::None => Err(Error::IoError),
                        Some((svi, p3)) => if sni as int >= table.len() || table[
                            sni as int
                        ] is None {
                            Err(Error::InvalidFormat)
                        } else if svi as int >= table.len() {
                            Err(Error::InvalidFormat)
                        } else {
                            spec_elements(data, p3, table, mode, (n - 1) as nat)
                        },
                    },
                }
            } else {
                Err(Error::InvalidFormat)
            },
        }
    }
}

/// What one class element — name, id, annotations, sub-elements — declares:
/// its type view and the position past it.
pub open spec fn spec_class(
    data: Seq<u8>,
    pos: int,
    table: Seq<Option<Seq<u8>>>,
    mode: ByteReader,
) -> Result<(TypeView, int)> {
    match spec_varint(data, pos) {
        Option::None => Err(Error::IoError),
        Some((ni, p1)) => match spec_read_i64(mode, data, p1) {
            Option::None => Err(Error::IoError),
            Some((id, p2)) => if ni as int >= table.len() || table[ni as int] is None {
                Err(Error::InvalidFormat)
            } else {
                match spec_annotations(data, p2, table) {
                    Ok(p3) => match spec_varint(data, p3) {
                        Option::None => Err(Error::IoError),
                        Some((ec, p4)) => match spec_elements(data, p4, table, mode, ec as nat) {
                            Ok(fp) => Ok(
                                (
                                    TypeView { id, name: table[ni as int]->Some_0, fields: fp.0 },
                                    fp.1,
                                ),
                            ),
                            Err(e) => Err(e),
                        },
                    },
                    Err(e) => Err(e),
                }
            },
        },
    }
}

/// What `n` class elements, folded in order over the pool views `acc`,
/// declare: the pool afterwards — a later class superseding an earlier one
/// with the same id — and the position past them.
pub open spec fn spec_classes(
    data: Seq<u8>,
    pos: int,
    table: Seq<Option<Seq<u8>>>,
    mode: ByteReader,
    n: nat,
    acc: Map<int, TypeView>,
) -> Result<(Map<int, TypeView>, int)>
    decreases n,
{
    if n == 0 {
        Ok((acc, pos))
    } else {
        match spec_class(data, pos, table, mode) {
            Ok(tp) => spec_classes(
                data,
                tp.1,
                table,
                mode,
                (n - 1) as nat,
                acc.insert(tp.0.id as int, tp.0),
            ),
            Err(e) => Err(e),
        }
    }
}

/// What the whole metadata record at `pos` declares — the type pool it
/// denotes, the number of class elements, and the record's end — or the
/// exact error: the record size must be positive and match the bytes
/// actually consumed, and the type-id field must carry the reserved
/// metadata sentinel.
pub open spec fn spec_metadata_end(data: Seq<u8>, pos: int, mode: ByteReader) -> Result<
    (Map<int, TypeView>, nat, int),
> {
    match spec_read_i32(mode, data, pos) {
        Option::None => Err(Error::IoError),
        Some((size, p1)) => if size < 1 {
            Err(Error::InvalidFormat)
        } else {
            match spec_read_i64(mode, data, p1) {
                Option::None => Err(Error::IoError),
                Some((t, p2)) => if t != EVENT_TYPE_METADATA {
                    Err(Error::InvalidFormat)
                } else {
                    match spec_read_i64(mode, data, p2) {
                        Option::None => Err(Error::IoError),
                        Some((st, p3)) => match spec_read_i64(mode, data, p3) {
                            Option::None => Err(Error::IoError),
                            Some((du, p4)) => match spec_read_i64(mode, data, p4) {
                                Option::None => Err(Error::IoError),
                                Some((mid, p5)) => match spec_string_table(data, p5, mode) {
                                    Err(e) => Err(e),
                                    Ok((table, p6)) => match spec_varint(data, p6) {
                                        Option::None => Err(Error::IoError),
                                        Some((cc, p7)) => match spec_classes(
                                            data,
                                            p7,
                                            table,
                                            mode,
                                            cc as nat,
                                            Map::<int, TypeView>::empty(),
                                        ) {
                                            Err(e) => Err(e),
                                            Ok(mp) => if mp.1 < pos || mp.1 - pos != (
                                            size as u32) as int {
                                                Err(Error::InvalidFormat)
                                            } else {
                                                Ok((mp.0, cc as nat, mp.1))
                                            },
                                        },
                                    },
                                },
                            },
                        },
                    }
                },
            }
        },
    }
}

/// The spec-level view of an interned string table.
pub open spec fn table_view(strings: Seq<StringValue>) -> Seq<Option<Seq<u8>>> {
    strings.map_values(|sv: StringValue| sv@)
}

/// Interns the metadata record's string table; null and empty strings stay
/// distinct.
fn read_string_table(s: &mut HeapByteStream, reader: &ByteReader) -> (r: Result<Vec<StringValue>>)
    ensures
        final(s).data@ == old(s).data@,
        r is Ok ==> old(s).pos < final(s).pos <= final(s).data@.len(),
        match spec_string_table(old(s).data@, old(s).pos as int, *reader) {
            Ok(tp) => r is Ok && table_view(r->Ok_0@) == tp.0 && final(s).pos == tp.1,
            Err(e) => r == Result::<Vec<StringValue>>::Err(e),
        },
{
    let ghost data = s.data@;
    let count = reader.read_i32(s)?;
    if count < 0 {
        return Err(Error::InvalidFormat);
    }
    let n = count as u32 as usize;
    let ghost p0 = s.pos as int;
    let mut strings: Vec<StringValue> = Vec::new();
    let mut i: usize = 0;
    proof {
        assert(spec_string_table(data, old(s).pos as int, *reader) == spec_strings(
            data,
            p0,
            n as nat,
        ));
        match spec_strings(data, p0, n as nat) {
            Ok(tp) => {
                assert(table_view(strings@) + tp.0 =~= tp.0);
            },
            Err(e) => {},
        }
    }
    while i < n
        invariant
            i <= n,
            data == old(s).data@,
            s.data@ == data,
            old(s).pos < s.pos <= s.data@.len(),
            strings@.len() == i,
            match spec_strings(data, s.pos as int, (n - i) as nat) {
                Ok(tp) => spec_string_table(data, old(s).pos as int, *reader) == Result::<
                    (Seq<Option<Seq<u8>>>, int),
                >::Ok((table_view(strings@) + tp.0, tp.1)),
                Err(e) => spec_string_table(data, old(s).pos as int, *reader) == Result::<
                    (Seq<Option<Seq<u8>>>, int),
                >::Err(e),
            },
        decreases n - i,
    {
        let ghost old_tbl = table_view(strings@);
        let ghost cur = s.pos as int;
        let sv = reader.read_string(s)?;
        strings.push(sv);
        i = i + 1;
        proof {
            assert(table_view(strings@) =~= old_tbl + seq![sv@]);
            match spec_strings(data, s.pos as int, (n - i) as nat) {
                Ok(tp) => {
                    assert(spec_strings(data, cur, (n - i + 1) as nat) == Result::<
                        (Seq<Option<Seq<u8>>>, int),
                    >::Ok((seq![sv@] + tp.0, tp.1)));
                    assert(old_tbl + (seq![sv@] + tp.0) =~= table_view(strings@) + tp.0);
                },
                Err(e) => {},
            }
        }
    }
    proof {
        match spec_strings(data, s.pos as int, 0nat) {
            Ok(tp) => {
                assert(table_view(strings@) + tp.0 =~= table_view(strings@));
            },
            Err(e) => {},
        }
    }
    Ok(strings)
}

/// Resolves a string-table index to a non-null name; an index past the table
/// or a null entry is a format error.
fn table_name(strings: &Vec<StringValue>, idx: u64) -> (r: Result<Vec<u8>>)
    ensures
        r is Ok ==> idx < strings@.len() && strings@[idx as int]@ == Some(r->Ok_0@),
        r is Err ==> r == Result::<Vec<u8>>::Err(Error::InvalidFormat) && (idx >= strings@.len()
            || strings@[idx as int]@ is None),
{
    if idx >= strings.len() as u64 {
        return Err(Error::InvalidFormat);
    }
    match &strings[idx as usize] {
        StringValue::Null => Err(Error::InvalidFormat),
        StringValue::Utf8(v) => Ok(crate::value::clone_bytes(v)),
    }
}

/// Resolves a string-table index to a possibly-null value.
fn table_value(strings: &Vec<StringValue>, idx: u64) -> (r: Result<StringValue>)
    ensures
        r is Ok ==> idx < strings@.len() && r->Ok_0@ == strings@[idx as int]@,
        r is Err ==> r == Result::<StringValue>::Err(Error::InvalidFormat) && idx
            >= strings@.len(),
{
    if idx >= strings.len() as u64 {
        return Err(Error::InvalidFormat);
    }
    match &strings[idx as usize] {
        StringValue::Null => Ok(StringValue::Null),
        StringValue::Utf8(v) => Ok(StringValue::Utf8(crate::value::clone_bytes(v))),
    }
}

/// Reads one run of name/value annotation pairs.
fn read_annotations(
    s: &mut HeapByteStream,
    reader: &ByteReader,
    strings: &Vec<StringValue>,
) -> (r: Result<Vec<Annotation>>)
    ensures
        final(s).data@ == old(s).data@,
        r is Ok ==> old(s).pos < final(s).pos <= final(s).data@.len(),
        match spec_annotations(old(s).data@, old(s).pos as int, table_view(strings@)) {
            Ok(p) => r is Ok && final(s).pos == p,
            Err(e) => r == Result::<Vec<Annotation>>::Err(e),
        },
{
    let ghost data = s.data@;
    let ghost table = table_view(strings@);
    let count = reader.read_varint(s)?;
    let ghost p0 = s.pos as int;
    let mut out: Vec<Annotation> = Vec::new();
    let mut i: u64 = 0;
    while i < count
        invariant
            i <= count,
            data == old(s).data@,
            s.data@ == data,
            table == table_view(strings@),
            old(s).pos < s.pos <= s.data@.len(),
            match spec_annotation_pairs(data, s.pos as int, table, (count - i) as nat) {
                Ok(p) => spec_annotations(data, old(s).pos as int, table) == Result::<int>::Ok(p),
                Err(e) => spec_annotations(data, old(s).pos as int, table) == Result::<int>::Err(
                    e,
                ),
            },
        decreases count - i,
    {
        let name_idx = reader.read_varint(s)?;
        let value_idx = reader.read_varint(s)?;
        let name = table_name(strings, name_idx)?;
        let value = table_value(strings, value_idx)?;
        out.push(Annotation { name, value });
        i = i + 1;
    }
    Ok(out)
}

/// Parses the chunk's metadata record at the current cursor: record size, the
/// reserved metadata type id, timing fields, a revision id, the string
/// table, and the type tree.  A size mismatch between the declared record
/// size and the bytes actually consumed is a format error.
pub fn parse_metadata(s: &mut HeapByteStream, reader: ByteReader) -> (r: Result<Metadata>)
    ensures
        final(s).data@ == old(s).data@,
        r is Ok ==> old(s).pos < final(s).pos <= final(s).data@.len(),
        r is Ok ==> r->Ok_0.reader == reader,
        match spec_metadata_end(old(s).data@, old(s).pos as int, reader) {
            Ok(mp) => r is Ok && pool_views(r->Ok_0.type_pool@) == mp.0
                && r->Ok_0.type_pool.decode_fuel() == spec_decode_fuel(mp.1) && final(s).pos
                == mp.2,
            Err(e) => r == Result::<Metadata>::Err(e),
        },
{
    let ghost data = s.data@;
    let record_start = s.position();
    let size = reader.read_i32(s)?;
    if size < 1 {
        return Err(Error::InvalidFormat);
    }
    let type_id = reader.read_i64(s)?;
    if type_id != EVENT_TYPE_METADATA {
        return Err(Error::InvalidFormat);
    }
    // start time, duration, metadata revision id
    reader.read_i64(s)?;
    reader.read_i64(s)?;
    reader.read_i64(s)?;
    let strings = read_string_table(s, &reader)?;
    let ghost table = table_view(strings@);

    let mut pool = TypePool::new();
    let class_count = reader.read_varint(s)?;
    let ghost p0 = s.pos as int;
    proof {
        assert(pool_views(pool@) =~= Map::<int, TypeView>::empty());
        match spec_classes(data, p0, table, reader, class_count as nat, pool_views(pool@)) {
            Ok(mp) => {
                assert(spec_metadata_end(data, old(s).pos as int, reader) == (if mp.1 < old(
                    s,
                ).pos as int || mp.1 - old(s).pos as int != (size as u32) as int {
                    Result::<(Map<int, TypeView>, nat, int)>::Err(Error::InvalidFormat)
                } else {
                    Result::<(Map<int, TypeView>, nat, int)>::Ok(
                        (mp.0, class_count as nat, mp.1),
                    )
                }));
            },
            Err(e) => {
                assert(spec_metadata_end(data, old(s).pos as int, reader) == Result::<
                    (Map<int, TypeView>, nat, int),
                >::Err(e));
            },
        }
    }
    let mut c: u64 = 0;
    while c < class_count
        invariant
            c <= class_count,
            data == old(s).data@,
            s.data@ == data,
            table == table_view(strings@),
            old(s).pos < s.pos <= s.data@.len(),
            pool.type_count_spec() == c,
            match spec_classes(
                data,
                s.pos as int,
                table,
                reader,
                (class_count - c) as nat,
                pool_views(pool@),
            ) {
                Ok(mp) => spec_classes(
                    data,
                    p0,
                    table,
                    reader,
                    class_count as nat,
                    Map::<int, TypeView>::empty(),
                ) == Result::<(Map<int, TypeView>, int)>::Ok(mp),
                Err(e) => spec_classes(
                    data,
                    p0,
                    table,
                    reader,
                    class_count as nat,
                    Map::<int, TypeView>::empty(),
                ) == Result::<(Map<int, TypeView>, int)>::Err(e),
            },
            match spec_classes(
                data,
                p0,
                table,
                reader,
                class_count as nat,
                Map::<int, TypeView>::empty(),
            ) {
                Ok(mp) => spec_metadata_end(data, old(s).pos as int, reader) == (if mp.1 < old(
                    s,
                ).pos as int || mp.1 - old(s).pos as int != (size as u32) as int {
                    Result::<(Map<int, TypeView>, nat, int)>::Err(Error::InvalidFormat)
                } else {
                    Result::<(Map<int, TypeView>, nat, int)>::Ok(
                        (mp.0, class_count as nat, mp.1),
                    )
                }),
                Err(e) => spec_metadata_end(data, old(s).pos as int, reader) == Result::<
                    (Map<int, TypeView>, nat, int),
                >::Err(e),
            },
        decreases class_count - c,
    {
        let td = read_class(s, &reader, &strings)?;
        proof {
            crate::types::lemma_pool_views_insert(pool@, td);
        }
        pool.insert(td);
        c = c + 1;
    }

    // The declared record size must match the bytes actually consumed.
    let end = s.position();
    if end < record_start || end - record_start != size as u32 as u64 {
        return Err(Error::InvalidFormat);
    }
    Ok(Metadata { type_pool: pool, reader })
}

/// Reads one class element: name, type id, annotations, then field and
/// setting sub-elements.  An unrecognized element kind is a format error.
fn read_class(
    s: &mut HeapByteStream,
    reader: &ByteReader,
    strings: &Vec<StringValue>,
) -> (r: Result<TypeDescriptor>)
    ensures
        final(s).data@ == old(s).data@,
        r is Ok ==> old(s).pos < final(s).pos <= final(s).data@.len(),
        match spec_class(old(s).data@, old(s).pos as int, table_view(strings@), *reader) {
            Ok(tp) => r is Ok && type_view(r->Ok_0) == tp.0 && final(s).pos == tp.1,
            Err(e) => r == Result::<TypeDescriptor>::Err(e),
        },
{
    let ghost data = s.data@;
    let ghost table = table_view(strings@);
    let name_idx = reader.read_varint(s)?;
    let id = reader.read_i64(s)?;
    let name = table_name(strings, name_idx)?;
    proof {
        assert(table[name_idx as int] == strings@[name_idx as int]@);
    }
    let mut annotations = read_annotations(s, reader, strings)?;
    let mut fields: Vec<FieldDescriptor> = Vec::new();
    let element_count = reader.read_varint(s)?;
    let ghost p0 = s.pos as int;
    proof {
        assert(spec_class(data, old(s).pos as int, table, *reader) == (match spec_elements(
            data,
            p0,
            table,
            *reader,
            element_count as nat,
        ) {
            Ok(fp) => Result::<(TypeView, int)>::Ok(
                (TypeView { id, name: name@, fields: fp.0 }, fp.1),
            ),
            Err(e) => Result::<(TypeView, int)>::Err(e),
        }));
        assert(fields_view(fields@) =~= Seq::<FieldView>::empty());
        match spec_elements(data, p0, table, *reader, element_count as nat) {
            Ok(fp) => {
                assert(fields_view(fields@) + fp.0 =~= fp.0);
            },
            Err(e) => {},
        }
    }
    let mut e: u64 = 0;
    while e < element_count
        invariant
            e <= element_count,
            data == old(s).data@,
            s.data@ == data,
            table == table_view(strings@),
            old(s).pos < s.pos <= s.data@.len(),
            spec_class(data, old(s).pos as int, table, *reader) == (match spec_elements(
                data,
                p0,
                table,
                *reader,
                element_count as nat,
            ) {
                Ok(fp) => Result::<(TypeView, int)>::Ok(
                    (TypeView { id, name: name@, fields: fp.0 }, fp.1),
                ),
                Err(er) => Result::<(TypeView, int)>::Err(er),
            }),
            match spec_elements(data, s.pos as int, table, *reader, (element_count - e) as nat) {
                Ok(fp) => spec_elements(data, p0, table, *reader, element_count as nat)
                    == Result::<(Seq<FieldView>, int)>::Ok((fields_view(fields@) + fp.0, fp.1)),
                Err(er) => spec_elements(data, p0, table, *reader, element_count as nat)
                    == Result::<(Seq<FieldView>, int)>::Err(er),
            },
        decreases element_count - e,
    {
        let ghost old_fvs = fields_view(fields@);
        let kind = reader.read_varint(s)?;
        if kind == ELEMENT_FIELD {
            let f_name_idx = reader.read_varint(s)?;
            let f_class_id = reader.read_i64(s)?;
            let modifiers = reader.read_varint(s)?;
            let f_name = table_name(strings, f_name_idx)?;
            proof {
                assert(table[f_name_idx as int] == strings@[f_name_idx as int]@);
            }
            let f_annotations = read_annotations(s, reader, strings)?;
            let fd = FieldDescriptor {
                name: f_name,
                class_id: f_class_id,
                is_array: modifiers & MODIFIER_ARRAY != 0,
                is_constant_pool_reference: modifiers & MODIFIER_CONSTANT_POOL != 0,
                annotations: f_annotations,
            };
            proof {
                assert(fields_view(fields@.push(fd)) =~= old_fvs + seq![field_view(fd)]);
                match spec_elements(data, s.pos as int, table, *reader, (element_count - e
                    - 1) as nat) {
                    Ok(fp) => {
                        assert(old_fvs + (seq![field_view(fd)] + fp.0) =~= fields_view(
                            fields@.push(fd),
                        ) + fp.0);
                    },
                    Err(er) => {},
                }
            }
            fields.push(fd);
        } else if kind == ELEMENT_SETTING {
            let s_name_idx = reader.read_varint(s)?;
            let s_value_idx = reader.read_varint(s)?;
            let s_name = table_name(strings, s_name_idx)?;
            proof {
                assert(table[s_name_idx as int] == strings@[s_name_idx as int]@);
            }
            let s_value = table_value(strings, s_value_idx)?;
            annotations.push(Annotation { name: s_name, value: s_value });
        } else {
            return Err(Error::InvalidFormat);
        }
        e = e + 1;
    }
    proof {
        match spec_elements(data, s.pos as int, table, *reader, 0nat) {
            Ok(fp) => {
                assert(fields_view(fields@) + fp.0 =~= fields_view(fields@));
            },
            Err(er) => {},
        }
        assert(type_view(TypeDescriptor { id, name, fields, annotations }) == (TypeView {
            id,
            name: name@,
            fields: fields_view(fields@),
        }));
    }
    Ok(TypeDescriptor { id, name, fields, annotations })
}

} // verus!
