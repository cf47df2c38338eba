//! Decoded events, the read-only navigation facade over decoded values, and
//! the streaming iterator that walks a chunk body record by record.

use vstd::prelude::*;
use crate::chunk::{spec_byte_reader, Chunk, CHUNK_HEADER_SIZE};
use crate::stream::{spec_read_i32, spec_read_i64, ByteReader};
use crate::value::{spec_value_end, view_of};
use crate::types::pool_views;
use crate::stream::HeapByteStream;
use crate::types::TypeDescriptor;
use crate::value::{find_field, spec_field_lookup, ValueDescriptor};
use vstd::string::StringSliceAdditionalSpecFns;
use crate::{Error, Result, EVENT_TYPE_CONSTANT_POOL, EVENT_TYPE_METADATA};

verus! {

/// One decoded record: where it started (for re-seeking), the type it was
/// decoded as, the chunk it belongs to, and its root value.
pub struct Event<'a> {
    pub byte_offset: u64,
    pub class: &'a TypeDescriptor,
    pub chunk: &'a Chunk,
    pub value: ValueDescriptor,
}

impl<'a> Event<'a> {
    /// A navigation handle over this event's root value.
    pub fn value(&'a self) -> (r: Accessor<'a>)
        ensures
            r.chunk == self.chunk,
            r.value == self.value,
    {
        Accessor { chunk: self.chunk, value: &self.value }
    }
}

/// What one step of constant-pool resolution leaves of a value: a
/// non-reference value stands unchanged; a reference resolves to the pooled
/// value under its key, or to nothing when the key is absent.
pub open spec fn spec_resolved(
    pool: Map<(int, int), ValueDescriptor>,
    v: ValueDescriptor,
) -> Option<ValueDescriptor> {
    match v {
        ValueDescriptor::ConstantPool { class_id, constant_index } => {
            if pool.contains_key((class_id as int, constant_index as int)) {
                Some(pool[(class_id as int, constant_index as int)])
            } else {
                None
            }
        },
        _ => Some(v),
    }
}

/// What a field lookup yields after resolving the base value one step: the
/// named field of the (resolved) struct, or nothing when the base does not
/// resolve to a struct or lacks the field.
pub open spec fn spec_get_field(
    pool: Map<(int, int), ValueDescriptor>,
    v: ValueDescriptor,
    name: Seq<u8>,
) -> Option<ValueDescriptor> {
    match spec_resolved(pool, v) {
        Some(base) => match base {
            ValueDescriptor::Struct(fields) => spec_field_lookup(fields@, name),
            _ => None,
        },
        None => None,
    }
}

/// A read-only, borrowing view of one value inside one chunk, for navigating
/// decoded structures without copying.
pub struct Accessor<'a> {
    pub chunk: &'a Chunk,
    pub value: &'a ValueDescriptor,
}

impl<'a> Accessor<'a> {
    pub fn new(chunk: &'a Chunk, value: &'a ValueDescriptor) -> (r: Self)
        ensures
            r.chunk == chunk,
            r.value == value,
    {
        Accessor { chunk, value }
    }

    /// The named field of this value, resolving one level of constant-pool
    /// indirection first when the value itself is a reference; `None` when
    /// the field is absent or the value is not a struct.
    pub fn get_field(&self, name: &str) -> (r: Option<Accessor<'a>>)
        ensures
            match r {
                Some(a) => a.chunk == self.chunk && spec_get_field(
                    self.chunk.constant_pool@,
                    *self.value,
                    name.spec_bytes(),
                ) == Some(*a.value),
                None => spec_get_field(
                    self.chunk.constant_pool@,
                    *self.value,
                    name.spec_bytes(),
                ) is None,
            },
    {
        let chunk = self.chunk;
        let base: &'a ValueDescriptor = match self.value {
            ValueDescriptor::ConstantPool { class_id, constant_index } => {
                match chunk.constant_pool.get(*class_id, *constant_index) {
                    Some(v) => v,
                    None => {
                        return None;
                    },
                }
            },
            _ => self.value,
        };
        match base {
            ValueDescriptor::Struct(fields) => match find_field(fields, name.as_bytes()) {
                Some(v) => Some(Accessor { chunk, value: v }),
                None => None,
            },
            _ => None,
        }
    }

    /// The named field of this value without the implicit pre-resolution:
    /// `None` when the value is not itself a struct.
    pub fn get_field_raw(&self, name: &str) -> (r: Option<Accessor<'a>>)
        ensures
            match r {
                Some(a) => a.chunk == self.chunk && (*self.value matches ValueDescriptor::Struct(
                    fields,
                ) && spec_field_lookup(fields@, name.spec_bytes()) == Some(*a.value)),
                None => !(*self.value matches ValueDescriptor::Struct(fields)
                    && spec_field_lookup(fields@, name.spec_bytes()) is Some),
            },
    {
        let chunk = self.chunk;
        match self.value {
            ValueDescriptor::Struct(fields) => match find_field(fields, name.as_bytes()) {
                Some(v) => Some(Accessor { chunk, value: v }),
                None => None,
            },
            _ => None,
        }
    }

    /// Resolves one step: a non-reference value comes back unchanged; a
    /// reference comes back as an accessor over the pooled value, or `None`
    /// when its key is absent from the pool.  Chains of references take one
    /// `resolve` call per step.
    pub fn resolve(self) -> (r: Option<Accessor<'a>>)
        ensures
            match r {
                Some(a) => a.chunk == self.chunk && spec_resolved(
                    self.chunk.constant_pool@,
                    *self.value,
                ) == Some(*a.value),
                None => spec_resolved(self.chunk.constant_pool@, *self.value) is None,
            },
            !(*self.value is ConstantPool) ==> r == Some(self),
    {
        match self.value {
            ValueDescriptor::ConstantPool { class_id, constant_index } => {
                match self.chunk.constant_pool.get(*class_id, *constant_index) {
                    Some(v) => Some(Accessor { chunk: self.chunk, value: v }),
                    None => None,
                }
            },
            _ => Some(self),
        }
    }

    /// An iterator over the elements of an array value, or of the array a
    /// reference resolves to; `None` for anything else.
    pub fn as_iter(self) -> (r: Option<AccessorIter<'a>>)
        ensures
            match r {
                Some(it) => it.chunk == self.chunk && it.index == 0 && spec_resolved(
                    self.chunk.constant_pool@,
                    *self.value,
                ) == Some(ValueDescriptor::Array(*it.array)),
                None => !(spec_resolved(self.chunk.constant_pool@, *self.value) matches Some(v)
                    && v is Array),
            },
    {
        let chunk = self.chunk;
        let array: &'a Vec<ValueDescriptor> = match self.value {
            ValueDescriptor::Array(a) => a,
            ValueDescriptor::ConstantPool { class_id, constant_index } => {
                match chunk.constant_pool.get(*class_id, *constant_index) {
                    Some(ValueDescriptor::Array(a)) => a,
                    _ => {
                        return None;
                    },
                }
            },
            _ => {
                return None;
            },
        };
        Some(AccessorIter { chunk, array, index: 0 })
    }
}

/// A lazy, finite walk over an array value's elements.
pub struct AccessorIter<'a> {
    pub chunk: &'a Chunk,
    pub array: &'a Vec<ValueDescriptor>,
    pub index: usize,
}

impl<'a> AccessorIter<'a> {
    /// The next element, as an accessor, until the array is exhausted.
    pub fn next(&mut self) -> (r: Option<Accessor<'a>>)
        ensures
            final(self).chunk == old(self).chunk,
            final(self).array == old(self).array,
            match r {
                Some(a) => old(self).index < old(self).array@.len() && final(self).index == old(
                    self,
                ).index + 1 && a.chunk == old(self).chunk && *a.value == old(self).array@[old(
                    self,
                ).index as int],
                None => old(self).index >= old(self).array@.len() && final(self).index == old(
                    self,
                ).index,
            },
    {
        if self.index < self.array.len() {
            let a = Accessor { chunk: self.chunk, value: &self.array[self.index] };
            self.index = self.index + 1;
            Some(a)
        } else {
            None
        }
    }
}

impl Chunk {
    /// An event iterator over this chunk's body, driving the given byte
    /// source, starting at `offset` within the body.  The chunk's metadata
    /// and constant pool are complete by construction, which event decoding
    /// depends on.
    pub fn events_from(&self, stream: HeapByteStream, offset: u64) -> (r: EventIterator<'_>)
        ensures
            r.chunk == self,
            r.stream == stream,
            r.offset == offset,
    {
        EventIterator { chunk: self, stream, offset }
    }
}

/// Where one record-by-record walk of the chunk body from `offset` stops:
/// at the body's end, on a structural fault, or at the first record that is
/// not a bookkeeping sentinel.
pub enum ScanOutcome {
    /// The offset reached the body size: clean exhaustion.
    End(int),
    /// A cursor or record-size fault, with its error.
    Fail(Error),
    /// An event record: where it starts, its type id, where its payload
    /// starts, and the offset just past it.
    Found { record_off: int, type_id: i64, payload: int, next_off: int },
}

/// Walks records from `offset`: each is a size (at least 1, not overrunning
/// the body) and a type id; metadata and constant-pool sentinel records were
/// consumed during chunk construction and are skipped.
pub open spec fn spec_scan(
    data: Seq<u8>,
    mode: ByteReader,
    body_start: int,
    body_size: int,
    offset: int,
) -> ScanOutcome
    decreases body_size - offset,
{
    if offset >= body_size {
        ScanOutcome::End(offset)
    } else if body_start + offset > u64::MAX {
        ScanOutcome::Fail(Error::IoError)
    } else if body_start + offset > data.len() {
        ScanOutcome::Fail(Error::IoError)
    } else {
        match spec_read_i32(mode, data, body_start + offset) {
            Option::None => ScanOutcome::Fail(Error::IoError),
            Some((size, p1)) => match spec_read_i64(mode, data, p1) {
                Option::None => ScanOutcome::Fail(Error::IoError),
                Some((t, p2)) => if size < 1 {
                    ScanOutcome::Fail(Error::InvalidFormat)
                } else if (size as u32) as int > body_size - offset {
                    ScanOutcome::Fail(Error::InvalidFormat)
                } else if t == EVENT_TYPE_METADATA || t == EVENT_TYPE_CONSTANT_POOL {
                    spec_scan(data, mode, body_start, body_size, offset + (size as u32) as int)
                } else {
                    ScanOutcome::Found {
                        record_off: offset,
                        type_id: t,
                        payload: p2,
                        next_off: offset + (size as u32) as int,
                    }
                },
            },
        }
    }
}

/// A single-pass, forward-only cursor over a chunk body's records, yielding
/// decoded events and skipping the bookkeeping records already consumed
/// during chunk construction.
pub struct EventIterator<'a> {
    pub chunk: &'a Chunk,
    pub stream: HeapByteStream,
    pub offset: u64,
}

impl<'a> EventIterator<'a> {
    pub fn new(chunk: &'a Chunk, stream: HeapByteStream) -> (r: Self)
        ensures
            r.chunk == chunk,
            r.stream == stream,
            r.offset == 0,
    {
        EventIterator { chunk, stream, offset: 0 }
    }

    /// Moves the cursor to a previously observed record boundary within the
    /// body.
    pub fn seek(&mut self, offset: u64)
        ensures
            final(self).offset == offset,
            final(self).chunk == old(self).chunk,
            final(self).stream == old(self).stream,
    {
        self.offset = offset;
    }

    /// Advances to the next event record.  Iteration ends cleanly, with
    /// `Ok(None)`, exactly when the offset reaches the body size; a record
    /// whose declared size is not positive, or would run past the body, is a
    /// format error, and nothing past the body is ever read.  Metadata and
    /// constant-pool sentinel records are skipped without error; an event
    /// record whose type id the pool lacks fails with `ClassNotFound`; any
    /// other record yields the event decoded at its payload.
    pub fn internal_next(&mut self) -> (r: Result<Option<Event<'a>>>)
        requires
            old(self).chunk.header.wf(),
        ensures
            final(self).chunk == old(self).chunk,
            final(self).stream.data@ == old(self).stream.data@,
            ({
                let data = old(self).stream.data@;
                let h = old(self).chunk.header;
                let pool = old(self).chunk.metadata.type_pool@;
                match spec_scan(
                    data,
                    spec_byte_reader(h),
                    h.body_start_offset as int,
                    h.chunk_size - CHUNK_HEADER_SIZE,
                    old(self).offset as int,
                ) {
                    ScanOutcome::End(o) => r == Result::<Option<Event<'a>>>::Ok(None)
                        && final(self).offset == o,
                    ScanOutcome::Fail(e) => r == Result::<Option<Event<'a>>>::Err(e),
                    ScanOutcome::Found { record_off, type_id, payload, next_off } => {
                        if !pool.contains_key(type_id as int) {
                            r == Result::<Option<Event<'a>>>::Err(Error::ClassNotFound(type_id))
                        } else {
                            match spec_value_end(
                                data,
                                payload,
                                type_id,
                                pool_views(pool),
                                old(self).chunk.metadata.reader,
                                old(self).chunk.metadata.type_pool.decode_fuel(),
                            ) {
                                Ok(vp) => if h.body_start_offset + next_off > u64::MAX || vp.1
                                    > h.body_start_offset + next_off {
                                    r == Result::<Option<Event<'a>>>::Err(Error::InvalidFormat)
                                } else {
                                    (r matches Ok(Some(ev)) && (ev.chunk == old(self).chunk
                                        && ev.byte_offset == record_off && *ev.class == pool[
                                        type_id as int
                                    ] && view_of(ev.value) == vp.0 && final(self).offset == next_off
                                        && final(self).stream.pos == vp.1))
                                },
                                Err(e) => r == Result::<Option<Event<'a>>>::Err(e),
                            }
                        }
                    },
                }
            }),
            r matches Ok(e) ==> (e is None ==> final(self).offset >= old(
                self,
            ).chunk.header.chunk_size - CHUNK_HEADER_SIZE),
            old(self).offset >= old(self).chunk.header.chunk_size - CHUNK_HEADER_SIZE ==> r
                == Result::<Option<Event<'a>>>::Ok(None) && final(self).offset == old(self).offset,
            r matches Ok(e) ==> (e matches Some(ev) ==> ev.chunk == old(self).chunk && old(
                self,
            ).offset <= ev.byte_offset && ev.byte_offset < final(self).offset && final(self).offset
                <= old(self).chunk.header.chunk_size - CHUNK_HEADER_SIZE),
    {
        let chunk = self.chunk;
        let end_offset = chunk.header.chunk_body_size();
        let reader = chunk.header.byte_reader();
        let ghost data = self.stream.data@;
        let ghost body_start = chunk.header.body_start_offset as int;

        while self.offset < end_offset
            invariant
                self.chunk == old(self).chunk,
                chunk == self.chunk,
                self.chunk.header.wf(),
                end_offset == self.chunk.header.chunk_size - CHUNK_HEADER_SIZE,
                reader == spec_byte_reader(self.chunk.header),
                data == old(self).stream.data@,
                body_start == self.chunk.header.body_start_offset as int,
                self.stream.data@ == data,
                old(self).offset <= self.offset,
                old(self).offset >= end_offset ==> self.offset == old(self).offset,
                spec_scan(data, reader, body_start, end_offset as int, self.offset as int)
                    == spec_scan(
                    data,
                    reader,
                    body_start,
                    end_offset as int,
                    old(self).offset as int,
                ),
            decreases end_offset - self.offset,
        {
            if chunk.header.body_start_offset > u64::MAX - self.offset {
                return Err(Error::IoError);
            }
            self.stream.seek(chunk.header.body_start_offset + self.offset)?;
            let event_offset = self.offset;

            let size = reader.read_i32(&mut self.stream)?;
            let event_type = reader.read_i64(&mut self.stream)?;
            if size < 1 {
                return Err(Error::InvalidFormat);
            }
            // Record boundaries are trusted from the size field; one that
            // would overrun the body fails rather than over-reading.
            if (size as u32 as u64) > end_offset - self.offset {
                return Err(Error::InvalidFormat);
            }
            self.offset = self.offset + (size as u32 as u64);

            if event_type == EVENT_TYPE_METADATA || event_type == EVENT_TYPE_CONSTANT_POOL {
                // Already consumed during chunk construction.
                continue ;
            }
            let type_desc = match chunk.metadata.type_pool.get(event_type) {
                Some(td) => td,
                None => {
                    return Err(Error::ClassNotFound(event_type));
                },
            };
            let value = ValueDescriptor::try_new(&mut self.stream, event_type, &chunk.metadata)?;
            // The decoded value must end at or before the record's declared
            // end: a value running past it is a size inconsistency.
            if chunk.header.body_start_offset > u64::MAX - self.offset || self.stream.position()
                > chunk.header.body_start_offset + self.offset {
                return Err(Error::InvalidFormat);
            }
            return Ok(
                Some(Event { byte_offset: event_offset, class: type_desc, chunk, value }),
            );
        }
        Ok(None)
    }

    /// Iterator-style step: an event, an error, or `None` at the end of the
    /// body.  Exhaustion is a normal terminal state distinct from error.
    pub fn next(&mut self) -> (r: Option<Result<Event<'a>>>)
        requires
            old(self).chunk.header.wf(),
        ensures
            final(self).chunk == old(self).chunk,
            final(self).stream.data@ == old(self).stream.data@,
            ({
                let data = old(self).stream.data@;
                let h = old(self).chunk.header;
                let pool = old(self).chunk.metadata.type_pool@;
                match spec_scan(
                    data,
                    spec_byte_reader(h),
                    h.body_start_offset as int,
                    h.chunk_size - CHUNK_HEADER_SIZE,
                    old(self).offset as int,
                ) {
                    ScanOutcome::End(o) => r is None && final(self).offset == o,
                    ScanOutcome::Fail(e) => r == Option::<Result<Event<'a>>>::Some(
                        Result::<Event<'a>>::Err(e),
                    ),
                    ScanOutcome::Found { record_off, type_id, payload, next_off } => {
                        if !pool.contains_key(type_id as int) {
                            r == Option::<Result<Event<'a>>>::Some(
                                Result::<Event<'a>>::Err(Error::ClassNotFound(type_id)),
                            )
                        } else {
                            match spec_value_end(
                                data,
                                payload,
                                type_id,
                                pool_views(pool),
                                old(self).chunk.metadata.reader,
                                old(self).chunk.metadata.type_pool.decode_fuel(),
                            ) {
                                Ok(vp) => if h.body_start_offset + next_off > u64::MAX || vp.1
                                    > h.body_start_offset + next_off {
                                    r == Option::<Result<Event<'a>>>::Some(
                                        Result::<Event<'a>>::Err(Error::InvalidFormat),
                                    )
                                } else {
                                    (r matches Some(Ok(ev)) && (ev.chunk == old(self).chunk
                                        && ev.byte_offset == record_off && *ev.class == pool[
                                        type_id as int
                                    ] && view_of(ev.value) == vp.0 && final(self).offset == next_off
                                        && final(self).stream.pos == vp.1))
                                },
                                Err(e) => r == Option::<Result<Event<'a>>>::Some(
                                    Result::<Event<'a>>::Err(e),
                                ),
                            }
                        }
                    },
                }
            }),
            r is None ==> final(self).offset >= old(self).chunk.header.chunk_size
                - CHUNK_HEADER_SIZE,
            old(self).offset >= old(self).chunk.header.chunk_size - CHUNK_HEADER_SIZE ==> r
                is None && final(self).offset == old(self).offset,
    {
        match self.internal_next() {
            Ok(Some(e)) => Some(Ok(e)),
            Ok(None) => None,
            Err(e) => Some(Err(e)),
        }
    }
}

} // verus!
