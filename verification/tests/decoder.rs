use jfr_reader::chunk::{ChunkHeader, ChunkReader, JfrReader};
use jfr_reader::constant_pool::ConstantPool;
use jfr_reader::event::{Accessor, EventIterator};
use jfr_reader::metadata::Metadata;
use jfr_reader::stream::{utf8_valid, ByteReader, HeapByteStream, StringValue};
use jfr_reader::types::{TypeDescriptor, TypePool};
use jfr_reader::value::ValueDescriptor;
use jfr_reader::varint::encode_varint;
use jfr_reader::Error;

fn push_varint(out: &mut Vec<u8>, v: u64) {
    out.extend_from_slice(&encode_varint(v));
}

/// Prepends the record's size (itself included) as a one-byte varint.
fn record(payload: &[u8]) -> Vec<u8> {
    let total = payload.len() + 1;
    assert!(total < 128);
    let mut v = vec![total as u8];
    v.extend_from_slice(payload);
    v
}

fn push_string(out: &mut Vec<u8>, s: &str) {
    out.push(3);
    push_varint(out, s.len() as u64);
    out.extend_from_slice(s.as_bytes());
}

/// A metadata record declaring the primitive "int" (id 4) and a type "T"
/// (id 100) with one int field "x"; when `self_ref` is set, "T" carries a
/// second field "next" whose type id is T's own id.
fn metadata_record(self_ref: bool) -> Vec<u8> {
    let mut m = Vec::new();
    push_varint(&mut m, 0); // reserved metadata type id
    push_varint(&mut m, 0); // start time
    push_varint(&mut m, 0); // duration
    push_varint(&mut m, 1); // metadata revision id
    push_varint(&mut m, 4); // string count
    for s in ["T", "x", "int", "next"] {
        push_string(&mut m, s);
    }
    push_varint(&mut m, 2); // class count
    // class "int", id 4, no annotations, no elements
    push_varint(&mut m, 2);
    push_varint(&mut m, 4);
    push_varint(&mut m, 0);
    push_varint(&mut m, 0);
    // class "T", id 100, no annotations
    push_varint(&mut m, 0);
    push_varint(&mut m, 100);
    push_varint(&mut m, 0);
    push_varint(&mut m, if self_ref { 2 } else { 1 }); // element count
    // field "x": kind field, name "x", type id 4, no modifiers, no annotations
    push_varint(&mut m, 0);
    push_varint(&mut m, 1);
    push_varint(&mut m, 4);
    push_varint(&mut m, 0);
    push_varint(&mut m, 0);
    if self_ref {
        // field "next": type id 100 (T itself), constant-pool reference
        push_varint(&mut m, 0);
        push_varint(&mut m, 3);
        push_varint(&mut m, 100);
        push_varint(&mut m, 2); // constant-pool-reference modifier
        push_varint(&mut m, 0);
    }
    record(&m)
}

/// A checkpoint record registering, for type `type_id`, the given
/// (index, int value) entries; each value is a one-field struct decode.
fn checkpoint_record(type_id: u64, entries: &[(u64, u64)], self_ref: bool) -> Vec<u8> {
    let mut c = Vec::new();
    push_varint(&mut c, 1); // reserved constant-pool type id
    push_varint(&mut c, 0); // start time
    push_varint(&mut c, 0); // duration
    push_varint(&mut c, 0); // delta-to-previous offset
    c.push(0); // flush flag
    push_varint(&mut c, type_id);
    push_varint(&mut c, entries.len() as u64);
    for (idx, val) in entries {
        push_varint(&mut c, *idx);
        push_varint(&mut c, *val); // field "x"
        if self_ref {
            push_varint(&mut c, *idx); // field "next": pool index
        }
    }
    record(&c)
}

fn event_record(type_id: u64, x: u64) -> Vec<u8> {
    let mut e = Vec::new();
    push_varint(&mut e, type_id);
    push_varint(&mut e, x);
    record(&e)
}

/// Assembles a whole chunk (magic, version, header, body records) with the
/// compressed-integers feature selected.
fn build_chunk(version: (i16, i16), body_records: &[Vec<u8>], cp_offset_record: usize) -> Vec<u8> {
    let body: Vec<u8> = body_records.concat();
    let cp_offset: usize =
        68 + body_records[..cp_offset_record].iter().map(|r| r.len()).sum::<usize>();
    let chunk_size = 68 + body.len();
    let mut out = Vec::new();
    out.extend_from_slice(&[0x46, 0x4c, 0x52, 0x00]);
    out.extend_from_slice(&version.0.to_be_bytes());
    out.extend_from_slice(&version.1.to_be_bytes());
    out.extend_from_slice(&(chunk_size as i64).to_be_bytes());
    out.extend_from_slice(&(cp_offset as i64).to_be_bytes());
    out.extend_from_slice(&68i64.to_be_bytes()); // metadata offset
    out.extend_from_slice(&123i64.to_be_bytes()); // start time
    out.extend_from_slice(&456i64.to_be_bytes()); // duration
    out.extend_from_slice(&1i64.to_be_bytes()); // start ticks
    out.extend_from_slice(&1_000_000_000i64.to_be_bytes()); // ticks per second
    out.extend_from_slice(&1i32.to_be_bytes()); // features: compressed ints
    out.extend_from_slice(&body);
    out
}

fn standard_chunk() -> Vec<u8> {
    build_chunk(
        (2, 0),
        &[
            metadata_record(false),
            checkpoint_record(100, &[(0, 42)], false),
            event_record(100, 7),
        ],
        1,
    )
}

fn read_varint_at(bytes: &[u8]) -> (u64, usize) {
    let mut s = HeapByteStream::new(bytes.to_vec());
    let v = ByteReader::CompressedInts.read_varint(&mut s).unwrap();
    (v, s.pos)
}

#[test]
fn varint_round_trip() {
    let values: [u64; 12] = [
        0,
        1,
        127,
        128,
        300,
        16383,
        16384,
        0x7fffffff,
        (-1i64) as u64,
        i64::MIN as u64,
        u64::MAX,
        0x0100_0000_0000_0000,
    ];
    for v in values {
        let enc = encode_varint(v);
        assert!(enc.len() >= 1 && enc.len() <= 9);
        let (back, used) = read_varint_at(&enc);
        assert_eq!(back, v);
        assert_eq!(used, enc.len());
    }
    // Exact byte shapes: seven value bits per byte, high bit says more.
    assert_eq!(encode_varint(0), vec![0x00]);
    assert_eq!(encode_varint(127), vec![0x7f]);
    assert_eq!(encode_varint(128), vec![0x80, 0x01]);
    assert_eq!(encode_varint(300), vec![0xac, 0x02]);
}

#[test]
fn varint_nine_byte_boundary() {
    // Maximum-magnitude values need all nine bytes, the last carrying a full
    // eight bits.
    assert_eq!(encode_varint(u64::MAX).len(), 9);
    assert_eq!(encode_varint((-1i64) as u64).len(), 9);
    let mut s = HeapByteStream::new(encode_varint((-123456789i64) as u64));
    let v = ByteReader::CompressedInts.read_i64(&mut s).unwrap();
    assert_eq!(v, -123456789i64);
}

#[test]
fn varint_sequence_round_trip() {
    let values: [i64; 5] = [0, -1, 42, i64::MAX, i64::MIN];
    let mut bytes = Vec::new();
    for v in values {
        push_varint(&mut bytes, v as u64);
    }
    let mut s = HeapByteStream::new(bytes);
    for v in values {
        assert_eq!(ByteReader::CompressedInts.read_i64(&mut s).unwrap(), v);
    }
    assert_eq!(s.pos, s.data.len());
}

#[test]
fn string_tags() {
    let r = ByteReader::CompressedInts;
    let mut s = HeapByteStream::new(vec![0]);
    assert_eq!(r.read_string(&mut s).unwrap(), StringValue::Null);
    let mut s = HeapByteStream::new(vec![1]);
    assert_eq!(r.read_string(&mut s).unwrap(), StringValue::Utf8(vec![]));
    let mut s = HeapByteStream::new(vec![3, 3, b'a', b'b', b'c']);
    assert_eq!(r.read_string(&mut s).unwrap(), StringValue::Utf8(b"abc".to_vec()));
    assert_eq!(s.pos, 5);
}

#[test]
fn string_bad_tags_consume_nothing_more() {
    // Every tag outside {0, 1, 3} fails with InvalidString, the cursor one
    // past the tag alone.
    let r = ByteReader::CompressedInts;
    for tag in 0u16..=255 {
        let tag = tag as u8;
        if tag == 0 || tag == 1 || tag == 3 {
            continue;
        }
        let mut s = HeapByteStream::new(vec![tag, 0xaa, 0xbb]);
        assert_eq!(r.read_string(&mut s), Err(Error::InvalidString));
        assert_eq!(s.pos, 1);
    }
}

#[test]
fn string_invalid_utf8_fails() {
    // 0xC0 0x80 is an overlong encoding, never valid UTF-8.
    let r = ByteReader::CompressedInts;
    let mut s = HeapByteStream::new(vec![3, 2, 0xc0, 0x80]);
    assert_eq!(r.read_string(&mut s), Err(Error::InvalidFormat));
}

#[test]
fn utf8_validator() {
    assert!(utf8_valid(&"".as_bytes().to_vec()));
    assert!(utf8_valid(&"h\u{e9}llo \u{2713} \u{1f600}".as_bytes().to_vec()));
    assert!(!utf8_valid(&vec![0x80])); // lone continuation byte
    assert!(!utf8_valid(&vec![0xc3])); // truncated two-byte sequence
    assert!(!utf8_valid(&vec![0xed, 0xa0, 0x80])); // surrogate
    assert!(!utf8_valid(&vec![0xf8, 0x88, 0x80, 0x80])); // five-byte lead
    assert!(!utf8_valid(&vec![0xf4, 0x90, 0x80, 0x80])); // past U+10FFFF
}

#[test]
fn header_chunk_size_below_header_fails() {
    let mut bytes = standard_chunk();
    // Rewrite the declared chunk size to something below the fixed header.
    bytes[8..16].copy_from_slice(&10i64.to_be_bytes());
    let mut reader = JfrReader::new(HeapByteStream::new(bytes));
    assert_eq!(reader.read_chunk().err().unwrap(), Error::InvalidFormat);
}

#[test]
fn header_offsets_outside_chunk_fail() {
    let mut bytes = standard_chunk();
    let huge = (bytes.len() as i64) * 4;
    bytes[24..32].copy_from_slice(&huge.to_be_bytes()); // metadata offset
    let mut reader = JfrReader::new(HeapByteStream::new(bytes));
    assert_eq!(reader.read_chunk().err().unwrap(), Error::InvalidFormat);
}

#[test]
fn magic_mismatch_fails() {
    let mut bytes = standard_chunk();
    bytes[0] = b'X';
    let mut reader = JfrReader::new(HeapByteStream::new(bytes));
    assert_eq!(reader.read_chunk().err().unwrap(), Error::InvalidFormat);
}

#[test]
fn unsupported_version_fails() {
    let bytes = build_chunk((9, 0), &[metadata_record(false)], 0);
    let mut reader = JfrReader::new(HeapByteStream::new(bytes));
    match reader.read_chunk() {
        Err(Error::UnsupportedVersion(v)) => {
            assert_eq!(v.major, 9);
            assert_eq!(v.minor, 0);
        }
        other => panic!("expected UnsupportedVersion, got {:?}", other.err()),
    }
}

#[test]
fn self_referential_type_parses() {
    // "T" carries a field whose type id is T's own id; metadata parsing must
    // terminate and the descriptor must be reachable under that id.
    let bytes = build_chunk(
        (2, 0),
        &[
            metadata_record(true),
            checkpoint_record(100, &[(0, 42)], true),
            event_record(100, 7),
        ],
        1,
    );
    let mut reader = JfrReader::new(HeapByteStream::new(bytes));
    let chunk = reader.read_chunk().unwrap();
    let td = chunk.metadata.type_pool.get(100).unwrap();
    assert_eq!(td.name, b"T".to_vec());
    assert_eq!(td.fields.len(), 2);
    assert_eq!(td.fields[1].name, b"next".to_vec());
    assert_eq!(td.fields[1].class_id, 100);
    assert!(td.fields[1].is_constant_pool_reference);
}

#[test]
fn constant_pool_later_insert_wins() {
    let mut pool = ConstantPool::new();
    pool.insert(1, 0, ValueDescriptor::Int32(1));
    pool.insert(2, 5, ValueDescriptor::Int32(9));
    pool.insert(1, 0, ValueDescriptor::Int32(2));
    assert_eq!(pool.get(1, 0), Some(&ValueDescriptor::Int32(2)));
    assert_eq!(pool.get(2, 5), Some(&ValueDescriptor::Int32(9)));
    assert_eq!(pool.get(3, 3), None);
}

#[test]
fn overlapping_checkpoints_later_wins() {
    // Two checkpoint records: the shared key takes the later record's value,
    // every other key survives.
    let bytes = build_chunk(
        (2, 0),
        &[
            metadata_record(false),
            checkpoint_record(100, &[(0, 42), (1, 11)], false),
            checkpoint_record(100, &[(0, 43)], false),
        ],
        2,
    );
    let mut reader = JfrReader::new(HeapByteStream::new(bytes));
    let chunk = reader.read_chunk().unwrap();
    let v0 = chunk.constant_pool.get(100, 0).unwrap();
    let a0 = Accessor::new(&chunk, v0);
    match a0.get_field("x") {
        Some(a) => assert_eq!(*a.value, ValueDescriptor::Int32(43)),
        None => panic!("missing field"),
    }
    let v1 = chunk.constant_pool.get(100, 1).unwrap();
    let a1 = Accessor::new(&chunk, v1);
    assert_eq!(*a1.get_field("x").unwrap().value, ValueDescriptor::Int32(11));
    assert_eq!(chunk.constant_pool.get(100, 2), None);
}

#[test]
fn resolve_non_reference_is_identity() {
    let bytes = standard_chunk();
    let mut reader = JfrReader::new(HeapByteStream::new(bytes));
    let chunk = reader.read_chunk().unwrap();
    let v = ValueDescriptor::Int32(5);
    let a = Accessor::new(&chunk, &v);
    let r = a.resolve().unwrap();
    assert_eq!(*r.value, ValueDescriptor::Int32(5));
}

#[test]
fn resolve_absent_key_is_none() {
    let bytes = standard_chunk();
    let mut reader = JfrReader::new(HeapByteStream::new(bytes));
    let chunk = reader.read_chunk().unwrap();
    let v = ValueDescriptor::ConstantPool { class_id: 999, constant_index: 9 };
    let a = Accessor::new(&chunk, &v);
    assert!(a.resolve().is_none());
}

#[test]
fn end_to_end_minimal_chunk() {
    // One metadata record defining "T" with int field "x", one checkpoint
    // with (T, 0) = {x: 42}, one event of type T with x = 7.
    let bytes = standard_chunk();
    let mut reader = JfrReader::new(HeapByteStream::new(bytes.clone()));
    let chunk = reader.read_chunk().unwrap();

    let mut it = EventIterator::new(&chunk, HeapByteStream::new(bytes));
    let ev = it.next().unwrap().unwrap();
    assert_eq!(ev.class.name, b"T".to_vec());
    let x = ev.value().get_field("x").unwrap();
    assert_eq!(*x.value, ValueDescriptor::Int32(7));
    assert!(it.next().is_none());

    // A manually constructed reference to (T, 0) resolves to {x: 42}.
    let reference = ValueDescriptor::ConstantPool { class_id: 100, constant_index: 0 };
    let a = Accessor::new(&chunk, &reference);
    let resolved = a.resolve().unwrap();
    let x = resolved.get_field("x").unwrap();
    assert_eq!(*x.value, ValueDescriptor::Int32(42));
    // get_field on the unresolved reference resolves one level itself.
    let b = Accessor::new(&chunk, &reference);
    assert_eq!(*b.get_field("x").unwrap().value, ValueDescriptor::Int32(42));
    // get_field_raw does not.
    let c = Accessor::new(&chunk, &reference);
    assert!(c.get_field_raw("x").is_none());
}

#[test]
fn events_from_resumes_at_offset() {
    let bytes = standard_chunk();
    let mut reader = JfrReader::new(HeapByteStream::new(bytes.clone()));
    let chunk = reader.read_chunk().unwrap();
    // First pass: note the event's record offset.
    let mut it = chunk.events_from(HeapByteStream::new(bytes.clone()), 0);
    let first = it.next().unwrap().unwrap();
    let at = first.byte_offset;
    // Second pass, resumed at that boundary, yields the same event.
    let mut it = chunk.events_from(HeapByteStream::new(bytes), at);
    let again = it.next().unwrap().unwrap();
    assert_eq!(again.byte_offset, at);
    assert_eq!(*again.value().get_field("x").unwrap().value, ValueDescriptor::Int32(7));
}

#[test]
fn iterator_terminates_at_body_size() {
    let bytes = standard_chunk();
    let body_size = (bytes.len() - 68) as u64;
    let mut reader = JfrReader::new(HeapByteStream::new(bytes.clone()));
    let chunk = reader.read_chunk().unwrap();
    let mut it = EventIterator::new(&chunk, HeapByteStream::new(bytes));
    assert!(it.next().unwrap().is_ok());
    assert!(it.next().is_none());
    assert_eq!(it.offset, body_size);
    // A caller-seeked cursor at the end also terminates cleanly.
    it.seek(body_size);
    assert!(it.next().is_none());
}

#[test]
fn iterator_overrunning_record_fails() {
    // The last record's declared size would pass the end of the body: the
    // iterator must fail with InvalidFormat rather than over-read.
    let header = ChunkHeader {
        chunk_size: 68 + 3,
        constant_pool_offset: 0,
        metadata_offset: 0,
        start_time_nanos: 0,
        duration_nanos: 0,
        start_ticks: 0,
        ticks_per_second: 1,
        features: 1,
        body_start_offset: 68,
    };
    let chunk = jfr_reader::chunk::Chunk {
        header,
        metadata: Metadata { type_pool: TypePool::new(), reader: ByteReader::CompressedInts },
        constant_pool: ConstantPool::new(),
    };
    let mut data = vec![0u8; 68];
    data.extend_from_slice(&[127, 100, 0]); // declared size 127 in a 3-byte body
    let mut it = EventIterator::new(&chunk, HeapByteStream::new(data));
    assert!(matches!(it.internal_next(), Err(Error::InvalidFormat)));
}

#[test]
fn array_fields_and_iteration() {
    // A type with an int-array field, exercised end to end.
    let mut m = Vec::new();
    push_varint(&mut m, 0);
    push_varint(&mut m, 0);
    push_varint(&mut m, 0);
    push_varint(&mut m, 1);
    push_varint(&mut m, 3); // strings
    for s in ["A", "xs", "int"] {
        push_string(&mut m, s);
    }
    push_varint(&mut m, 2); // classes
    push_varint(&mut m, 2); // "int"
    push_varint(&mut m, 4);
    push_varint(&mut m, 0);
    push_varint(&mut m, 0);
    push_varint(&mut m, 0); // "A"
    push_varint(&mut m, 100);
    push_varint(&mut m, 0);
    push_varint(&mut m, 1);
    push_varint(&mut m, 0); // field element
    push_varint(&mut m, 1); // name "xs"
    push_varint(&mut m, 4); // int
    push_varint(&mut m, 1); // array modifier
    push_varint(&mut m, 0);
    let meta = record(&m);

    let mut e = Vec::new();
    push_varint(&mut e, 100);
    push_varint(&mut e, 3); // element count
    push_varint(&mut e, 10);
    push_varint(&mut e, 20);
    push_varint(&mut e, 30);
    let ev = record(&e);

    let mut e2 = Vec::new();
    push_varint(&mut e2, 100);
    push_varint(&mut e2, 0); // empty array
    let ev2 = record(&e2);

    let bytes = build_chunk((1, 0), &[meta, ev, ev2], 0);
    let mut reader = JfrReader::new(HeapByteStream::new(bytes.clone()));
    let chunk = reader.read_chunk().unwrap();
    let mut it = EventIterator::new(&chunk, HeapByteStream::new(bytes));
    let event = it.next().unwrap().unwrap();
    let xs = event.value().get_field("xs").unwrap();
    let mut elems = xs.as_iter().unwrap();
    let mut seen = Vec::new();
    while let Some(a) = elems.next() {
        match *a.value {
            ValueDescriptor::Int32(v) => seen.push(v),
            _ => panic!("unexpected element"),
        }
    }
    assert_eq!(seen, vec![10, 20, 30]);

    // An empty array decodes to an array of no elements.
    let event = it.next().unwrap().unwrap();
    let xs = event.value().get_field("xs").unwrap();
    let mut elems = xs.as_iter().unwrap();
    assert!(elems.next().is_none());
    assert!(it.next().is_none());
}

#[test]
fn primitive_decoding_via_pool() {
    // Raw mode: a float primitive decodes to its IEEE 754 bit pattern.
    let mut pool = TypePool::new();
    pool.insert(TypeDescriptor {
        id: 5,
        name: b"float".to_vec(),
        fields: Vec::new(),
        annotations: Vec::new(),
    });
    let metadata = Metadata { type_pool: pool, reader: ByteReader::Raw };
    let mut s = HeapByteStream::new(vec![0x3f, 0x80, 0x00, 0x00]);
    let v = ValueDescriptor::try_new(&mut s, 5, &metadata).unwrap();
    assert_eq!(v, ValueDescriptor::Float32Bits(0x3f800000));
    assert_eq!(f32::from_bits(0x3f800000), 1.0f32);
    // An id absent from the pool is a missing-class error.
    let mut s = HeapByteStream::new(vec![0]);
    assert_eq!(ValueDescriptor::try_new(&mut s, 77, &metadata), Err(Error::ClassNotFound(77)));
}

#[test]
fn metadata_size_mismatch_fails() {
    let mut records = vec![metadata_record(false)];
    // Corrupt the declared metadata record size.
    records[0][0] += 1;
    let bytes = build_chunk((2, 0), &records, 0);
    let mut reader = JfrReader::new(HeapByteStream::new(bytes));
    assert_eq!(reader.read_chunk().err().unwrap(), Error::InvalidFormat);
}

#[test]
fn raw_mode_header_reads() {
    let mut s = HeapByteStream::new(vec![0x12, 0x34, 0x56, 0x78, 0x9a, 0xbc, 0xde, 0xf0]);
    assert_eq!(ByteReader::Raw.read_i64(&mut s).unwrap(), 0x123456789abcdef0u64 as i64);
    let mut s = HeapByteStream::new(vec![0xff, 0xff, 0xff, 0xfe]);
    assert_eq!(ByteReader::Raw.read_i32(&mut s).unwrap(), -2);
    let mut s = HeapByteStream::new(vec![0x80, 0x00]);
    assert_eq!(ByteReader::Raw.read_i16(&mut s).unwrap(), i16::MIN);
}

#[test]
fn chunk_reader_header_fields() {
    let bytes = standard_chunk();
    let mut s = HeapByteStream::new(bytes.clone());
    s.seek(8).unwrap();
    let header = ChunkReader::wrap().read_header(&mut s).unwrap();
    assert_eq!(header.chunk_size as usize, bytes.len());
    assert_eq!(header.metadata_offset, 68);
    assert_eq!(header.start_time_nanos, 123);
    assert_eq!(header.duration_nanos, 456);
    assert_eq!(header.ticks_per_second, 1_000_000_000);
    assert!(header.is_ints_compressed());
    assert_eq!(header.body_start_offset, 68);
    assert_eq!(header.chunk_body_size() as usize, bytes.len() - 68);
}

#[test]
fn truncated_chunk_is_io_error() {
    let bytes = standard_chunk();
    // Cut the source short of the declared chunk size.
    let cut = bytes[..bytes.len() - 4].to_vec();
    let mut reader = JfrReader::new(HeapByteStream::new(cut));
    assert_eq!(reader.read_chunk().err().unwrap(), Error::IoError);
    // Shorter than the fixed header itself.
    let mut reader = JfrReader::new(HeapByteStream::new(bytes[..20].to_vec()));
    assert_eq!(reader.read_chunk().err().unwrap(), Error::IoError);
}

#[test]
fn absent_field_is_none() {
    let bytes = standard_chunk();
    let mut reader = JfrReader::new(HeapByteStream::new(bytes.clone()));
    let chunk = reader.read_chunk().unwrap();
    let mut it = EventIterator::new(&chunk, HeapByteStream::new(bytes));
    let ev = it.next().unwrap().unwrap();
    assert!(ev.value().get_field("missing").is_none());
    // A non-struct value has no fields at all.
    let v = ValueDescriptor::Int64(9);
    assert!(Accessor::new(&chunk, &v).get_field("x").is_none());
    assert!(Accessor::new(&chunk, &v).as_iter().is_none());
}

#[test]
fn unknown_event_type_is_class_not_found() {
    let bytes = build_chunk(
        (2, 0),
        &[metadata_record(false), event_record(555, 7)],
        0,
    );
    let mut reader = JfrReader::new(HeapByteStream::new(bytes.clone()));
    let chunk = reader.read_chunk().unwrap();
    let mut it = EventIterator::new(&chunk, HeapByteStream::new(bytes));
    match it.next().unwrap() {
        Err(Error::ClassNotFound(id)) => assert_eq!(id, 555),
        other => panic!("expected ClassNotFound, got {:?}", other.map(|e| e.byte_offset)),
    }
}

#[test]
fn value_overrunning_record_fails() {
    // A record whose declared size stops before its value ends: the decoded
    // value runs past the record end, which is a size inconsistency.
    let bytes = standard_chunk();
    let mut reader = JfrReader::new(HeapByteStream::new(bytes));
    let chunk = reader.read_chunk().unwrap();
    let mut body = vec![0u8; 68];
    body.extend_from_slice(&[2, 100, 7]); // size 2 covers only size and type
    let mut it = EventIterator::new(&chunk, HeapByteStream::new(body));
    assert!(matches!(it.internal_next(), Err(Error::InvalidFormat)));
}
