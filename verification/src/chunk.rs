//! The fixed-layout chunk header, the per-chunk reader that builds a
//! [`Chunk`] (header, then metadata, then constant pool), and the top-level
//! reader that checks magic and version and dispatches.

use vstd::prelude::*;
use crate::constant_pool::ConstantPool;
use crate::metadata::{parse_metadata, spec_metadata_end, Metadata};
use crate::stream::{spec_be, spec_read_i32, spec_read_i64, ByteReader, HeapByteStream};
use crate::constant_pool::cpool_views;
use crate::types::{pool_views, spec_decode_fuel, TypeView};
use crate::value::{spec_value_end, ValueDescriptor, ValueView};
use crate::varint::spec_varint;
use crate::{Error, Result, Version, EVENT_TYPE_CONSTANT_POOL};

verus! {

/// Bit 0 of the header's feature flags: integers after the header use the
/// variable-width encoding.
pub const FEATURES_COMPRESSED_INTS: i32 = 1;

/// Bytes of the fixed chunk header: four magic bytes, two version words, and
/// the fixed fields below.
pub const CHUNK_HEADER_SIZE: u64 = 68;

/// The fixed-layout record at the start of a chunk.  Offsets are relative to
/// the chunk start; `body_start_offset` is the absolute position just past
/// the fixed header.
pub struct ChunkHeader {
    pub chunk_size: i64,
    pub constant_pool_offset: i64,
    pub metadata_offset: i64,
    pub start_time_nanos: i64,
    pub duration_nanos: i64,
    pub start_ticks: i64,
    pub ticks_per_second: i64,
    pub features: i32,
    pub body_start_offset: u64,
}

impl ChunkHeader {
    /// The invariant header parsing establishes: the chunk is at least as
    /// large as its fixed header and the region offsets lie inside it.
    pub open spec fn wf(self) -> bool {
        &&& self.chunk_size >= CHUNK_HEADER_SIZE
        &&& 0 <= self.constant_pool_offset < self.chunk_size
        &&& 0 <= self.metadata_offset < self.chunk_size
        &&& self.body_start_offset >= CHUNK_HEADER_SIZE
    }

    /// Whether integers after the header use the variable-width encoding.
    pub fn is_ints_compressed(&self) -> (r: bool)
        ensures
            r == (self.features & FEATURES_COMPRESSED_INTS != 0),
    {
        self.features & FEATURES_COMPRESSED_INTS != 0
    }

    /// The primitive decoder mode everything after the header uses.
    pub fn byte_reader(&self) -> (r: ByteReader)
        ensures
            r == spec_byte_reader(*self),
            r is CompressedInts <==> self.features & FEATURES_COMPRESSED_INTS != 0,
    {
        if self.is_ints_compressed() {
            ByteReader::CompressedInts
        } else {
            ByteReader::Raw
        }
    }

    /// Size of the event-record body: chunk size less the fixed header.
    pub fn chunk_body_size(&self) -> (n: u64)
        requires
            self.wf(),
        ensures
            n == self.chunk_size - CHUNK_HEADER_SIZE,
    {
        (self.chunk_size as u64) - CHUNK_HEADER_SIZE
    }
}

/// What parsing the fixed header fields at `pos` yields: the header and the
/// position past it, a short-read error, or `InvalidFormat` for a chunk size
/// below the fixed header or a region offset outside the chunk.
pub open spec fn spec_read_header(data: Seq<u8>, pos: int) -> Result<(ChunkHeader, int)> {
    if pos + 60 > data.len() {
        Err(Error::IoError)
    } else {
        let chunk_size = spec_be(data, pos, 8) as u64 as i64;
        let cp_off = spec_be(data, pos + 8, 8) as u64 as i64;
        let meta_off = spec_be(data, pos + 16, 8) as u64 as i64;
        if chunk_size < CHUNK_HEADER_SIZE {
            Err(Error::InvalidFormat)
        } else if !(0 <= cp_off < chunk_size) || !(0 <= meta_off < chunk_size) {
            Err(Error::InvalidFormat)
        } else {
            Ok(
                (
                    ChunkHeader {
                        chunk_size,
                        constant_pool_offset: cp_off,
                        metadata_offset: meta_off,
                        start_time_nanos: spec_be(data, pos + 24, 8) as u64 as i64,
                        duration_nanos: spec_be(data, pos + 32, 8) as u64 as i64,
                        start_ticks: spec_be(data, pos + 40, 8) as u64 as i64,
                        ticks_per_second: spec_be(data, pos + 48, 8) as u64 as i64,
                        features: spec_be(data, pos + 56, 4) as u32 as i32,
                        body_start_offset: (pos + 60) as u64,
                    },
                    pos + 60,
                ),
            )
        }
    }
}

/// The decoder mode a header's feature flags select.
pub open spec fn spec_byte_reader(h: ChunkHeader) -> ByteReader {
    if h.features & FEATURES_COMPRESSED_INTS != 0 {
        ByteReader::CompressedInts
    } else {
        ByteReader::Raw
    }
}

/// One chunk's decoded bookkeeping: header, type metadata, constant pool.
/// Immutable once constructed; events are decoded against it on demand.
pub struct Chunk {
    pub header: ChunkHeader,
    pub metadata: Metadata,
    pub constant_pool: ConstantPool,
}

/// Reads one chunk, positioned just after the chunk's magic and version.
pub struct ChunkReader {
}

impl ChunkReader {
    pub fn wrap() -> (r: ChunkReader) {
        ChunkReader {  }
    }

    /// Parses the fixed header fields, which always use the raw big-endian
    /// encoding.  A chunk declaring a size smaller than the fixed header, or
    /// region offsets outside the chunk, is a format error; the cursor never
    /// moves past the end of the source.
    pub fn read_header(&self, s: &mut HeapByteStream) -> (r: Result<ChunkHeader>)
        requires
            old(s).pos >= 8,
        ensures
            final(s).data@ == old(s).data@,
            old(s).pos <= old(s).data@.len() ==> final(s).pos <= final(s).data@.len(),
            match spec_read_header(old(s).data@, old(s).pos as int) {
                Ok(hp) => r == Result::<ChunkHeader>::Ok(hp.0) && final(s).pos == hp.1,
                Err(e) => r == Result::<ChunkHeader>::Err(e),
            },
            r is Ok ==> r->Ok_0.wf() && r->Ok_0.body_start_offset == old(s).pos + 60,
    {
        let reader = ByteReader::Raw;
        let chunk_size = reader.read_i64(s)?;
        let constant_pool_offset = reader.read_i64(s)?;
        let metadata_offset = reader.read_i64(s)?;
        let start_time_nanos = reader.read_i64(s)?;
        let duration_nanos = reader.read_i64(s)?;
        let start_ticks = reader.read_i64(s)?;
        let ticks_per_second = reader.read_i64(s)?;
        let features = reader.read_i32(s)?;
        let body_start_offset = s.position();

        if chunk_size < CHUNK_HEADER_SIZE as i64 {
            return Err(Error::InvalidFormat);
        }
        if constant_pool_offset < 0 || constant_pool_offset >= chunk_size {
            return Err(Error::InvalidFormat);
        }
        if metadata_offset < 0 || metadata_offset >= chunk_size {
            return Err(Error::InvalidFormat);
        }
        Ok(
            ChunkHeader {
                chunk_size,
                constant_pool_offset,
                metadata_offset,
                start_time_nanos,
                duration_nanos,
                start_ticks,
                ticks_per_second,
                features,
                body_start_offset,
            },
        )
    }

    /// Builds one chunk: header, then the metadata record the header points
    /// at, then the constant pool accumulated from every checkpoint record
    /// found scanning the body in order.
    pub fn read(&self, s: &mut HeapByteStream) -> (r: Result<Chunk>)
        requires
            old(s).pos >= 8,
        ensures
            final(s).data@ == old(s).data@,
            r is Ok ==> r->Ok_0.header.wf() && r->Ok_0.header.body_start_offset == old(s).pos
                + 60,
            r is Ok ==> (r->Ok_0.metadata.reader is CompressedInts <==> r->Ok_0.header.features
                & FEATURES_COMPRESSED_INTS != 0),
            match spec_chunk(old(s).data@, old(s).pos as int) {
                Ok(c4) => r is Ok && r->Ok_0.header == c4.0 && pool_views(
                    r->Ok_0.metadata.type_pool@,
                ) == c4.1 && r->Ok_0.metadata.type_pool.decode_fuel() == spec_decode_fuel(c4.2)
                    && r->Ok_0.metadata.reader == spec_byte_reader(c4.0) && cpool_views(
                    r->Ok_0.constant_pool@,
                ) == c4.3,
                Err(e) => r == Result::<Chunk>::Err(e),
            },
    {
        let ghost whole = spec_chunk(s.data@, s.pos as int);
        proof {
            reveal(spec_chunk);
        }
        let header = self.read_header(s)?;

        let chunk_start = header.body_start_offset - CHUNK_HEADER_SIZE;
        let chunk_size = header.chunk_size as u64;
        // The whole chunk must lie within the source; anything less is a
        // short read.
        if chunk_size > u64::MAX - chunk_start {
            return Err(Error::IoError);
        }
        let chunk_end = chunk_start + chunk_size;
        if chunk_end > s.len() as u64 {
            return Err(Error::IoError);
        }

        let reader = header.byte_reader();
        s.seek(chunk_start + header.metadata_offset as u64)?;
        let metadata = parse_metadata(s, reader)?;
        let ghost pm = pool_views(metadata.type_pool@);
        let ghost ccn = spec_metadata_end(
            old(s).data@,
            chunk_start as int + header.metadata_offset,
            spec_byte_reader(header),
        )->Ok_0.1;

        // Scan the body record by record, folding every checkpoint into the
        // pool in order: a later checkpoint supersedes an earlier one.
        let mut pool = ConstantPool::new();
        let body_size = header.chunk_body_size();
        let mut offset: u64 = 0;
        proof {
            assert(cpool_views(pool@) =~= Map::<(int, int), ValueView>::empty());
        }
        while offset < body_size
            invariant
                header.wf(),
                body_size == header.chunk_size - CHUNK_HEADER_SIZE,
                header.body_start_offset + body_size <= s.data@.len(),
                s.data@.len() <= usize::MAX,
                s.data@ == old(s).data@,
                reader == spec_byte_reader(header),
                pm == pool_views(metadata.type_pool@),
                metadata.type_pool.decode_fuel() == spec_decode_fuel(ccn),
                metadata.reader == spec_byte_reader(header),
                whole == spec_chunk(old(s).data@, old(s).pos as int),
                whole == (match spec_body_scan(
                    old(s).data@,
                    spec_byte_reader(header),
                    header.body_start_offset as int,
                    body_size as int,
                    offset as int,
                    pm,
                    spec_decode_fuel(ccn),
                    cpool_views(pool@),
                ) {
                    Ok(cpm) => Result::<
                        (ChunkHeader, Map<int, TypeView>, nat, Map<(int, int), ValueView>),
                    >::Ok((header, pm, ccn, cpm)),
                    Err(e) => Result::<
                        (ChunkHeader, Map<int, TypeView>, nat, Map<(int, int), ValueView>),
                    >::Err(e),
                }),
            decreases body_size - offset,
        {
            s.seek(header.body_start_offset + offset)?;
            let size = reader.read_i32(s)?;
            let record_type = reader.read_i64(s)?;
            if size < 1 {
                return Err(Error::InvalidFormat);
            }
            if (size as u32 as u64) > body_size - offset {
                return Err(Error::InvalidFormat);
            }
            if record_type == EVENT_TYPE_CONSTANT_POOL {
                let record_end = header.body_start_offset + offset + (size as u32 as u64);
                parse_checkpoint(s, &metadata, &mut pool, record_end)?;
            }
            offset = offset + (size as u32 as u64);
        }

        Ok(Chunk { header, metadata, constant_pool: pool })
    }
}

/// What `n` constant-pool entries (a compressed local index, then a value
/// of type `cid`) contribute, folded in order over the pool views `acc`: the
/// pool afterwards, and the position past the entries.
pub open spec fn spec_entries_end(
    data: Seq<u8>,
    pos: int,
    cid: i64,
    n: nat,
    pool: Map<int, TypeView>,
    mode: ByteReader,
    fuel: nat,
    acc: Map<(int, int), ValueView>,
) -> Result<(Map<(int, int), ValueView>, int)>
    decreases n,
{
    if n == 0 {
        Ok((acc, pos))
    } else {
        match spec_varint(data, pos) {
            Option::None => Err(Error::IoError),
            Some((idx, p1)) => match spec_value_end(data, p1, cid, pool, mode, fuel) {
                Ok(vp) => spec_entries_end(
                    data,
                    vp.1,
                    cid,
                    (n - 1) as nat,
                    pool,
                    mode,
                    fuel,
                    acc.insert((cid as int, (idx as i64) as int), vp.0),
                ),
                Err(e) => Err(e),
            },
        }
    }
}

/// What the checkpoint's groups — a type id, an entry count, the entries —
/// contribute over `acc`, ending exactly at the record's declared end, or
/// the exact error.  A group that runs past the record end is malformed.
pub open spec fn spec_checkpoint_groups(
    data: Seq<u8>,
    pos: int,
    end: int,
    pool: Map<int, TypeView>,
    mode: ByteReader,
    fuel: nat,
    acc: Map<(int, int), ValueView>,
) -> Result<(Map<(int, int), ValueView>, int)>
    decreases end - pos,
{
    if pos >= end {
        if pos == end {
            Ok((acc, pos))
        } else {
            Err(Error::InvalidFormat)
        }
    } else {
        match spec_read_i64(mode, data, pos) {
            Option::None => Err(Error::IoError),
            Some((cid, p1)) => match spec_varint(data, p1) {
                Option::None => Err(Error::IoError),
                Some((cnt, p2)) => match spec_entries_end(
                    data,
                    p2,
                    cid,
                    cnt as nat,
                    pool,
                    mode,
                    fuel,
                    acc,
                ) {
                    Err(e) => Err(e),
                    Ok(mp) => if mp.1 > end {
                        Err(Error::InvalidFormat)
                    } else if mp.1 <= pos {
                        Err(Error::InvalidFormat)
                    } else {
                        spec_checkpoint_groups(data, mp.1, end, pool, mode, fuel, mp.0)
                    },
                },
            },
        }
    }
}

/// What a whole checkpoint payload — timing fields, the delta-to-previous
/// offset, the flush flag, then the groups — contributes over `acc`, or its
/// exact error.
#[verifier::opaque]
pub open spec fn spec_checkpoint_end(
    data: Seq<u8>,
    pos: int,
    end: int,
    pool: Map<int, TypeView>,
    mode: ByteReader,
    fuel: nat,
    acc: Map<(int, int), ValueView>,
) -> Result<(Map<(int, int), ValueView>, int)> {
    match spec_read_i64(mode, data, pos) {
        Option::None => Err(Error::IoError),
        Some((st, p1)) => match spec_read_i64(mode, data, p1) {
            Option::None => Err(Error::IoError),
            Some((du, p2)) => match spec_read_i64(mode, data, p2) {
                Option::None => Err(Error::IoError),
                Some((dl, p3)) => if p3 < 0 || p3 >= data.len() {
                    Err(Error::IoError)
                } else {
                    spec_checkpoint_groups(data, p3 + 1, end, pool, mode, fuel, acc)
                },
            },
        },
    }
}

/// What scanning the whole body from `offset` contributes to the constant
/// pool: every checkpoint record folded over `acc` in body order; every
/// other record is skipped here (events are decoded on demand by the event
/// iterator).  A record size below one, or one overrunning the body, is
/// malformed.
pub open spec fn spec_body_scan(
    data: Seq<u8>,
    mode: ByteReader,
    body_start: int,
    body_size: int,
    offset: int,
    pool: Map<int, TypeView>,
    fuel: nat,
    acc: Map<(int, int), ValueView>,
) -> Result<Map<(int, int), ValueView>>
    decreases body_size - offset,
{
    if offset >= body_size {
        Ok(acc)
    } else if body_start + offset > data.len() {
        Err(Error::IoError)
    } else {
        match spec_read_i32(mode, data, body_start + offset) {
            Option::None => Err(Error::IoError),
            Some((size, p1)) => match spec_read_i64(mode, data, p1) {
                Option::None => Err(Error::IoError),
                Some((t, p2)) => if size < 1 {
                    Err(Error::InvalidFormat)
                } else if (size as u32) as int > body_size - offset {
                    Err(Error::InvalidFormat)
                } else if t == EVENT_TYPE_CONSTANT_POOL {
                    match spec_checkpoint_end(
                        data,
                        p2,
                        body_start + offset + (size as u32) as int,
                        pool,
                        mode,
                        fuel,
                        acc,
                    ) {
                        Ok(mp) => spec_body_scan(
                            data,
                            mode,
                            body_start,
                            body_size,
                            offset + (size as u32) as int,
                            pool,
                            fuel,
                            mp.0,
                        ),
                        Err(e) => Err(e),
                    }
                } else {
                    spec_body_scan(
                        data,
                        mode,
                        body_start,
                        body_size,
                        offset + (size as u32) as int,
                        pool,
                        fuel,
                        acc,
                    )
                },
            },
        }
    }
}

/// What one whole chunk, its magic and version already consumed at `pos`,
/// denotes: the parsed header, the type pool the metadata region declares
/// and its class count, and the constant pool folded from every checkpoint
/// record in body order — or the exact error of the first structural fault.
#[verifier::opaque]
pub open spec fn spec_chunk(data: Seq<u8>, pos: int) -> Result<
    (ChunkHeader, Map<int, TypeView>, nat, Map<(int, int), ValueView>),
> {
    match spec_read_header(data, pos) {
        Err(e) => Err(e),
        Ok(hp) => {
            let h = hp.0;
            let chunk_start = h.body_start_offset - CHUNK_HEADER_SIZE;
            if chunk_start + h.chunk_size > u64::MAX {
                Err(Error::IoError)
            } else if chunk_start + h.chunk_size > data.len() {
                Err(Error::IoError)
            } else {
                let mode = spec_byte_reader(h);
                match spec_metadata_end(data, chunk_start + h.metadata_offset, mode) {
                    Err(e) => Err(e),
                    Ok(mp) => match spec_body_scan(
                        data,
                        mode,
                        h.body_start_offset as int,
                        h.chunk_size - CHUNK_HEADER_SIZE,
                        0,
                        mp.0,
                        spec_decode_fuel(mp.1),
                        Map::<(int, int), ValueView>::empty(),
                    ) {
                        Err(e) => Err(e),
                        Ok(cpm) => Ok((h, mp.0, mp.1, cpm)),
                    },
                }
            }
        },
    }
}

/// Parses one checkpoint record's payload, the record header (size and type)
/// already consumed: timing fields, the delta-to-previous offset, the flush
/// flag, then groups of (type id, entry count, entries) until the record's
/// declared end.  Each entry is inserted in order, so a later entry
/// supersedes an earlier one with the same key.
#[verifier::rlimit(100)]
fn parse_checkpoint(
    s: &mut HeapByteStream,
    metadata: &Metadata,
    pool: &mut ConstantPool,
    record_end: u64,
) -> (r: Result<()>)
    ensures
        final(s).data@ == old(s).data@,
        match spec_checkpoint_end(
            old(s).data@,
            old(s).pos as int,
            record_end as int,
            pool_views(metadata.type_pool@),
            metadata.reader,
            metadata.type_pool.decode_fuel(),
            cpool_views(old(pool)@),
        ) {
            Ok(mp) => r is Ok && cpool_views(final(pool)@) == mp.0 && final(s).pos == mp.1,
            Err(e) => r == Result::<()>::Err(e),
        },
        r is Ok ==> final(s).pos == record_end,
        forall|k: (int, int)|
            old(pool)@.contains_key(k) ==> #[trigger] final(pool)@.contains_key(k),
{
    let ghost data = s.data@;
    let ghost vpool = pool_views(metadata.type_pool@);
    let ghost fuel = metadata.type_pool.decode_fuel();
    let ghost whole = spec_checkpoint_end(
        s.data@,
        s.pos as int,
        record_end as int,
        vpool,
        metadata.reader,
        fuel,
        cpool_views(pool@),
    );
    proof {
        reveal(spec_checkpoint_end);
    }
    let reader = &metadata.reader;
    // start time, duration, delta offset
    reader.read_i64(s)?;
    reader.read_i64(s)?;
    reader.read_i64(s)?;
    // flush flag
    s.read_u8()?;

    while (s.position()) < record_end
        invariant
            data == old(s).data@,
            s.data@ == data,
            s.pos <= s.data@.len(),
            *reader == metadata.reader,
            vpool == pool_views(metadata.type_pool@),
            fuel == metadata.type_pool.decode_fuel(),
            forall|k: (int, int)|
                old(pool)@.contains_key(k) ==> #[trigger] pool@.contains_key(k),
            whole == spec_checkpoint_end(
                data,
                old(s).pos as int,
                record_end as int,
                vpool,
                metadata.reader,
                fuel,
                cpool_views(old(pool)@),
            ),
            whole == spec_checkpoint_groups(
                data,
                s.pos as int,
                record_end as int,
                vpool,
                metadata.reader,
                fuel,
                cpool_views(pool@),
            ),
        decreases record_end - s.pos,
    {
        let ghost group_pos = s.pos as int;
        let ghost group_acc = cpool_views(pool@);
        let class_id = reader.read_i64(s)?;
        let count = reader.read_varint(s)?;
        let ghost entries_pos = s.pos as int;
        let mut j: u64 = 0;
        while j < count
            invariant
                j <= count,
                data == old(s).data@,
                s.data@ == data,
                group_pos < entries_pos <= s.pos,
                s.pos <= s.data@.len(),
                group_pos < record_end,
                spec_read_i64(metadata.reader, data, group_pos) matches Some(cp1) && spec_varint(
                    data,
                    cp1.1,
                ) == Some((count, entries_pos)) && cp1.0 == class_id,
                *reader == metadata.reader,
                vpool == pool_views(metadata.type_pool@),
                fuel == metadata.type_pool.decode_fuel(),
                forall|k: (int, int)|
                    old(pool)@.contains_key(k) ==> #[trigger] pool@.contains_key(k),
                whole == spec_checkpoint_end(
                    data,
                    old(s).pos as int,
                    record_end as int,
                    vpool,
                    metadata.reader,
                    fuel,
                    cpool_views(old(pool)@),
                ),
                whole == spec_checkpoint_groups(
                    data,
                    group_pos,
                    record_end as int,
                    vpool,
                    metadata.reader,
                    fuel,
                    group_acc,
                ),
                spec_entries_end(
                    data,
                    entries_pos,
                    class_id,
                    count as nat,
                    vpool,
                    metadata.reader,
                    fuel,
                    group_acc,
                ) == spec_entries_end(
                    data,
                    s.pos as int,
                    class_id,
                    (count - j) as nat,
                    vpool,
                    metadata.reader,
                    fuel,
                    cpool_views(pool@),
                ),
            decreases count - j,
        {
            let index = reader.read_varint(s)?;
            let value = ValueDescriptor::try_new(s, class_id, metadata)?;
            proof {
                crate::constant_pool::lemma_cpool_views_insert(
                    pool@,
                    (class_id as int, (index as i64) as int),
                    value,
                );
            }
            pool.insert(class_id, index as i64, value);
            j = j + 1;
        }
        proof {
            assert(spec_entries_end(
                data,
                s.pos as int,
                class_id,
                0nat,
                vpool,
                metadata.reader,
                fuel,
                cpool_views(pool@),
            ) == Result::<(Map<(int, int), ValueView>, int)>::Ok(
                (cpool_views(pool@), s.pos as int),
            ));
        }
        // A group that ran past the declared record end is malformed.
        if s.position() > record_end {
            return Err(Error::InvalidFormat);
        }
        proof {
            assert(spec_checkpoint_groups(
                data,
                group_pos,
                record_end as int,
                vpool,
                metadata.reader,
                fuel,
                group_acc,
            ) == spec_checkpoint_groups(
                data,
                s.pos as int,
                record_end as int,
                vpool,
                metadata.reader,
                fuel,
                cpool_views(pool@),
            ));
        }
    }
    if s.position() != record_end {
        return Err(Error::InvalidFormat);
    }
    Ok(())
}

/// The top-level reader over a fully buffered source: checks each chunk's
/// magic and version, then hands off to the version's chunk reader.
pub struct JfrReader {
    pub inner: HeapByteStream,
}

impl JfrReader {
    pub fn new(inner: HeapByteStream) -> (r: Self)
        ensures
            r.inner == inner,
    {
        JfrReader { inner }
    }

    /// The byte source, for driving an event iterator over a chunk this
    /// reader produced.
    pub fn into_inner(self) -> (r: HeapByteStream)
        ensures
            r == self.inner,
    {
        self.inner
    }

    /// Reads the chunk starting at the cursor: magic, version, then the
    /// chunk itself.  A magic mismatch is a format error; a version outside
    /// the supported set fails with that version.
    pub fn read_chunk(&mut self) -> (r: Result<Chunk>)
        ensures
            final(self).inner.data@ == old(self).inner.data@,
            r is Ok ==> r->Ok_0.header.wf(),
            ({
                let data = old(self).inner.data@;
                let pos = old(self).inner.pos as int;
                if pos + 4 > data.len() {
                    r == Result::<Chunk>::Err(Error::IoError)
                } else if !(data[pos] == 0x46 && data[pos + 1] == 0x4c && data[pos + 2] == 0x52
                    && data[pos + 3] == 0x00) {
                    // Exactly the four magic bytes were consumed.
                    r == Result::<Chunk>::Err(Error::InvalidFormat) && final(self).inner.pos == pos
                        + 4
                } else if pos + 8 > data.len() {
                    r == Result::<Chunk>::Err(Error::IoError)
                } else {
                    let major = spec_be(data, pos + 4, 2) as u16 as i16;
                    let minor = spec_be(data, pos + 6, 2) as u16 as i16;
                    if !((major == 1 || major == 2) && minor == 0) {
                        r == Result::<Chunk>::Err(
                            Error::UnsupportedVersion(Version { major, minor }),
                        )
                    } else {
                        match spec_chunk(data, pos + 8) {
                            Ok(c4) => r is Ok && r->Ok_0.header == c4.0 && pool_views(
                                r->Ok_0.metadata.type_pool@,
                            ) == c4.1 && r->Ok_0.metadata.type_pool.decode_fuel()
                                == spec_decode_fuel(c4.2) && r->Ok_0.metadata.reader
                                == spec_byte_reader(c4.0) && cpool_views(r->Ok_0.constant_pool@)
                                == c4.3,
                            Err(e) => r == Result::<Chunk>::Err(e),
                        }
                    }
                }
            }),
    {
        let m0 = self.inner.read_u8()?;
        let m1 = self.inner.read_u8()?;
        let m2 = self.inner.read_u8()?;
        let m3 = self.inner.read_u8()?;
        if !(m0 == 0x46 && m1 == 0x4c && m2 == 0x52 && m3 == 0x00) {
            return Err(Error::InvalidFormat);
        }
        let raw = ByteReader::Raw;
        let major = raw.read_i16(&mut self.inner)?;
        let minor = raw.read_i16(&mut self.inner)?;
        if !((major == 1 || major == 2) && minor == 0) {
            return Err(Error::UnsupportedVersion(Version { major, minor }));
        }
        ChunkReader::wrap().read(&mut self.inner)
    }
}

} // verus!
