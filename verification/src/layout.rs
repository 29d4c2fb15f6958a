//! Fixed binary layout of the upstream shared-memory segment: a header at
//! offset 0 followed by a sensor record table and a reading record table at
//! header-declared offsets and strides.  Records are not naturally aligned,
//! so every field is read byte by byte at its declared offset.

use vstd::prelude::*;
use crate::wire::{le_at, lemma_le_at_bound, pow256, read_u32_le, read_u64_le};

verus! {

/// Signature value the upstream publishes when it has shut down.
pub const CLOSED_SIGNATURE: u32 = 1145389380;

/// Byte length of the segment header.
pub const HEADER_SIZE: usize = 48;

/// Offset of the wide display name inside a sensor record.
pub const SENSOR_NAME_OFFSET: usize = 264;

/// Prefix of a sensor record that is consumed (id, instance, names).
pub const SENSOR_RECORD_SIZE: usize = 392;

/// Prefix of a reading record that is consumed.
pub const READING_RECORD_SIZE: usize = 460;

/// Offset of the owning-sensor index inside a reading record.
pub const READING_SENSOR_INDEX_OFFSET: usize = 4;

/// Offset of the id inside a reading record.
pub const READING_ID_OFFSET: usize = 8;

/// Offset of the current value inside a reading record.
pub const READING_VALUE_OFFSET: usize = 284;

/// Offset of the maximum value inside a reading record.
pub const READING_MAX_OFFSET: usize = 300;

/// Offset of the wide display label inside a reading record.
pub const READING_LABEL_OFFSET: usize = 316;

/// Offset of the wide unit string inside a reading record.
pub const READING_UNIT_OFFSET: usize = 444;

/// Byte length of a stored display name.
pub const NAME_LEN: usize = 128;

/// Byte length of a stored unit string.
pub const UNIT_LEN: usize = 16;

/// The segment header, with the poll timestamp kept as the bit pattern of a
/// signed 64-bit integer.
pub struct Header {
    pub signature: u32,
    pub version: u32,
    pub revision: u32,
    pub poll_time: u64,
    pub sensor_offset: u32,
    pub sensor_size: u32,
    pub sensor_count: u32,
    pub reading_offset: u32,
    pub reading_size: u32,
    pub reading_count: u32,
    pub polling_period: u32,
}

/// A sensor's identity: its stable numeric id together with its instance
/// number.  The id alone is not unique.
#[derive(Clone, Copy, Debug, PartialEq, Eq, Structural)]
pub struct SensorKey {
    pub id: u32,
    pub instance: u32,
}

/// The header held in the first `HEADER_SIZE` bytes of `s`.
pub open spec fn header_of(s: Seq<u8>) -> Header {
    Header {
        signature: le_at(s, 0, 4) as u32,
        version: le_at(s, 4, 4) as u32,
        revision: le_at(s, 8, 4) as u32,
        poll_time: le_at(s, 12, 8) as u64,
        sensor_offset: le_at(s, 20, 4) as u32,
        sensor_size: le_at(s, 24, 4) as u32,
        sensor_count: le_at(s, 28, 4) as u32,
        reading_offset: le_at(s, 32, 4) as u32,
        reading_size: le_at(s, 36, 4) as u32,
        reading_count: le_at(s, 40, 4) as u32,
        polling_period: le_at(s, 44, 4) as u32,
    }
}

/// First byte of sensor record `j`.
pub open spec fn sensor_base(h: Header, j: int) -> int {
    h.sensor_offset + h.sensor_size * j
}

/// First byte of reading record `i`.
pub open spec fn reading_base(h: Header, i: int) -> int {
    h.reading_offset + h.reading_size * i
}

pub open spec fn sensor_id_at(s: Seq<u8>, h: Header, j: int) -> u32 {
    le_at(s, sensor_base(h, j), 4) as u32
}

pub open spec fn sensor_instance_at(s: Seq<u8>, h: Header, j: int) -> u32 {
    le_at(s, sensor_base(h, j) + 4, 4) as u32
}

/// Identity of sensor `j`.
pub open spec fn sensor_key_at(s: Seq<u8>, h: Header, j: int) -> SensorKey {
    SensorKey { id: sensor_id_at(s, h, j), instance: sensor_instance_at(s, h, j) }
}

/// The raw 128 bytes of sensor `j`'s wide display name.
pub open spec fn sensor_name_at(s: Seq<u8>, h: Header, j: int) -> Seq<u8> {
    s.subrange(sensor_base(h, j) + 264, sensor_base(h, j) + 392)
}

/// Index into the sensor table of the sensor that owns reading `i`.
pub open spec fn reading_sensor_index_at(s: Seq<u8>, h: Header, i: int) -> u32 {
    le_at(s, reading_base(h, i) + 4, 4) as u32
}

pub open spec fn reading_id_at(s: Seq<u8>, h: Header, i: int) -> u32 {
    le_at(s, reading_base(h, i) + 8, 4) as u32
}

/// The raw 128 bytes of reading `i`'s wide display label.
pub open spec fn reading_label_at(s: Seq<u8>, h: Header, i: int) -> Seq<u8> {
    s.subrange(reading_base(h, i) + 316, reading_base(h, i) + 444)
}

/// The raw 16 bytes of reading `i`'s wide unit string.
pub open spec fn reading_unit_at(s: Seq<u8>, h: Header, i: int) -> Seq<u8> {
    s.subrange(reading_base(h, i) + 444, reading_base(h, i) + 460)
}

/// The 8 bytes of reading `i`'s current value (a little-endian double).
pub open spec fn reading_value_bytes_at(s: Seq<u8>, h: Header, i: int) -> Seq<u8> {
    s.subrange(reading_base(h, i) + 284, reading_base(h, i) + 292)
}

/// The 8 bytes of reading `i`'s maximum value (a little-endian double).
pub open spec fn reading_max_bytes_at(s: Seq<u8>, h: Header, i: int) -> Seq<u8> {
    s.subrange(reading_base(h, i) + 300, reading_base(h, i) + 308)
}

/// Both declared tables lie inside the segment and their strides are at
/// least as long as the record prefixes that are consumed.
pub open spec fn tables_in_bounds(s: Seq<u8>, h: Header) -> bool {
    &&& s.len() >= HEADER_SIZE
    &&& (h.sensor_count > 0 ==> {
        &&& h.sensor_size >= SENSOR_RECORD_SIZE
        &&& h.sensor_offset + h.sensor_size * h.sensor_count <= s.len()
    })
    &&& (h.reading_count > 0 ==> {
        &&& h.reading_size >= READING_RECORD_SIZE
        &&& h.reading_offset + h.reading_size * h.reading_count <= s.len()
    })
}

/// Reads the header out of the first `HEADER_SIZE` bytes.
pub fn parse_header(s: &[u8]) -> (h: Header)
    requires
        s@.len() >= HEADER_SIZE,
    ensures
        h == header_of(s@),
{
    proof {
        reveal_with_fuel(pow256, 9);
        lemma_le_at_bound(s@, 0, 4);
        lemma_le_at_bound(s@, 4, 4);
        lemma_le_at_bound(s@, 8, 4);
        lemma_le_at_bound(s@, 12, 8);
        lemma_le_at_bound(s@, 20, 4);
        lemma_le_at_bound(s@, 24, 4);
        lemma_le_at_bound(s@, 28, 4);
        lemma_le_at_bound(s@, 32, 4);
        lemma_le_at_bound(s@, 36, 4);
        lemma_le_at_bound(s@, 40, 4);
        lemma_le_at_bound(s@, 44, 4);
    }
    Header {
        signature: read_u32_le(s, 0),
        version: read_u32_le(s, 4),
        revision: read_u32_le(s, 8),
        poll_time: read_u64_le(s, 12),
        sensor_offset: read_u32_le(s, 20),
        sensor_size: read_u32_le(s, 24),
        sensor_count: read_u32_le(s, 28),
        reading_offset: read_u32_le(s, 32),
        reading_size: read_u32_le(s, 36),
        reading_count: read_u32_le(s, 40),
        polling_period: read_u32_le(s, 44),
    }
}

/// Decides `tables_in_bounds` for a segment.
pub fn check_tables_in_bounds(s: &[u8], h: &Header) -> (r: bool)
    requires
        s@.len() >= HEADER_SIZE,
    ensures
        r == tables_in_bounds(s@, *h),
{
    let len = s.len() as u128;
    proof {
        assert(s@.len() == s.len());
        assert(h.sensor_size as int * h.sensor_count as int <= 0xffffffff * 0xffffffff)
            by (nonlinear_arith)
            requires
                h.sensor_size as int <= 0xffffffff,
                h.sensor_count as int <= 0xffffffff,
                0 <= h.sensor_size as int,
                0 <= h.sensor_count as int,
        ;
        assert(h.reading_size as int * h.reading_count as int <= 0xffffffff * 0xffffffff)
            by (nonlinear_arith)
            requires
                h.reading_size as int <= 0xffffffff,
                h.reading_count as int <= 0xffffffff,
                0 <= h.reading_size as int,
                0 <= h.reading_count as int,
        ;
    }
    let sensors_ok = h.sensor_count == 0 || (h.sensor_size >= SENSOR_RECORD_SIZE as u32
        && h.sensor_offset as u128 + h.sensor_size as u128 * h.sensor_count as u128 <= len);
    let readings_ok = h.reading_count == 0 || (h.reading_size >= READING_RECORD_SIZE as u32
        && h.reading_offset as u128 + h.reading_size as u128 * h.reading_count as u128 <= len);
    sensors_ok && readings_ok
}

/// Byte offset of record `i` in a table declared at `off` with stride `size`
/// and `count` records that all lie inside `s`.
fn record_base(s: &[u8], off: u32, size: u32, count: u32, i: usize) -> (base: usize)
    requires
        i < count,
        off + size * count <= s@.len(),
    ensures
        base == off + size * i,
        base + size <= s@.len(),
{
    proof {
        assert(s@.len() == s.len());
        assert(0 <= size as int * i as int && size as int * i as int + size as int <= size
            as int * count as int)
            by (nonlinear_arith)
            requires
                0 <= i as int,
                (i as int) < (count as int),
                0 <= size as int,
        ;
    }
    (off as u64 + size as u64 * i as u64) as usize
}

/// Byte offset of sensor record `j`.
pub fn sensor_record_base(s: &[u8], h: &Header, j: usize) -> (base: usize)
    requires
        tables_in_bounds(s@, *h),
        j < h.sensor_count,
    ensures
        base == sensor_base(*h, j as int),
        base + SENSOR_RECORD_SIZE <= s@.len(),
{
    record_base(s, h.sensor_offset, h.sensor_size, h.sensor_count, j)
}

/// Byte offset of reading record `i`.
pub fn reading_record_base(s: &[u8], h: &Header, i: usize) -> (base: usize)
    requires
        tables_in_bounds(s@, *h),
        i < h.reading_count,
    ensures
        base == reading_base(*h, i as int),
        base + READING_RECORD_SIZE <= s@.len(),
{
    record_base(s, h.reading_offset, h.reading_size, h.reading_count, i)
}

/// Reading record `i` lies inside the segment, so its field byte ranges
/// have their declared widths.
pub proof fn lemma_record_ranges(s: Seq<u8>, h: Header, i: int)
    requires
        tables_in_bounds(s, h),
        0 <= i < h.reading_count,
    ensures
        0 <= reading_base(h, i),
        reading_base(h, i) + READING_RECORD_SIZE <= s.len(),
        reading_value_bytes_at(s, h, i).len() == 8,
        reading_max_bytes_at(s, h, i).len() == 8,
        reading_label_at(s, h, i).len() == NAME_LEN,
        reading_unit_at(s, h, i).len() == UNIT_LEN,
{
    assert(0 <= h.reading_size as int * i && h.reading_size as int * i + h.reading_size as int
        <= h.reading_size as int * h.reading_count as int)
        by (nonlinear_arith)
        requires
            0 <= i,
            i < h.reading_count as int,
            0 <= h.reading_size as int,
    ;
}

/// Sensor record `j` lies inside the segment, so its name range has its
/// declared width.
pub proof fn lemma_sensor_ranges(s: Seq<u8>, h: Header, j: int)
    requires
        tables_in_bounds(s, h),
        0 <= j < h.sensor_count,
    ensures
        0 <= sensor_base(h, j),
        sensor_base(h, j) + SENSOR_RECORD_SIZE <= s.len(),
        sensor_name_at(s, h, j).len() == NAME_LEN,
{
    assert(0 <= h.sensor_size as int * j && h.sensor_size as int * j + h.sensor_size as int
        <= h.sensor_size as int * h.sensor_count as int)
        by (nonlinear_arith)
        requires
            0 <= j,
            j < h.sensor_count as int,
            0 <= h.sensor_size as int,
    ;
}

/// Reads the owning-sensor table index of reading record `i`.
pub fn read_reading_sensor_index(s: &[u8], h: &Header, i: usize) -> (r: u32)
    requires
        tables_in_bounds(s@, *h),
        i < h.reading_count,
    ensures
        r == reading_sensor_index_at(s@, *h, i as int),
{
    let base = reading_record_base(s, h, i);
    proof {
        assert(s@.len() == s.len());
        reveal_with_fuel(pow256, 5);
        lemma_le_at_bound(s@, base + 4, 4);
    }
    read_u32_le(s, base + READING_SENSOR_INDEX_OFFSET)
}

/// Reads the id of reading record `i`.
pub fn read_reading_id(s: &[u8], h: &Header, i: usize) -> (r: u32)
    requires
        tables_in_bounds(s@, *h),
        i < h.reading_count,
    ensures
        r == reading_id_at(s@, *h, i as int),
{
    let base = reading_record_base(s, h, i);
    proof {
        assert(s@.len() == s.len());
        reveal_with_fuel(pow256, 5);
        lemma_le_at_bound(s@, base + 8, 4);
    }
    read_u32_le(s, base + READING_ID_OFFSET)
}

/// Reads the identity of sensor record `j`.
pub fn read_sensor_key(s: &[u8], h: &Header, j: usize) -> (r: SensorKey)
    requires
        tables_in_bounds(s@, *h),
        j < h.sensor_count,
    ensures
        r == sensor_key_at(s@, *h, j as int),
{
    let base = sensor_record_base(s, h, j);
    proof {
        assert(s@.len() == s.len());
        reveal_with_fuel(pow256, 5);
        lemma_le_at_bound(s@, base as int, 4);
        lemma_le_at_bound(s@, base + 4, 4);
    }
    SensorKey { id: read_u32_le(s, base), instance: read_u32_le(s, base + 4) }
}

/// Copies the `n` bytes of `s` that start at `a`.
pub fn copy_range(s: &[u8], a: usize, n: usize) -> (v: Vec<u8>)
    requires
        a + n <= s@.len(),
    ensures
        v@ == s@.subrange(a as int, a as int + n as int),
{
    proof {
        assert(s@.len() == s.len());
        assert(Seq::<u8>::empty() =~= s@.subrange(a as int, a as int));
    }
    let mut v: Vec<u8> = Vec::new();
    let mut k: usize = 0;
    while k < n
        invariant
            k <= n,
            a + n <= s@.len(),
            s@.len() <= usize::MAX,
            v@ == s@.subrange(a as int, a as int + k as int),
        decreases n - k,
    {
        v.push(s[a + k]);
        k = k + 1;
        proof {
            assert(v@ =~= s@.subrange(a as int, a as int + k as int));
        }
    }
    v
}

} // verus!
