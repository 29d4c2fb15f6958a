//! Sensor groups in the reading table.  Readings that belong to one sensor
//! are assumed to be contiguous; a run of readings with the same owning
//! sensor index forms a group, and each group becomes one catalog entry.

use vstd::prelude::*;
use crate::layout::{
    read_reading_sensor_index, reading_sensor_index_at, sensor_key_at, sensor_name_at,
    tables_in_bounds, Header, SensorKey,
};

verus! {

/// Reading `i` opens a new sensor group: it is the first reading, or its
/// owning sensor's table index differs from the previous reading's.
pub open spec fn is_group_start(s: Seq<u8>, h: Header, i: int) -> bool {
    i == 0 || reading_sensor_index_at(s, h, i) != reading_sensor_index_at(s, h, i - 1)
}

/// The reading-table indices at which a new sensor group starts, among the
/// first `n` readings, in order.
pub open spec fn group_starts(s: Seq<u8>, h: Header, n: int) -> Seq<int>
    decreases n,
{
    if n <= 0 {
        Seq::<int>::empty()
    } else if is_group_start(s, h, n - 1) {
        group_starts(s, h, n - 1) + seq![n - 1]
    } else {
        group_starts(s, h, n - 1)
    }
}

/// How many sensor groups the reading table holds.
pub open spec fn group_count(s: Seq<u8>, h: Header) -> int {
    group_starts(s, h, h.reading_count as int).len() as int
}

/// First reading of group `g`.
pub open spec fn start_of_group(s: Seq<u8>, h: Header, g: int) -> int {
    group_starts(s, h, h.reading_count as int)[g]
}

/// Sensor-table index of the sensor that owns group `g`.
pub open spec fn sensor_of_group(s: Seq<u8>, h: Header, g: int) -> int {
    reading_sensor_index_at(s, h, start_of_group(s, h, g)) as int
}

/// Identity of the sensor that owns group `g`.
pub open spec fn key_of_group(s: Seq<u8>, h: Header, g: int) -> SensorKey {
    sensor_key_at(s, h, sensor_of_group(s, h, g))
}

/// Raw display name of the sensor that owns group `g`.
pub open spec fn name_of_group(s: Seq<u8>, h: Header, g: int) -> Seq<u8> {
    sensor_name_at(s, h, sensor_of_group(s, h, g))
}

/// One past the last reading of group `g`: the next group's start, or the
/// whole table's length for the last group.
pub open spec fn end_of_group(s: Seq<u8>, h: Header, g: int) -> int {
    if g == group_count(s, h) - 1 {
        h.reading_count as int
    } else {
        start_of_group(s, h, g + 1)
    }
}

/// Every reading's owning sensor index lies within the sensor table, and the
/// table groups into at most one run per sensor-table slot, so that the
/// group walk never runs out of sensor slots.
pub open spec fn topology_ok(s: Seq<u8>, h: Header) -> bool {
    &&& forall|i: int|
        0 <= i < h.reading_count ==> (#[trigger] reading_sensor_index_at(s, h, i) as int)
            < h.sensor_count
    &&& group_count(s, h) <= h.sensor_count
}

/// `group_starts(n)` lists, strictly increasing, indices below `n`, and
/// begins with 0 whenever `n > 0`.
pub proof fn lemma_group_starts_props(s: Seq<u8>, h: Header, n: int)
    requires
        0 <= n,
    ensures
        group_starts(s, h, n).len() <= n,
        n > 0 ==> group_starts(s, h, n).len() >= 1,
        forall|k: int|
            0 <= k < group_starts(s, h, n).len() ==> 0 <= #[trigger] group_starts(s, h, n)[k]
                < n,
        n > 0 ==> group_starts(s, h, n)[0] == 0,
    decreases n,
{
    if n > 0 {
        lemma_group_starts_props(s, h, n - 1);
    }
}

/// `group_starts(n)` is strictly increasing.
pub proof fn lemma_group_starts_increasing(s: Seq<u8>, h: Header, n: int, k: int)
    requires
        0 <= n,
        0 <= k,
        k + 1 < group_starts(s, h, n).len(),
    ensures
        group_starts(s, h, n)[k] < group_starts(s, h, n)[k + 1],
    decreases n,
{
    if n > 0 {
        if is_group_start(s, h, n - 1) && k + 1 == group_starts(s, h, n - 1).len() {
            lemma_group_starts_props(s, h, n - 1);
            assert(group_starts(s, h, n)[k + 1] == n - 1);
            assert(group_starts(s, h, n)[k] == group_starts(s, h, n - 1)[k]);
        } else {
            lemma_group_starts_increasing(s, h, n - 1, k);
        }
    }
}

/// For `m <= n`, `group_starts(m)` is a prefix of `group_starts(n)`.
pub proof fn lemma_group_starts_prefix(s: Seq<u8>, h: Header, m: int, n: int)
    requires
        0 <= m <= n,
    ensures
        group_starts(s, h, m).len() <= group_starts(s, h, n).len(),
        forall|k: int|
            0 <= k < group_starts(s, h, m).len() ==> #[trigger] group_starts(s, h, n)[k]
                == group_starts(s, h, m)[k],
    decreases n - m,
{
    if m < n {
        lemma_group_starts_prefix(s, h, m, n - 1);
    }
}

/// Reading `i` has the same owning sensor index as the first reading of its
/// group, which `group_starts(i + 1)` ends with.
pub proof fn lemma_group_constant(s: Seq<u8>, h: Header, i: int)
    requires
        0 <= i,
    ensures
        group_starts(s, h, i + 1).len() >= 1,
        group_starts(s, h, i + 1).last() <= i,
        reading_sensor_index_at(s, h, group_starts(s, h, i + 1).last())
            == reading_sensor_index_at(s, h, i),
    decreases i,
{
    if i > 0 && !is_group_start(s, h, i) {
        lemma_group_constant(s, h, i - 1);
    }
}

/// Sum of the sizes of the groups before `g`: the number of readings that
/// belong to sensors listed before sensor `g` in the catalog.
pub open spec fn readings_before(s: Seq<u8>, h: Header, g: int) -> int
    decreases g,
{
    if g <= 0 {
        0
    } else {
        readings_before(s, h, g - 1) + (end_of_group(s, h, g - 1) - start_of_group(s, h, g - 1))
    }
}

/// A catalog sensor's reading range starts right where the previous groups
/// end: group `g` starts at the sum of the reading counts of groups `0..g`,
/// so its catalog `offset` field, `2 + 2 * start_of_group(g)`, is determined
/// by the reading counts of the sensors listed before it.
pub proof fn lemma_start_is_prefix_sum(s: Seq<u8>, h: Header, g: int)
    requires
        0 <= g < group_count(s, h),
    ensures
        start_of_group(s, h, g) == readings_before(s, h, g),
    decreases g,
{
    lemma_group_starts_props(s, h, h.reading_count as int);
    if g > 0 {
        lemma_start_is_prefix_sum(s, h, g - 1);
        assert(end_of_group(s, h, g - 1) == start_of_group(s, h, g));
    }
}

/// Decides `topology_ok` for a segment.
pub fn check_topology(s: &[u8], h: &Header) -> (r: bool)
    requires
        tables_in_bounds(s@, *h),
    ensures
        r == topology_ok(s@, *h),
{
    let n = h.reading_count;
    let mut cnt: u32 = 0;
    let mut last: u32 = 0;
    let mut i: u32 = 0;
    while i < n
        invariant
            i <= n,
            n == h.reading_count,
            cnt <= i,
            tables_in_bounds(s@, *h),
            forall|j: int|
                0 <= j < i ==> (#[trigger] reading_sensor_index_at(s@, *h, j) as int)
                    < h.sensor_count,
            cnt == group_starts(s@, *h, i as int).len(),
            i > 0 ==> last == reading_sensor_index_at(s@, *h, i - 1),
        decreases n - i,
    {
        let sidx = read_reading_sensor_index(s, h, i as usize);
        if sidx >= h.sensor_count {
            return false;
        }
        if i == 0 {
            cnt = 1;
            last = sidx;
        } else if sidx != last {
            cnt = cnt + 1;
            last = sidx;
        }
        i = i + 1;
    }
    cnt <= h.sensor_count
}

} // verus!
