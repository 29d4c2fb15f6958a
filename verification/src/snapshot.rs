//! The diff engine.  A `Snapshot` carries the previous poll's sensor
//! identities, names and reading ids across polls; `poll` decodes a fresh
//! segment, classifies the poll as value-only or structural, updates the
//! snapshot in place, and produces the wire frame and, on structural change,
//! the catalog.

use vstd::prelude::*;
use crate::catalog::{build_catalog, catalog_decodable, catalog_json};
use crate::errors::PollError;
use crate::groups::{
    check_topology, group_count, group_starts, is_group_start, key_of_group,
    lemma_group_constant, lemma_group_starts_increasing, lemma_group_starts_prefix,
    lemma_group_starts_props, name_of_group, start_of_group, topology_ok,
};
use crate::layout::{
    check_tables_in_bounds, copy_range, header_of, parse_header, reading_id_at,
    reading_label_at, reading_max_bytes_at, reading_record_base, reading_sensor_index_at,
    reading_unit_at, reading_value_bytes_at, read_reading_id, read_reading_sensor_index,
    read_sensor_key, sensor_record_base, tables_in_bounds, Header, SensorKey,
    CLOSED_SIGNATURE, HEADER_SIZE, NAME_LEN, READING_LABEL_OFFSET, READING_MAX_OFFSET,
    READING_UNIT_OFFSET, READING_VALUE_OFFSET, SENSOR_NAME_OFFSET, UNIT_LEN,
};
use crate::wire::{as_signed, le_of, lemma_le_of_len, push_u64_le, signed_gt};

verus! {

/// The stored identity at position `k` after the arrays were resized to the
/// new table sizes: resizing keeps old entries and pads with a zero key.
pub open spec fn padded_key(olds: Seq<SensorKey>, k: int) -> SensorKey {
    if 0 <= k < olds.len() {
        olds[k]
    } else {
        SensorKey { id: 0, instance: 0 }
    }
}

/// The stored reading id at position `k` after resizing: zero past the end.
pub open spec fn padded_id(olds: Seq<u32>, k: int) -> u32 {
    if 0 <= k < olds.len() {
        olds[k]
    } else {
        0
    }
}

/// `m` zero bytes.
pub open spec fn zero_bytes(m: int) -> Seq<u8> {
    Seq::new(m as nat, |i: int| 0u8)
}

/// The stored name at position `k` after resizing: zero-filled past the end.
pub open spec fn padded_name(olds: Seq<Vec<u8>>, m: int, k: int) -> Seq<u8> {
    if 0 <= k < olds.len() {
        olds[k]@
    } else {
        zero_bytes(m)
    }
}

/// The table sizes changed since the previous poll, so the arrays are
/// resized and the poll is structural.
pub open spec fn resize_needed(snap: Snapshot, h: Header) -> bool {
    h.sensor_count != snap.sensor_names@.len() || h.reading_count != snap.reading_names@.len()
}

/// Group `g`'s sensor identity differs from what the snapshot stored at
/// position `g`.
pub open spec fn sensor_changed(snap: Snapshot, s: Seq<u8>, h: Header, g: int) -> bool {
    padded_key(snap.sensor_ids@, g) != key_of_group(s, h, g)
}

/// The group that reading `i` belongs to.
pub open spec fn group_idx(s: Seq<u8>, h: Header, i: int) -> int {
    group_starts(s, h, i + 1).len() - 1
}

/// Reading `i`'s stored name and unit are refreshed from the segment: its
/// group's sensor identity changed, or its own id changed.
pub open spec fn reading_refreshed(snap: Snapshot, s: Seq<u8>, h: Header, i: int) -> bool {
    (is_group_start(s, h, i) && sensor_changed(snap, s, h, group_idx(s, h, i))) || padded_id(
        snap.reading_ids@,
        i,
    ) != reading_id_at(s, h, i)
}

/// Some group among the first `glen` has a changed sensor identity.
pub open spec fn any_sensor_changed(snap: Snapshot, s: Seq<u8>, h: Header, glen: int) -> bool {
    exists|g: int| 0 <= g < glen && #[trigger] sensor_changed(snap, s, h, g)
}

/// Some reading among the first `n` has a changed id.
pub open spec fn any_reading_changed(snap: Snapshot, s: Seq<u8>, h: Header, n: int) -> bool {
    exists|i: int|
        0 <= i < n && #[trigger] padded_id(snap.reading_ids@, i) != reading_id_at(s, h, i)
}

proof fn lemma_any_sensor_step(snap: Snapshot, s: Seq<u8>, h: Header, glen: int)
    requires
        0 <= glen,
    ensures
        any_sensor_changed(snap, s, h, glen + 1) == (any_sensor_changed(snap, s, h, glen)
            || sensor_changed(snap, s, h, glen)),
{
    if any_sensor_changed(snap, s, h, glen + 1) {
        let g = choose|g: int| 0 <= g < glen + 1 && #[trigger] sensor_changed(snap, s, h, g);
        if g < glen {
            assert(any_sensor_changed(snap, s, h, glen));
        }
    }
    if any_sensor_changed(snap, s, h, glen) {
        let g = choose|g: int| 0 <= g < glen && #[trigger] sensor_changed(snap, s, h, g);
        assert(0 <= g < glen + 1 && sensor_changed(snap, s, h, g));
    }
    if sensor_changed(snap, s, h, glen) {
        assert(0 <= glen < glen + 1 && sensor_changed(snap, s, h, glen));
    }
}

proof fn lemma_any_reading_step(snap: Snapshot, s: Seq<u8>, h: Header, n: int)
    requires
        0 <= n,
    ensures
        any_reading_changed(snap, s, h, n + 1) == (any_reading_changed(snap, s, h, n)
            || padded_id(snap.reading_ids@, n) != reading_id_at(s, h, n)),
{
    if any_reading_changed(snap, s, h, n + 1) {
        let i = choose|i: int|
            0 <= i < n + 1 && #[trigger] padded_id(snap.reading_ids@, i) != reading_id_at(
                s,
                h,
                i,
            );
        if i < n {
            assert(any_reading_changed(snap, s, h, n));
        }
    }
    if any_reading_changed(snap, s, h, n) {
        let i = choose|i: int|
            0 <= i < n && #[trigger] padded_id(snap.reading_ids@, i) != reading_id_at(s, h, i);
        assert(0 <= i < n + 1 && padded_id(snap.reading_ids@, i) != reading_id_at(s, h, i));
    }
    if padded_id(snap.reading_ids@, n) != reading_id_at(s, h, n) {
        assert(0 <= n < n + 1 && padded_id(snap.reading_ids@, n) != reading_id_at(s, h, n));
    }
}

/// The poll is structural: the table sizes changed, some group's sensor
/// identity changed, or some reading's id changed.
pub open spec fn structural_change(snap: Snapshot, s: Seq<u8>, h: Header) -> bool {
    ||| resize_needed(snap, h)
    ||| any_sensor_changed(snap, s, h, group_count(s, h))
    ||| any_reading_changed(snap, s, h, h.reading_count as int)
}

/// The identity stored at sensor position `g` after the poll.
pub open spec fn new_sensor_key_at(snap: Snapshot, s: Seq<u8>, h: Header, g: int) -> SensorKey {
    if g < group_count(s, h) {
        key_of_group(s, h, g)
    } else {
        padded_key(snap.sensor_ids@, g)
    }
}

/// The name stored at sensor position `g` after the poll: refreshed from
/// the segment only when the group's identity changed.
pub open spec fn new_sensor_name_at(snap: Snapshot, s: Seq<u8>, h: Header, g: int) -> Seq<u8> {
    if g < group_count(s, h) && sensor_changed(snap, s, h, g) {
        name_of_group(s, h, g)
    } else {
        padded_name(snap.sensor_names@, NAME_LEN as int, g)
    }
}

/// The name stored for reading `i` after the poll.
pub open spec fn new_reading_name_at(snap: Snapshot, s: Seq<u8>, h: Header, i: int) -> Seq<u8> {
    if reading_refreshed(snap, s, h, i) {
        reading_label_at(s, h, i)
    } else {
        padded_name(snap.reading_names@, NAME_LEN as int, i)
    }
}

/// The unit stored for reading `i` after the poll.
pub open spec fn new_reading_unit_at(snap: Snapshot, s: Seq<u8>, h: Header, i: int) -> Seq<u8> {
    if reading_refreshed(snap, s, h, i) {
        reading_unit_at(s, h, i)
    } else {
        padded_name(snap.reading_units@, UNIT_LEN as int, i)
    }
}

/// The concatenated (current, maximum) value byte pairs of readings `0..n`,
/// copied verbatim from the segment.
pub open spec fn value_pairs(s: Seq<u8>, h: Header, n: int) -> Seq<u8>
    decreases n,
{
    if n <= 0 {
        Seq::<u8>::empty()
    } else {
        (value_pairs(s, h, n - 1) + reading_value_bytes_at(s, h, n - 1)) + reading_max_bytes_at(
            s,
            h,
            n - 1,
        )
    }
}

/// The wire frame: poll timestamp, structural-update counter, then every
/// reading's value pair, all little-endian.
pub open spec fn frame_bytes(s: Seq<u8>, h: Header, count: u64) -> Seq<u8> {
    (le_of(h.poll_time as nat, 8) + le_of(count as nat, 8)) + value_pairs(
        s,
        h,
        h.reading_count as int,
    )
}

/// The structural-update counter after one more structural poll.
pub open spec fn wrap_inc(c: u64) -> u64 {
    if c == u64::MAX {
        0
    } else {
        (c + 1) as u64
    }
}

/// The segment is too short to even hold a header.
pub open spec fn poll_rejected(s: Seq<u8>) -> bool {
    s.len() < HEADER_SIZE
}

/// The upstream has written its closed sentinel.
pub open spec fn poll_closed(s: Seq<u8>) -> bool {
    !poll_rejected(s) && header_of(s).signature == CLOSED_SIGNATURE
}

/// The segment's timestamp has not advanced past the snapshot's: the poll
/// is suppressed.
pub open spec fn poll_stale(snap: Snapshot, s: Seq<u8>) -> bool {
    !poll_rejected(s) && !poll_closed(s) && as_signed(header_of(s).poll_time) <= as_signed(
        snap.last_poll_time,
    )
}

/// The declared tables do not fit the segment, or the reading table does not
/// group properly: the poll fails before touching the snapshot.
pub open spec fn poll_malformed(snap: Snapshot, s: Seq<u8>) -> bool {
    &&& !poll_rejected(s)
    &&& !poll_closed(s)
    &&& !poll_stale(snap, s)
    &&& (!tables_in_bounds(s, header_of(s)) || !topology_ok(s, header_of(s)))
}

/// The poll runs the full decode/diff/encode cycle.
pub open spec fn poll_live(snap: Snapshot, s: Seq<u8>) -> bool {
    &&& !poll_rejected(s)
    &&& !poll_closed(s)
    &&& !poll_stale(snap, s)
    &&& tables_in_bounds(s, header_of(s))
    &&& topology_ok(s, header_of(s))
}

proof fn lemma_value_pairs_len(s: Seq<u8>, h: Header, n: int)
    requires
        0 <= n <= h.reading_count,
        tables_in_bounds(s, h),
    ensures
        value_pairs(s, h, n).len() == 16 * n,
    decreases n,
{
    if n > 0 {
        lemma_value_pairs_len(s, h, n - 1);
        crate::layout::lemma_record_ranges(s, h, n - 1);
    }
}

fn resize_keys(v: &mut Vec<SensorKey>, n: usize)
    ensures
        final(v)@.len() == n,
        forall|k: int| 0 <= k < n ==> #[trigger] final(v)@[k] == padded_key(old(v)@, k),
{
    v.truncate(n);
    while v.len() < n
        invariant
            v@.len() <= n,
            n <= old(v)@.len() ==> v@.len() == n,
            n > old(v)@.len() ==> v@.len() >= old(v)@.len(),
            forall|k: int| 0 <= k < v@.len() ==> #[trigger] v@[k] == padded_key(old(v)@, k),
        decreases n - v@.len(),
    {
        v.push(SensorKey { id: 0, instance: 0 });
    }
}

fn resize_ids(v: &mut Vec<u32>, n: usize)
    ensures
        final(v)@.len() == n,
        forall|k: int| 0 <= k < n ==> #[trigger] final(v)@[k] == padded_id(old(v)@, k),
{
    v.truncate(n);
    while v.len() < n
        invariant
            v@.len() <= n,
            n <= old(v)@.len() ==> v@.len() == n,
            n > old(v)@.len() ==> v@.len() >= old(v)@.len(),
            forall|k: int| 0 <= k < v@.len() ==> #[trigger] v@[k] == padded_id(old(v)@, k),
        decreases n - v@.len(),
    {
        v.push(0);
    }
}

fn zeroed(m: usize) -> (v: Vec<u8>)
    ensures
        v@ == zero_bytes(m as int),
{
    let mut v: Vec<u8> = Vec::new();
    let mut k: usize = 0;
    while k < m
        invariant
            k <= m,
            v@.len() == k,
            forall|t: int| 0 <= t < k ==> #[trigger] v@[t] == 0u8,
        decreases m - k,
    {
        v.push(0);
        k = k + 1;
    }
    proof {
        assert(v@ =~= zero_bytes(m as int));
    }
    v
}

fn resize_names(v: &mut Vec<Vec<u8>>, n: usize, m: usize)
    ensures
        final(v)@.len() == n,
        forall|k: int|
            0 <= k < n ==> #[trigger] final(v)@[k]@ == padded_name(old(v)@, m as int, k),
{
    v.truncate(n);
    while v.len() < n
        invariant
            v@.len() <= n,
            n <= old(v)@.len() ==> v@.len() == n,
            n > old(v)@.len() ==> v@.len() >= old(v)@.len(),
            forall|k: int| 0 <= k < v@.len() ==> #[trigger] v@[k]@ == padded_name(old(v)@, m as int, k),
        decreases n - v@.len(),
    {
        v.push(zeroed(m));
    }
}

/// Two consecutive polls over identical segment bytes suppress the second:
/// a successful live poll stores the segment's timestamp, and a poll whose
/// segment timestamp does not exceed the stored one is stale, so by `poll`'s
/// contract it returns an empty frame and no catalog and leaves the
/// snapshot unchanged.
pub proof fn lemma_repeated_segment_is_stale(snap: Snapshot, s: Seq<u8>)
    requires
        !poll_rejected(s),
        !poll_closed(s),
        snap.last_poll_time == header_of(s).poll_time,
    ensures
        poll_stale(snap, s),
{
}

/// The previous poll's decoded state, mutated in place by each poll.
pub struct Snapshot {
    /// Bit pattern of the last emitted signed 64-bit poll timestamp.
    pub last_poll_time: u64,
    /// Incremented once per structural poll; echoed in frame and catalog.
    pub update_count: u64,
    /// Identity stored per sensor group position.
    pub sensor_ids: Vec<SensorKey>,
    /// Raw 128-byte display name per sensor group position.
    pub sensor_names: Vec<Vec<u8>>,
    /// Reading-table index at which each group's readings start.
    pub reading_offsets: Vec<usize>,
    /// Reading id per reading-table position.
    pub reading_ids: Vec<u32>,
    /// Raw 128-byte display label per reading-table position.
    pub reading_names: Vec<Vec<u8>>,
    /// Raw 16-byte unit string per reading-table position.
    pub reading_units: Vec<Vec<u8>>,
}

impl Snapshot {
    /// The id arrays and their name arrays always have matching lengths.
    pub open spec fn wf(self) -> bool {
        &&& self.sensor_ids@.len() == self.sensor_names@.len()
        &&& self.reading_ids@.len() == self.reading_names@.len()
        &&& self.reading_ids@.len() == self.reading_units@.len()
    }

    /// An empty snapshot: the state before the first poll.
    pub fn new() -> (snap: Snapshot)
        ensures
            snap.wf(),
            snap.last_poll_time == 0,
            snap.update_count == 0,
            snap.sensor_ids@.len() == 0,
            snap.sensor_names@.len() == 0,
            snap.reading_offsets@.len() == 0,
            snap.reading_ids@.len() == 0,
            snap.reading_names@.len() == 0,
            snap.reading_units@.len() == 0,
    {
        Snapshot {
            last_poll_time: 0,
            update_count: 0,
            sensor_ids: Vec::new(),
            sensor_names: Vec::new(),
            reading_offsets: Vec::new(),
            reading_ids: Vec::new(),
            reading_names: Vec::new(),
            reading_units: Vec::new(),
        }
    }

    /// One poll: decode the segment, diff it against this snapshot, and
    /// encode the frame and, on structural change, the catalog.
    ///
    /// The frame is empty exactly when the timestamp has not advanced; a
    /// too-short or inconsistent segment and an undecodable name fail with
    /// `MalformedData`; the closed sentinel fails with `UpstreamClosed`.
    #[verifier::rlimit(100)]
    pub fn poll(&mut self, seg: &[u8]) -> (r: Result<(Vec<u8>, Option<Vec<u8>>), PollError>)
        requires
            old(self).wf(),
        ensures
            final(self).wf(),
            as_signed(final(self).last_poll_time) >= as_signed(old(self).last_poll_time),
            poll_rejected(seg@) ==> r == Err::<(Vec<u8>, Option<Vec<u8>>), PollError>(
                PollError::MalformedData,
            ) && *final(self) == *old(self),
            poll_closed(seg@) ==> r == Err::<(Vec<u8>, Option<Vec<u8>>), PollError>(
                PollError::UpstreamClosed,
            ) && *final(self) == *old(self),
            poll_stale(*old(self), seg@) ==> (r matches Ok(p) && p.0@.len() == 0 && p.1
                is None) && *final(self) == *old(self),
            poll_malformed(*old(self), seg@) ==> r == Err::<(Vec<u8>, Option<Vec<u8>>),
                PollError,
            >(PollError::MalformedData) && *final(self) == *old(self),
            r matches Ok(p) ==> (p.0@.len() == 0 <==> poll_stale(*old(self), seg@)),
            r matches Ok(p) ==> (p.0@.len() == 0 || p.0@.len() == 16 + 16 * header_of(
                seg@,
            ).reading_count),
            poll_live(*old(self), seg@) ==> ({
                let s = seg@;
                let h = header_of(s);
                let structural = structural_change(*old(self), s, h);
                let decodable = catalog_decodable(
                    final(self).sensor_names@,
                    final(self).reading_offsets@,
                    final(self).reading_names@,
                    final(self).reading_units@,
                    h.reading_count as int,
                );
                &&& final(self).last_poll_time == h.poll_time
                &&& final(self).sensor_ids@.len() == h.sensor_count
                &&& forall|g: int|
                    0 <= g < h.sensor_count ==> #[trigger] final(self).sensor_ids@[g]
                        == new_sensor_key_at(*old(self), s, h, g)
                &&& final(self).sensor_names@.len() == h.sensor_count
                &&& forall|g: int|
                    0 <= g < h.sensor_count ==> #[trigger] final(self).sensor_names@[g]@
                        == new_sensor_name_at(*old(self), s, h, g)
                &&& final(self).reading_ids@.len() == h.reading_count
                &&& forall|i: int|
                    0 <= i < h.reading_count ==> #[trigger] final(self).reading_ids@[i]
                        == reading_id_at(s, h, i)
                &&& final(self).reading_names@.len() == h.reading_count
                &&& forall|i: int|
                    0 <= i < h.reading_count ==> #[trigger] final(self).reading_names@[i]@
                        == new_reading_name_at(*old(self), s, h, i)
                &&& final(self).reading_units@.len() == h.reading_count
                &&& forall|i: int|
                    0 <= i < h.reading_count ==> #[trigger] final(self).reading_units@[i]@
                        == new_reading_unit_at(*old(self), s, h, i)
                &&& final(self).reading_offsets@.len() == group_count(s, h)
                &&& forall|g: int|
                    0 <= g < group_count(s, h) ==> #[trigger] final(self).reading_offsets@[g]
                        == start_of_group(s, h, g)
                &&& (!structural ==> (r matches Ok(p) && p.0@ == frame_bytes(
                    s,
                    h,
                    old(self).update_count,
                ) && p.1 is None) && final(self).update_count == old(self).update_count)
                &&& (structural && !decodable ==> r == Err::<(Vec<u8>, Option<Vec<u8>>),
                    PollError,
                >(PollError::MalformedData) && final(self).update_count == old(
                    self,
                ).update_count)
                &&& (structural && decodable ==> (r matches Ok(p) && p.0@ == frame_bytes(
                    s,
                    h,
                    wrap_inc(old(self).update_count),
                ) && (p.1 matches Some(c) && c@ == catalog_json(
                    wrap_inc(old(self).update_count),
                    final(self).sensor_ids@,
                    final(self).sensor_names@,
                    final(self).reading_offsets@,
                    final(self).reading_ids@,
                    final(self).reading_names@,
                    final(self).reading_units@,
                    h.reading_count as int,
                ))) && final(self).update_count == wrap_inc(old(self).update_count))
            }),
    {
        proof {
            assert(seg@.len() == seg.len());
        }
        if seg.len() < HEADER_SIZE {
            return Err(PollError::MalformedData);
        }
        let h = parse_header(seg);
        if h.signature == CLOSED_SIGNATURE {
            return Err(PollError::UpstreamClosed);
        }
        if !signed_gt(h.poll_time, self.last_poll_time) {
            return Ok((Vec::new(), None));
        }
        if !check_tables_in_bounds(seg, &h) {
            return Err(PollError::MalformedData);
        }
        if !check_topology(seg, &h) {
            return Err(PollError::MalformedData);
        }
        self.last_poll_time = h.poll_time;
        self.reading_offsets.clear();
        let sensor_count = h.sensor_count as usize;
        let reading_count = h.reading_count as usize;
        let mut structural = false;
        if sensor_count != self.sensor_names.len() || reading_count != self.reading_names.len() {
            structural = true;
            resize_keys(&mut self.sensor_ids, sensor_count);
            resize_names(&mut self.sensor_names, sensor_count, NAME_LEN);
            resize_ids(&mut self.reading_ids, reading_count);
            resize_names(&mut self.reading_names, reading_count, NAME_LEN);
            resize_names(&mut self.reading_units, reading_count, UNIT_LEN);
        }
        proof {
            assert(structural == resize_needed(*old(self), h));
            assert(self.sensor_ids@.len() == sensor_count);
            assert(self.reading_ids@.len() == reading_count);
            assert(forall|k: int|
                0 <= k < sensor_count ==> #[trigger] self.sensor_ids@[k] == padded_key(
                    old(self).sensor_ids@,
                    k,
                ));
            assert(forall|k: int|
                0 <= k < sensor_count ==> #[trigger] self.sensor_names@[k]@ == padded_name(
                    old(self).sensor_names@,
                    NAME_LEN as int,
                    k,
                ));
            assert(forall|j: int|
                0 <= j < reading_count ==> #[trigger] self.reading_ids@[j] == padded_id(
                    old(self).reading_ids@,
                    j,
                ));
            assert(forall|j: int|
                0 <= j < reading_count ==> #[trigger] self.reading_names@[j]@ == padded_name(
                    old(self).reading_names@,
                    NAME_LEN as int,
                    j,
                ));
            assert(forall|j: int|
                0 <= j < reading_count ==> #[trigger] self.reading_units@[j]@ == padded_name(
                    old(self).reading_units@,
                    UNIT_LEN as int,
                    j,
                ));
        }
        let mut values: Vec<u8> = Vec::new();
        let mut last_sidx: u32 = 0;
        let mut gi: usize = 0;
        let mut i: usize = 0;
        while i < reading_count
            invariant
                old(self).wf(),
                h == header_of(seg@),
                seg@.len() <= usize::MAX,
                tables_in_bounds(seg@, h),
                topology_ok(seg@, h),
                sensor_count == h.sensor_count,
                reading_count == h.reading_count,
                i <= reading_count,
                gi <= i,
                self.last_poll_time == h.poll_time,
                self.update_count == old(self).update_count,
                self.sensor_ids@.len() == sensor_count,
                self.sensor_names@.len() == sensor_count,
                self.reading_ids@.len() == reading_count,
                self.reading_names@.len() == reading_count,
                self.reading_units@.len() == reading_count,
                self.reading_offsets@.len() == group_starts(seg@, h, i as int).len(),
                forall|k: int|
                    0 <= k < self.reading_offsets@.len() ==> #[trigger] self.reading_offsets@[k]
                        == group_starts(seg@, h, i as int)[k],
                i == 0 ==> gi == 0,
                i > 0 ==> gi + 1 == group_starts(seg@, h, i as int).len(),
                i > 0 ==> last_sidx == reading_sensor_index_at(seg@, h, i - 1),
                forall|k: int|
                    0 <= k < sensor_count ==> #[trigger] self.sensor_ids@[k] == (if k
                        < group_starts(seg@, h, i as int).len() {
                        key_of_group(seg@, h, k)
                    } else {
                        padded_key(old(self).sensor_ids@, k)
                    }),
                forall|k: int|
                    0 <= k < sensor_count ==> #[trigger] self.sensor_names@[k]@ == (if k
                        < group_starts(seg@, h, i as int).len() && sensor_changed(
                        *old(self),
                        seg@,
                        h,
                        k,
                    ) {
                        name_of_group(seg@, h, k)
                    } else {
                        padded_name(old(self).sensor_names@, NAME_LEN as int, k)
                    }),
                forall|j: int|
                    0 <= j < reading_count ==> #[trigger] self.reading_ids@[j] == (if j < i {
                        reading_id_at(seg@, h, j)
                    } else {
                        padded_id(old(self).reading_ids@, j)
                    }),
                forall|j: int|
                    0 <= j < reading_count ==> #[trigger] self.reading_names@[j]@ == (if j < i
                        && reading_refreshed(*old(self), seg@, h, j) {
                        reading_label_at(seg@, h, j)
                    } else {
                        padded_name(old(self).reading_names@, NAME_LEN as int, j)
                    }),
                forall|j: int|
                    0 <= j < reading_count ==> #[trigger] self.reading_units@[j]@ == (if j < i
                        && reading_refreshed(*old(self), seg@, h, j) {
                        reading_unit_at(seg@, h, j)
                    } else {
                        padded_name(old(self).reading_units@, UNIT_LEN as int, j)
                    }),
                structural == (resize_needed(*old(self), h) || any_sensor_changed(
                    *old(self),
                    seg@,
                    h,
                    group_starts(seg@, h, i as int).len() as int,
                ) || any_reading_changed(*old(self), seg@, h, i as int)),
                values@ == value_pairs(seg@, h, i as int),
            decreases reading_count - i,
        {
            let ghost gl_i = group_starts(seg@, h, i as int);
            let sidx = read_reading_sensor_index(seg, &h, i);
            proof {
                assert((reading_sensor_index_at(seg@, h, i as int) as int) < h.sensor_count);
            }
            if i == 0 {
                last_sidx = sidx;
                self.reading_offsets.push(0);
            }
            if last_sidx != sidx {
                last_sidx = sidx;
                gi = gi + 1;
                self.reading_offsets.push(i);
            }
            let ghost gl_n = group_starts(seg@, h, i as int + 1);
            proof {
                if is_group_start(seg@, h, i as int) {
                    assert(gl_n == gl_i + seq![i as int]);
                } else {
                    assert(gl_n == gl_i);
                }
                assert(gi + 1 == gl_n.len());
                lemma_group_starts_prefix(seg@, h, i as int + 1, reading_count as int);
                assert((gi as int) < group_count(seg@, h));
                assert(gi < sensor_count);
                lemma_group_constant(seg@, h, i as int);
                assert(gl_n.last() == gl_n[gi as int]);
                assert(start_of_group(seg@, h, gi as int) == gl_n[gi as int]);
                assert(crate::groups::sensor_of_group(seg@, h, gi as int) == sidx as int);
            }
            let key = *vstd::std_specs::vec::vec_index(&self.sensor_ids, gi);
            let skey = read_sensor_key(seg, &h, sidx as usize);
            let rid = read_reading_id(seg, &h, i);
            let old_rid = *vstd::std_specs::vec::vec_index(&self.reading_ids, i);
            proof {
                assert(skey == key_of_group(seg@, h, gi as int));
                assert(old_rid == padded_id(old(self).reading_ids@, i as int));
                if is_group_start(seg@, h, i as int) {
                    assert(key == padded_key(old(self).sensor_ids@, gi as int));
                } else {
                    assert((gi as int) < gl_i.len());
                    assert(key == key_of_group(seg@, h, gi as int));
                }
            }
            if key.id != skey.id || key.instance != skey.instance {
                structural = true;
                proof {
                    assert(is_group_start(seg@, h, i as int));
                    assert(sensor_changed(*old(self), seg@, h, gi as int));
                    assert(reading_refreshed(*old(self), seg@, h, i as int));
                    crate::layout::lemma_sensor_ranges(seg@, h, sidx as int);
                }
                self.sensor_ids.set(gi, skey);
                let sb = sensor_record_base(seg, &h, sidx as usize);
                let nm = copy_range(seg, sb + SENSOR_NAME_OFFSET, NAME_LEN);
                self.sensor_names.set(gi, nm);
                let rb = reading_record_base(seg, &h, i);
                self.reading_ids.set(i, rid);
                let rl = copy_range(seg, rb + READING_LABEL_OFFSET, NAME_LEN);
                self.reading_names.set(i, rl);
                let ru = copy_range(seg, rb + READING_UNIT_OFFSET, UNIT_LEN);
                self.reading_units.set(i, ru);
            } else if old_rid != rid {
                structural = true;
                proof {
                    assert(!(is_group_start(seg@, h, i as int) && sensor_changed(
                        *old(self),
                        seg@,
                        h,
                        group_idx(seg@, h, i as int),
                    )));
                    assert(reading_refreshed(*old(self), seg@, h, i as int));
                }
                let rb = reading_record_base(seg, &h, i);
                self.reading_ids.set(i, rid);
                let rl = copy_range(seg, rb + READING_LABEL_OFFSET, NAME_LEN);
                self.reading_names.set(i, rl);
                let ru = copy_range(seg, rb + READING_UNIT_OFFSET, UNIT_LEN);
                self.reading_units.set(i, ru);
            } else {
                proof {
                    assert(!reading_refreshed(*old(self), seg@, h, i as int));
                }
            }
            let rb2 = reading_record_base(seg, &h, i);
            let mut vb = copy_range(seg, rb2 + READING_VALUE_OFFSET, 8);
            values.append(&mut vb);
            let mut mb = copy_range(seg, rb2 + READING_MAX_OFFSET, 8);
            values.append(&mut mb);
            proof {
                assert(values@ == value_pairs(seg@, h, i as int + 1));
                lemma_any_reading_step(*old(self), seg@, h, i as int);
                if is_group_start(seg@, h, i as int) {
                    lemma_any_sensor_step(*old(self), seg@, h, gl_i.len() as int);
                }
            }
            i = i + 1;
        }
        proof {
            lemma_group_starts_props(seg@, h, reading_count as int);
            assert(self.reading_offsets@.len() == group_count(seg@, h));
            let offs = self.reading_offsets@;
            assert(offs.len() == group_starts(seg@, h, reading_count as int).len());
            assert forall|g: int| 0 <= g && g + 1 < offs.len() implies #[trigger] offs[g] <= offs[g
                + 1] by {
                assert(offs.len() == group_starts(seg@, h, reading_count as int).len());
                lemma_group_starts_increasing(seg@, h, reading_count as int, g);
                assert(offs[g] == group_starts(seg@, h, reading_count as int)[g]);
                assert(offs[g + 1] == group_starts(seg@, h, reading_count as int)[g + 1]);
            }
            assert(structural == structural_change(*old(self), seg@, h));
        }
        let catalog: Option<Vec<u8>>;
        if structural {
            let next_count = if self.update_count == u64::MAX {
                0
            } else {
                self.update_count + 1
            };
            match build_catalog(
                next_count,
                &self.sensor_ids,
                &self.sensor_names,
                &self.reading_offsets,
                &self.reading_ids,
                &self.reading_names,
                &self.reading_units,
            ) {
                Some(c) => {
                    self.update_count = next_count;
                    catalog = Some(c);
                },
                None => {
                    return Err(PollError::MalformedData);
                },
            }
        } else {
            catalog = None;
        }
        let mut frame: Vec<u8> = Vec::new();
        push_u64_le(&mut frame, self.last_poll_time);
        push_u64_le(&mut frame, self.update_count);
        proof {
            assert(frame@ =~= le_of(h.poll_time as nat, 8) + le_of(
                self.update_count as nat,
                8,
            ));
            lemma_le_of_len(h.poll_time as nat, 8);
            lemma_le_of_len(self.update_count as nat, 8);
            lemma_value_pairs_len(seg@, h, reading_count as int);
        }
        frame.append(&mut values);
        Ok((frame, catalog))
    }
}

} // verus!
