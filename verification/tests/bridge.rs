//! End-to-end tests of the decode/diff/encode pipeline over synthetic
//! segments laid out exactly as the upstream publishes them.

use jonitor::actor::{Distributor, DistributorAction};
use jonitor::errors::PollError;
use jonitor::snapshot::Snapshot;

const HEADER_SIZE: usize = 48;
const SENSOR_SIZE: usize = 392;
const READING_SIZE: usize = 460;
const LIVE_SIGNATURE: u32 = 1397574474;
const CLOSED_SIGNATURE: u32 = 1145389380;

struct SensorSpec {
    id: u32,
    instance: u32,
    name: &'static str,
}

struct ReadingSpec {
    sensor_index: u32,
    id: u32,
    label: &'static str,
    unit: &'static str,
    value: f64,
    max: f64,
}

fn put32(seg: &mut [u8], off: usize, v: u32) {
    seg[off..off + 4].copy_from_slice(&v.to_le_bytes());
}

fn put64(seg: &mut [u8], off: usize, v: i64) {
    seg[off..off + 8].copy_from_slice(&v.to_le_bytes());
}

fn putf(seg: &mut [u8], off: usize, v: f64) {
    seg[off..off + 8].copy_from_slice(&v.to_le_bytes());
}

fn put_name(seg: &mut [u8], off: usize, len: usize, text: &str) {
    let bytes = text.as_bytes();
    assert!(bytes.len() < len);
    seg[off..off + bytes.len()].copy_from_slice(bytes);
}

fn make_segment(poll_time: i64, sensors: &[SensorSpec], readings: &[ReadingSpec]) -> Vec<u8> {
    let sensor_offset = HEADER_SIZE;
    let reading_offset = HEADER_SIZE + SENSOR_SIZE * sensors.len();
    let total = reading_offset + READING_SIZE * readings.len();
    let mut seg = vec![0u8; total];
    put32(&mut seg, 0, LIVE_SIGNATURE);
    put32(&mut seg, 4, 2); // version
    put32(&mut seg, 8, 1); // revision
    put64(&mut seg, 12, poll_time);
    put32(&mut seg, 20, sensor_offset as u32);
    put32(&mut seg, 24, SENSOR_SIZE as u32);
    put32(&mut seg, 28, sensors.len() as u32);
    put32(&mut seg, 32, reading_offset as u32);
    put32(&mut seg, 36, READING_SIZE as u32);
    put32(&mut seg, 40, readings.len() as u32);
    put32(&mut seg, 44, 2000); // polling period
    for (j, s) in sensors.iter().enumerate() {
        let base = sensor_offset + SENSOR_SIZE * j;
        put32(&mut seg, base, s.id);
        put32(&mut seg, base + 4, s.instance);
        put_name(&mut seg, base + 264, 128, s.name);
    }
    for (i, r) in readings.iter().enumerate() {
        let base = reading_offset + READING_SIZE * i;
        put32(&mut seg, base + 4, r.sensor_index);
        put32(&mut seg, base + 8, r.id);
        putf(&mut seg, base + 284, r.value);
        putf(&mut seg, base + 300, r.max);
        put_name(&mut seg, base + 316, 128, r.label);
        put_name(&mut seg, base + 444, 16, r.unit);
    }
    seg
}

fn two_sensor_segment(poll_time: i64) -> Vec<u8> {
    make_segment(
        poll_time,
        &[
            SensorSpec { id: 123, instance: 0, name: "Sensor 1" },
            SensorSpec { id: 124, instance: 0, name: "Sensor 2" },
        ],
        &[
            ReadingSpec {
                sensor_index: 0,
                id: 4560,
                label: "Reading 1",
                unit: "%",
                value: 1.23,
                max: 4.56,
            },
            ReadingSpec {
                sensor_index: 0,
                id: 4561,
                label: "Reading 2",
                unit: "V",
                value: 7.89,
                max: 3.21,
            },
            ReadingSpec {
                sensor_index: 1,
                id: 7890,
                label: "Reading 3",
                unit: "A",
                value: 6.54,
                max: 9.87,
            },
        ],
    )
}

#[test]
fn first_poll_two_sensors() {
    let seg = two_sensor_segment(1000);
    let mut snap = Snapshot::new();
    let (frame, catalog) = snap.poll(&seg).unwrap();
    assert_eq!(frame.len(), 16 + 16 * 3);
    assert_eq!(&frame[0..8], &1000i64.to_le_bytes());
    assert_eq!(&frame[8..16], &1u64.to_le_bytes());
    assert_eq!(&frame[16..24], &1.23f64.to_le_bytes());
    assert_eq!(&frame[24..32], &4.56f64.to_le_bytes());
    assert_eq!(&frame[32..40], &7.89f64.to_le_bytes());
    assert_eq!(&frame[40..48], &3.21f64.to_le_bytes());
    assert_eq!(&frame[48..56], &6.54f64.to_le_bytes());
    assert_eq!(&frame[56..64], &9.87f64.to_le_bytes());
    let catalog = catalog.unwrap();
    let expected = "{\"updatedCount\":1,\"sensors\":[\
{\"id\":123,\"instance\":0,\"name\":\"Sensor 1\",\"readings\":[\
{\"id\":4560,\"name\":\"Reading 1\",\"unit\":\"%\"},\
{\"id\":4561,\"name\":\"Reading 2\",\"unit\":\"V\"}\
],\"offset\":2},\
{\"id\":124,\"instance\":0,\"name\":\"Sensor 2\",\"readings\":[\
{\"id\":7890,\"name\":\"Reading 3\",\"unit\":\"A\"}\
],\"offset\":6}\
]}";
    assert_eq!(String::from_utf8(catalog).unwrap(), expected);
}

#[test]
fn second_poll_value_change_omits_catalog() {
    let mut snap = Snapshot::new();
    snap.poll(&two_sensor_segment(1000)).unwrap();
    let mut seg = two_sensor_segment(1001);
    let reading_offset = HEADER_SIZE + SENSOR_SIZE * 2;
    putf(&mut seg, reading_offset + 284, 9.99);
    let (frame, catalog) = snap.poll(&seg).unwrap();
    assert_eq!(frame.len(), 64);
    assert!(catalog.is_none());
    assert_eq!(&frame[8..16], &1u64.to_le_bytes());
    assert_eq!(&frame[16..24], &9.99f64.to_le_bytes());
}

#[test]
fn identical_poll_suppressed() {
    let seg = two_sensor_segment(1000);
    let mut snap = Snapshot::new();
    let (frame, catalog) = snap.poll(&seg).unwrap();
    assert!(!frame.is_empty());
    assert!(catalog.is_some());
    let (frame2, catalog2) = snap.poll(&seg).unwrap();
    assert!(frame2.is_empty());
    assert!(catalog2.is_none());
}

#[test]
fn older_timestamp_suppressed() {
    let mut snap = Snapshot::new();
    snap.poll(&two_sensor_segment(1000)).unwrap();
    let (frame, catalog) = snap.poll(&two_sensor_segment(999)).unwrap();
    assert!(frame.is_empty());
    assert!(catalog.is_none());
}

#[test]
fn closed_sentinel_stops_pipeline() {
    let mut snap = Snapshot::new();
    let mut dist = Distributor::new();
    let first = snap.poll(&two_sensor_segment(1000));
    assert_eq!(dist.on_poll(first), DistributorAction::Publish);
    let published = dist.latest_frame().clone();
    assert_eq!(published.len(), 64);
    let mut seg = two_sensor_segment(1001);
    put32(&mut seg, 0, CLOSED_SIGNATURE);
    let failed = snap.poll(&seg);
    assert_eq!(failed, Err(PollError::UpstreamClosed));
    assert_eq!(dist.on_poll(failed), DistributorAction::CloseAll);
    assert!(dist.stopped);
    // once stopped, even a fresh successful poll is never published
    let mut snap2 = Snapshot::new();
    let late = snap2.poll(&two_sensor_segment(2000));
    assert_eq!(dist.on_poll(late), DistributorAction::Idle);
    assert_eq!(dist.latest_frame(), &published);
}

#[test]
fn external_stop_closes_subscribers() {
    let mut dist = Distributor::new();
    assert_eq!(dist.on_stop(), DistributorAction::CloseAll);
    assert!(dist.stopped);
}

#[test]
fn empty_tables_give_bare_frame() {
    let seg = make_segment(500, &[], &[]);
    let mut snap = Snapshot::new();
    let (frame, catalog) = snap.poll(&seg).unwrap();
    assert_eq!(frame.len(), 16);
    assert_eq!(&frame[0..8], &500i64.to_le_bytes());
    assert_eq!(&frame[8..16], &0u64.to_le_bytes());
    assert!(catalog.is_none());
}

#[test]
fn reading_id_change_bumps_counter() {
    let mut snap = Snapshot::new();
    snap.poll(&two_sensor_segment(1000)).unwrap();
    let mut seg = two_sensor_segment(1001);
    let reading_offset = HEADER_SIZE + SENSOR_SIZE * 2;
    put32(&mut seg, reading_offset + 8, 4999);
    for b in seg[reading_offset + 316..reading_offset + 316 + 128].iter_mut() {
        *b = 0;
    }
    put_name(&mut seg, reading_offset + 316, 128, "Renamed");
    let (frame, catalog) = snap.poll(&seg).unwrap();
    assert_eq!(&frame[8..16], &2u64.to_le_bytes());
    let catalog = String::from_utf8(catalog.unwrap()).unwrap();
    assert!(catalog.starts_with("{\"updatedCount\":2,"));
    assert!(catalog.contains("{\"id\":4999,\"name\":\"Renamed\",\"unit\":\"%\"}"));
    // the unchanged readings keep their names
    assert!(catalog.contains("{\"id\":4561,\"name\":\"Reading 2\",\"unit\":\"V\"}"));
}

#[test]
fn sensor_identity_change_refreshes_name() {
    let mut snap = Snapshot::new();
    snap.poll(&two_sensor_segment(1000)).unwrap();
    let mut seg = two_sensor_segment(1001);
    put32(&mut seg, HEADER_SIZE + 4, 7); // instance of sensor 0
    for b in seg[HEADER_SIZE + 264..HEADER_SIZE + 264 + 128].iter_mut() {
        *b = 0;
    }
    put_name(&mut seg, HEADER_SIZE + 264, 128, "Renamed Sensor");
    let (frame, catalog) = snap.poll(&seg).unwrap();
    assert_eq!(&frame[8..16], &2u64.to_le_bytes());
    let catalog = String::from_utf8(catalog.unwrap()).unwrap();
    assert!(catalog.contains("{\"id\":123,\"instance\":7,\"name\":\"Renamed Sensor\""));
}

#[test]
fn truncated_segment_is_malformed() {
    let mut snap = Snapshot::new();
    assert_eq!(snap.poll(&[0u8; 20]), Err(PollError::MalformedData));
    // tables that overrun the mapped region
    let mut seg = make_segment(100, &[], &[]);
    put32(&mut seg, 28, 5); // five sensors declared, none present
    assert_eq!(snap.poll(&seg), Err(PollError::MalformedData));
}

#[test]
fn sensor_index_out_of_range_is_malformed() {
    let mut seg = two_sensor_segment(1000);
    let reading_offset = HEADER_SIZE + SENSOR_SIZE * 2;
    put32(&mut seg, reading_offset + 4, 9);
    let mut snap = Snapshot::new();
    assert_eq!(snap.poll(&seg), Err(PollError::MalformedData));
}

#[test]
fn interleaved_groups_are_malformed() {
    // readings of one sensor must be contiguous: 0,1,0 makes three groups
    // out of two sensors
    let seg = make_segment(
        1000,
        &[
            SensorSpec { id: 1, instance: 0, name: "A" },
            SensorSpec { id: 2, instance: 0, name: "B" },
        ],
        &[
            ReadingSpec {
                sensor_index: 0,
                id: 10,
                label: "x",
                unit: "V",
                value: 0.0,
                max: 0.0,
            },
            ReadingSpec {
                sensor_index: 1,
                id: 11,
                label: "y",
                unit: "V",
                value: 0.0,
                max: 0.0,
            },
            ReadingSpec {
                sensor_index: 0,
                id: 12,
                label: "z",
                unit: "V",
                value: 0.0,
                max: 0.0,
            },
        ],
    );
    let mut snap = Snapshot::new();
    assert_eq!(snap.poll(&seg), Err(PollError::MalformedData));
}

#[test]
fn invalid_utf8_name_is_malformed() {
    let mut seg = two_sensor_segment(1000);
    seg[HEADER_SIZE + 264] = 0xff;
    seg[HEADER_SIZE + 265] = 0xfe;
    let mut snap = Snapshot::new();
    assert_eq!(snap.poll(&seg), Err(PollError::MalformedData));
}

#[test]
fn names_are_json_escaped() {
    let seg = make_segment(
        1000,
        &[SensorSpec { id: 1, instance: 0, name: "A\"B\\C\tD" }],
        &[ReadingSpec {
            sensor_index: 0,
            id: 10,
            label: "L\x01M",
            unit: "\u{00b0}C",
            value: 0.0,
            max: 0.0,
        }],
    );
    let mut snap = Snapshot::new();
    let (_, catalog) = snap.poll(&seg).unwrap();
    let catalog = String::from_utf8(catalog.unwrap()).unwrap();
    assert!(catalog.contains("\"name\":\"A\\\"B\\\\C\\tD\""));
    assert!(catalog.contains("\"name\":\"L\\u0001M\""));
    assert!(catalog.contains("\"unit\":\"\u{00b0}C\""));
    // byte-identical with what serde_json produces for the same text
    assert_eq!(
        serde_json::to_string("A\"B\\C\tD").unwrap(),
        "\"A\\\"B\\\\C\\tD\""
    );
}

#[test]
fn counter_wraps_at_maximum() {
    let mut snap = Snapshot::new();
    snap.update_count = u64::MAX;
    let (frame, catalog) = snap.poll(&two_sensor_segment(1000)).unwrap();
    assert_eq!(&frame[8..16], &0u64.to_le_bytes());
    assert!(String::from_utf8(catalog.unwrap())
        .unwrap()
        .starts_with("{\"updatedCount\":0,"));
}

#[test]
fn negative_timestamps_compare_signed() {
    let mut snap = Snapshot::new();
    snap.poll(&two_sensor_segment(1000)).unwrap();
    // a negative timestamp is older than a positive one even though its
    // 64-bit pattern is numerically larger
    let (frame, _) = snap.poll(&two_sensor_segment(-4)).unwrap();
    assert!(frame.is_empty());
    let (frame2, _) = snap.poll(&two_sensor_segment(1001)).unwrap();
    assert_eq!(frame2.len(), 64);
}

#[test]
fn trim_str_cuts_at_first_nul() {
    assert_eq!(jonitor::text::trim_str(b"abc\0def"), &b"abc"[..]);
    assert_eq!(jonitor::text::trim_str(b"abc"), &b"abc"[..]);
    assert_eq!(jonitor::text::trim_str(b"\0abc"), &b""[..]);
    assert_eq!(jonitor::text::trim_str(b""), &b""[..]);
}

#[test]
fn value_pairs_round_trip_bit_exact() {
    let cases: [f64; 8] = [
        0.0,
        -0.0,
        -1.5,
        5e-324,      // smallest positive subnormal
        -5e-324,
        f64::MAX,
        f64::MIN_POSITIVE,
        1.23456789e300,
    ];
    for (k, &v) in cases.iter().enumerate() {
        let max = v * 2.0;
        let mut buf = Vec::new();
        jonitor::wire::push_u64_le(&mut buf, v.to_bits());
        jonitor::wire::push_u64_le(&mut buf, max.to_bits());
        assert_eq!(buf.len(), 16);
        let back = f64::from_bits(jonitor::wire::read_u64_le(&buf, 0));
        let back_max = f64::from_bits(jonitor::wire::read_u64_le(&buf, 8));
        assert_eq!(back.to_bits(), v.to_bits(), "case {k}");
        assert_eq!(back_max.to_bits(), max.to_bits(), "case {k}");
    }
}

#[test]
fn os_error_helper_returns_a_code() {
    let _code: i32 = jonitor::errors::get_os_error();
}

#[test]
fn unchanged_identity_keeps_stored_name() {
    let mut snap = Snapshot::new();
    snap.poll(&two_sensor_segment(1000)).unwrap();
    // rename sensor 0 without touching its identity, and change another
    // reading's id so that a catalog is produced at all
    let mut seg = two_sensor_segment(1001);
    for b in seg[HEADER_SIZE + 264..HEADER_SIZE + 264 + 128].iter_mut() {
        *b = 0;
    }
    put_name(&mut seg, HEADER_SIZE + 264, 128, "New Name");
    let reading_offset = HEADER_SIZE + SENSOR_SIZE * 2;
    put32(&mut seg, reading_offset + 2 * READING_SIZE + 8, 7891);
    let (_, catalog) = snap.poll(&seg).unwrap();
    let catalog = String::from_utf8(catalog.unwrap()).unwrap();
    // a name is only re-read when the sensor's identity changes, so the
    // stored name is kept
    assert!(catalog.contains("\"name\":\"Sensor 1\""));
    assert!(!catalog.contains("New Name"));
    assert!(catalog.contains("{\"id\":7891,"));
}

#[test]
fn shrinking_topology_is_structural() {
    let mut snap = Snapshot::new();
    snap.poll(&two_sensor_segment(1000)).unwrap();
    let seg = make_segment(
        1001,
        &[SensorSpec { id: 123, instance: 0, name: "Sensor 1" }],
        &[ReadingSpec {
            sensor_index: 0,
            id: 4560,
            label: "Reading 1",
            unit: "%",
            value: 2.5,
            max: 5.0,
        }],
    );
    let (frame, catalog) = snap.poll(&seg).unwrap();
    assert_eq!(frame.len(), 32);
    assert_eq!(&frame[8..16], &2u64.to_le_bytes());
    let catalog = String::from_utf8(catalog.unwrap()).unwrap();
    assert_eq!(
        catalog,
        "{\"updatedCount\":2,\"sensors\":[{\"id\":123,\"instance\":0,\"name\":\"Sensor 1\",\
\"readings\":[{\"id\":4560,\"name\":\"Reading 1\",\"unit\":\"%\"}],\"offset\":2}]}"
    );
}
