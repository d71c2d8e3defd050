//! End-to-end scenarios: scan, anchor, shift, rewrite.

use acmi_rewriter::engine::rewrite_records;
use acmi_rewriter::model::Coords;
use acmi_rewriter::model::GlobalProperty;
use acmi_rewriter::model::Property;
use acmi_rewriter::model::Record;
use acmi_rewriter::model::records_eq;
use acmi_rewriter::scanner::scan_records;

fn no_coords() -> Coords {
    Coords {
        longitude: None,
        latitude: None,
        altitude: None,
        u: None,
        v: None,
        roll: None,
        pitch: None,
        yaw: None,
        heading: None,
    }
}

fn lla(lat: Option<f64>, lon: Option<f64>, alt: Option<f64>) -> Coords {
    let mut c = no_coords();
    c.latitude = lat.map(f64::to_bits);
    c.longitude = lon.map(f64::to_bits);
    c.altitude = alt.map(f64::to_bits);
    c
}

fn ref_lat(x: f64) -> Record {
    Record::GlobalProperty(GlobalProperty::ReferenceLatitude(x.to_bits()))
}

fn ref_lon(x: f64) -> Record {
    Record::GlobalProperty(GlobalProperty::ReferenceLongitude(x.to_bits()))
}

fn upd(id: u64, c: Coords) -> Record {
    Record::Update { id, props: vec![Property::T(c)] }
}

fn shift_coords(c: Coords, d_lat: f64, d_lon: f64) -> Coords {
    let mut c2 = c;
    c2.latitude = c.latitude.map(|b| (f64::from_bits(b) + d_lat).to_bits());
    c2.longitude = c.longitude.map(|b| (f64::from_bits(b) + d_lon).to_bits());
    c2
}

fn shift_record(r: Record, d_lat: f64, d_lon: f64) -> Record {
    match r {
        Record::Update { id, props } => Record::Update {
            id,
            props: props
                .into_iter()
                .map(|p| match p {
                    Property::T(c) => Property::T(shift_coords(c, d_lat, d_lon)),
                    other => other,
                })
                .collect(),
        },
        other => other,
    }
}

/// The anchor for one axis: the floor of original plus minimum, stepped one
/// lower when that floor would coincide with an observed minimum (the
/// re-anchored coordinates must stay strictly positive).
fn anchor_axis(orig: f64, min: Option<f64>) -> f64 {
    match min {
        None => orig.floor(),
        Some(m) => {
            let sum = orig + m;
            let floored = sum.floor();
            if floored == sum { floored - 1.0 } else { floored }
        }
    }
}

/// What the application does per file: pass 1 scan, anchor, shift, pass 2
/// rewrite.
fn run_pipeline(records: Vec<Record>) -> Vec<Record> {
    let s = scan_records(&records);
    let orig_lat = f64::from_bits(s.orig_lat);
    let orig_lon = f64::from_bits(s.orig_lon);
    let new_lat = anchor_axis(orig_lat, s.min_lat.map(f64::from_bits));
    let new_lon = anchor_axis(orig_lon, s.min_lon.map(f64::from_bits));
    let d_lat = orig_lat - new_lat;
    let d_lon = orig_lon - new_lon;
    let shifted: Vec<Record> = records
        .into_iter()
        .map(|r| shift_record(r, d_lat, d_lon))
        .collect();
    rewrite_records(&shifted, new_lat.to_bits(), new_lon.to_bits())
        .expect("the anchor fits the data it was computed from")
}

#[test]
fn empty_after_header() {
    let out = run_pipeline(vec![ref_lat(10.0), ref_lon(20.0)]);
    let expected = vec![ref_lat(10.0), ref_lon(20.0)];
    assert!(records_eq(&out, &expected));
}

#[test]
fn single_entity_two_identical_updates() {
    let out = run_pipeline(vec![
        ref_lat(0.0),
        ref_lon(0.0),
        Record::Frame(0.0f64.to_bits()),
        upd(1, lla(Some(0.5), Some(0.5), None)),
        upd(1, lla(Some(0.5), Some(0.5), None)),
    ]);
    // the frame at time zero is redundant against the initial clock, and the
    // second identical update is suppressed entirely
    let expected = vec![ref_lat(0.0), ref_lon(0.0), upd(1, lla(Some(0.5), Some(0.5), None))];
    assert!(records_eq(&out, &expected));
}

#[test]
fn coordinate_delta() {
    let out = run_pipeline(vec![
        ref_lat(0.0),
        ref_lon(0.0),
        upd(1, lla(Some(1.0), Some(1.0), Some(100.0))),
        upd(1, lla(Some(1.5), Some(1.0), Some(100.0))),
    ]);
    let expected = vec![
        ref_lat(0.0),
        ref_lon(0.0),
        upd(1, lla(Some(1.0), Some(1.0), Some(100.0))),
        upd(1, lla(Some(1.5), None, None)),
    ];
    assert!(records_eq(&out, &expected));
}

#[test]
fn anchor_unchanged_small_minimum() {
    // minimum (0.2, 0.4): floor(10.2) = 10, floor(20.4) = 20 — unchanged
    let records = vec![
        ref_lat(10.0),
        ref_lon(20.0),
        upd(1, lla(Some(0.2), Some(0.4), None)),
        upd(2, lla(Some(0.9), Some(0.8), None)),
    ];
    let s = scan_records(&records);
    let new_lat = anchor_axis(f64::from_bits(s.orig_lat), s.min_lat.map(f64::from_bits));
    let new_lon = anchor_axis(f64::from_bits(s.orig_lon), s.min_lon.map(f64::from_bits));
    assert_eq!(new_lat, 10.0);
    assert_eq!(new_lon, 20.0);

    // minimum (0.8, 0.9): still floor(10.8) = 10
    let records = vec![ref_lat(10.0), ref_lon(20.0), upd(1, lla(Some(0.8), Some(0.9), None))];
    let s = scan_records(&records);
    let new_lat = anchor_axis(f64::from_bits(s.orig_lat), s.min_lat.map(f64::from_bits));
    assert_eq!(new_lat, 10.0);
}

#[test]
fn anchor_steps_below_exact_integer_minimum() {
    // an observed minimum of exactly 1.0 against reference 0: plain floor
    // would land on the minimum itself and zero it out, so the anchor steps
    // one lower and the coordinates stay strictly positive and unshifted
    assert_eq!(anchor_axis(0.0, Some(1.0)), 0.0);
    // without any observation the floor of the reference itself stands
    assert_eq!(anchor_axis(10.0, None), 10.0);
}

#[test]
fn anchor_shift_moves_latitudes() {
    // minimum latitude 1.3: floor(11.3) = 11, every emitted latitude drops by 1
    let out = run_pipeline(vec![
        ref_lat(10.0),
        ref_lon(20.0),
        upd(1, lla(Some(1.3), Some(0.4), None)),
        upd(2, lla(Some(2.5), Some(0.6), None)),
    ]);
    let expected = vec![
        Record::GlobalProperty(GlobalProperty::ReferenceLatitude(11.0f64.to_bits())),
        ref_lon(20.0),
        upd(1, lla(Some(1.3 + (10.0 - 11.0)), Some(0.4), None)),
        upd(2, lla(Some(2.5 + (10.0 - 11.0)), Some(0.6), None)),
    ];
    assert!(records_eq(&out, &expected));
}

#[test]
fn remove_unknown_suppressed() {
    let out = run_pipeline(vec![ref_lat(0.0), ref_lon(0.0), Record::Remove(42)]);
    let expected = vec![ref_lat(0.0), ref_lon(0.0)];
    assert!(records_eq(&out, &expected));
}

#[test]
fn remove_known_emitted() {
    let out = run_pipeline(vec![
        ref_lat(0.0),
        ref_lon(0.0),
        upd(7, lla(Some(0.5), Some(0.5), None)),
        Record::Remove(7),
    ]);
    let expected = vec![
        ref_lat(0.0),
        ref_lon(0.0),
        upd(7, lla(Some(0.5), Some(0.5), None)),
        Record::Remove(7),
    ];
    assert!(records_eq(&out, &expected));
}

#[test]
fn frame_markers_deduplicated() {
    let out = run_pipeline(vec![
        ref_lat(0.0),
        ref_lon(0.0),
        Record::Frame(1.0f64.to_bits()),
        upd(1, lla(Some(0.5), Some(0.5), None)),
        Record::Frame(1.0f64.to_bits()),
        Record::Frame(2.0f64.to_bits()),
    ]);
    let expected = vec![
        ref_lat(0.0),
        ref_lon(0.0),
        Record::Frame(1.0f64.to_bits()),
        upd(1, lla(Some(0.5), Some(0.5), None)),
        Record::Frame(2.0f64.to_bits()),
    ];
    assert!(records_eq(&out, &expected));
}
