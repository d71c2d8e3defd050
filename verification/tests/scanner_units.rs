//! The first-pass scanner.

use acmi_rewriter::model::Coords;
use acmi_rewriter::model::GlobalProperty;
use acmi_rewriter::model::Property;
use acmi_rewriter::model::Record;
use acmi_rewriter::scanner::Scanner;
use acmi_rewriter::scanner::scan_records;

fn coords_at(lat: f64, lon: f64) -> Coords {
    Coords {
        longitude: Some(lon.to_bits()),
        latitude: Some(lat.to_bits()),
        altitude: None,
        u: None,
        v: None,
        roll: None,
        pitch: None,
        yaw: None,
        heading: None,
    }
}

fn global_lat(x: f64) -> Record {
    Record::GlobalProperty(GlobalProperty::ReferenceLatitude(x.to_bits()))
}

fn global_lon(x: f64) -> Record {
    Record::GlobalProperty(GlobalProperty::ReferenceLongitude(x.to_bits()))
}

fn update_at(id: u64, lat: f64, lon: f64) -> Record {
    Record::Update { id, props: vec![Property::T(coords_at(lat, lon))] }
}

#[test]
fn empty_stream_defaults() {
    let s = scan_records(&Vec::new());
    assert_eq!(s.orig_lat, 0.0f64.to_bits());
    assert_eq!(s.orig_lon, 0.0f64.to_bits());
    assert_eq!(s.min_lat_or_zero(), 0.0f64.to_bits());
    assert_eq!(s.min_lon_or_zero(), 0.0f64.to_bits());
}

#[test]
fn header_reads_references() {
    let s = scan_records(&vec![
        Record::GlobalProperty(GlobalProperty::Other {
            name: b"Title".to_vec(),
            value: b"sortie".to_vec(),
        }),
        global_lat(5.0),
        global_lon(6.0),
    ]);
    assert_eq!(s.orig_lat, 5.0f64.to_bits());
    assert_eq!(s.orig_lon, 6.0f64.to_bits());
}

#[test]
fn reference_after_header_ignored() {
    // the first non-global record closes the header; a reference global
    // coming later no longer changes the original reference
    let s = scan_records(&vec![
        global_lat(5.0),
        Record::Frame(1.0f64.to_bits()),
        global_lat(9.0),
    ]);
    assert_eq!(s.orig_lat, 5.0f64.to_bits());
}

#[test]
fn record_closing_header_is_scanned() {
    let s = scan_records(&vec![global_lat(10.0), update_at(1, 0.2, 0.7)]);
    assert_eq!(s.min_lat_or_zero(), 0.2f64.to_bits());
    assert_eq!(s.min_lon_or_zero(), 0.7f64.to_bits());
}

#[test]
fn minimum_folds_per_axis() {
    let s = scan_records(&vec![
        global_lat(0.0),
        update_at(1, 3.0, 8.0),
        update_at(2, 5.0, 2.0),
        update_at(3, 4.0, 9.0),
    ]);
    assert_eq!(s.min_lat_or_zero(), 3.0f64.to_bits());
    assert_eq!(s.min_lon_or_zero(), 2.0f64.to_bits());
}

#[test]
fn nan_does_not_displace_minimum() {
    let s = scan_records(&vec![
        global_lat(0.0),
        update_at(1, f64::NAN, f64::NAN),
        update_at(2, 4.0, 3.0),
    ]);
    assert_eq!(s.min_lat_or_zero(), 4.0f64.to_bits());
    assert_eq!(s.min_lon_or_zero(), 3.0f64.to_bits());
}

#[test]
fn negative_nan_does_not_displace_minimum() {
    // a negative NaN sorts below every real in the raw total order; the
    // scanner must ignore it whether it comes before or after the real
    // minimum
    let s = scan_records(&vec![
        global_lat(0.0),
        update_at(1, -f64::NAN, -f64::NAN),
        update_at(2, 4.0, 3.0),
    ]);
    assert_eq!(s.min_lat_or_zero(), 4.0f64.to_bits());
    assert_eq!(s.min_lon_or_zero(), 3.0f64.to_bits());

    let s = scan_records(&vec![
        global_lat(0.0),
        update_at(1, 4.0, 3.0),
        update_at(2, -f64::NAN, -f64::NAN),
    ]);
    assert_eq!(s.min_lat_or_zero(), 4.0f64.to_bits());
    assert_eq!(s.min_lon_or_zero(), 3.0f64.to_bits());
}

#[test]
fn only_nan_observations_leave_no_minimum() {
    // with every observation NaN the axis counts as unobserved and its
    // minimum defaults to zero
    let s = scan_records(&vec![
        global_lat(0.0),
        update_at(1, f64::NAN, -f64::NAN),
        update_at(2, -f64::NAN, f64::NAN),
    ]);
    assert!(s.min_lat.is_none());
    assert!(s.min_lon.is_none());
    assert_eq!(s.min_lat_or_zero(), 0.0f64.to_bits());
    assert_eq!(s.min_lon_or_zero(), 0.0f64.to_bits());
}

#[test]
fn only_first_coordinate_property_counts() {
    let rec = Record::Update {
        id: 1,
        props: vec![Property::T(coords_at(5.0, 5.0)), Property::T(coords_at(1.0, 1.0))],
    };
    let s = scan_records(&vec![global_lat(0.0), rec]);
    assert_eq!(s.min_lat_or_zero(), 5.0f64.to_bits());
}

#[test]
fn stepwise_scan_matches_whole_scan() {
    let records = vec![global_lat(7.0), global_lon(8.0), update_at(1, 1.5, 2.5)];
    let mut s = Scanner::new();
    for r in &records {
        s.step(r);
    }
    let whole = scan_records(&records);
    assert_eq!(s.orig_lat, whole.orig_lat);
    assert_eq!(s.orig_lon, whole.orig_lon);
    assert_eq!(s.min_lat_or_zero(), whole.min_lat_or_zero());
    assert_eq!(s.min_lon_or_zero(), whole.min_lon_or_zero());
}
