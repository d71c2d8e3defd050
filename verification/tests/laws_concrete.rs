//! Concrete witnesses for the stream-level guarantees.

use acmi_rewriter::engine::rewrite_records;
use acmi_rewriter::floatbits::fpos_exec;
use acmi_rewriter::model::Coords;
use acmi_rewriter::model::GlobalProperty;
use acmi_rewriter::model::PropValue;
use acmi_rewriter::model::Property;
use acmi_rewriter::model::Record;

fn pos(lat: f64, lon: f64) -> Coords {
    Coords {
        longitude: Some(lon.to_bits()),
        latitude: Some(lat.to_bits()),
        altitude: None,
        u: None,
        v: None,
        roll: None,
        pitch: None,
        yaw: None,
        heading: None,
    }
}

fn stream() -> Vec<Record> {
    vec![
        Record::GlobalProperty(GlobalProperty::ReferenceLatitude(10.0f64.to_bits())),
        Record::GlobalProperty(GlobalProperty::ReferenceLongitude(20.0f64.to_bits())),
        Record::Frame(1.0f64.to_bits()),
        Record::Update { id: 1, props: vec![Property::T(pos(0.5, 0.25))] },
        Record::Update {
            id: 2,
            props: vec![
                Property::T(pos(0.75, 0.125)),
                Property::Scalar { code: 1, value: PropValue::Text(b"A".to_vec()) },
            ],
        },
        Record::Frame(1.0f64.to_bits()),
        Record::Update { id: 1, props: vec![Property::T(pos(0.5, 0.375))] },
        Record::Frame(2.0f64.to_bits()),
        Record::Update { id: 1, props: vec![Property::T(pos(0.5, 0.375))] },
        Record::Remove(3),
        Record::Remove(1),
    ]
}

fn rewritten() -> Vec<Record> {
    // the observed minima are fractional, so the anchor equals the original
    // reference and no shift is applied
    rewrite_records(&stream(), 10.0f64.to_bits(), 20.0f64.to_bits()).expect("accepted")
}

#[test]
fn every_emitted_coordinate_is_positive() {
    for rec in rewritten() {
        if let Record::Update { props, .. } = rec {
            for p in props {
                if let Property::T(c) = p {
                    if let Some(b) = c.latitude {
                        assert!(fpos_exec(b));
                    }
                    if let Some(b) = c.longitude {
                        assert!(fpos_exec(b));
                    }
                }
            }
        }
    }
}

#[test]
fn exactly_one_reference_pair_with_new_values() {
    let mut lats = Vec::new();
    let mut lons = Vec::new();
    for rec in rewritten() {
        match rec {
            Record::GlobalProperty(GlobalProperty::ReferenceLatitude(v)) => lats.push(v),
            Record::GlobalProperty(GlobalProperty::ReferenceLongitude(v)) => lons.push(v),
            _ => {}
        }
    }
    assert_eq!(lats, vec![10.0f64.to_bits()]);
    assert_eq!(lons, vec![20.0f64.to_bits()]);
}

#[test]
fn no_adjacent_equal_frames_and_no_dangling_removes() {
    let out = rewritten();
    let frames: Vec<u64> = out
        .iter()
        .filter_map(|r| match r {
            Record::Frame(ts) => Some(*ts),
            _ => None,
        })
        .collect();
    for w in frames.windows(2) {
        assert_ne!(f64::from_bits(w[0]), f64::from_bits(w[1]));
    }
    for (k, rec) in out.iter().enumerate() {
        if let Record::Remove(id) = rec {
            let seen_update = out[..k].iter().any(|r| matches!(r, Record::Update { id: u, .. } if u == id));
            assert!(seen_update, "a removal must follow an update for the entity");
        }
    }
}

/// Re-accumulate absolute per-entity coordinates from a stream, undoing the
/// "missing field means unchanged" encoding.
fn accumulate(records: &[Record]) -> Vec<(u64, Option<f64>, Option<f64>)> {
    let mut table: Vec<(u64, Option<f64>, Option<f64>)> = Vec::new();
    for rec in records {
        match rec {
            Record::Update { id, props } => {
                if table.iter().all(|e| e.0 != *id) {
                    table.push((*id, None, None));
                }
                let entry = table.iter_mut().find(|e| e.0 == *id).unwrap();
                for p in props {
                    if let Property::T(c) = p {
                        if let Some(b) = c.latitude {
                            entry.1 = Some(f64::from_bits(b));
                        }
                        if let Some(b) = c.longitude {
                            entry.2 = Some(f64::from_bits(b));
                        }
                    }
                }
            }
            Record::Remove(id) => table.retain(|e| e.0 != *id),
            _ => {}
        }
    }
    table
}

#[test]
fn reconstructed_trajectories_match_input() {
    // drop the final removal so entity 1 is still alive to compare
    let mut input = stream();
    input.pop();
    let output = rewrite_records(&input, 10.0f64.to_bits(), 20.0f64.to_bits()).expect("accepted");
    assert_eq!(accumulate(&input), accumulate(&output));
}
