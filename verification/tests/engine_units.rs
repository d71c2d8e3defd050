//! The diff engine, step by step.

use acmi_rewriter::engine::Engine;
use acmi_rewriter::engine::EngineError;
use acmi_rewriter::engine::rewrite_records;
use acmi_rewriter::model::Coords;
use acmi_rewriter::model::GlobalProperty;
use acmi_rewriter::model::PropValue;
use acmi_rewriter::model::Property;
use acmi_rewriter::model::Record;
use acmi_rewriter::model::record_eq;

fn mk_coords(lat: Option<f64>, lon: Option<f64>, alt: Option<f64>) -> Coords {
    Coords {
        longitude: lon.map(f64::to_bits),
        latitude: lat.map(f64::to_bits),
        altitude: alt.map(f64::to_bits),
        u: None,
        v: None,
        roll: None,
        pitch: None,
        yaw: None,
        heading: None,
    }
}

fn text_prop(code: u64, s: &str) -> Property {
    Property::Scalar { code, value: PropValue::Text(s.as_bytes().to_vec()) }
}

fn step_emits(eng: &mut Engine, rec: Record) -> Option<Record> {
    eng.step(rec).expect("record accepted")
}

#[test]
fn non_positive_latitude_is_an_error() {
    let mut eng = Engine::new(0.0f64.to_bits(), 0.0f64.to_bits());
    let bad = Record::Update {
        id: 9,
        props: vec![Property::T(mk_coords(Some(-1.0), Some(2.0), None))],
    };
    match eng.step(bad) {
        Err(EngineError::NonPositiveCoordinate { id }) => assert_eq!(id, 9),
        _ => panic!("a negative latitude must be rejected"),
    }
    // zero is not strictly positive either
    let zero = Record::Update {
        id: 3,
        props: vec![Property::T(mk_coords(Some(0.0), Some(2.0), None))],
    };
    assert!(eng.step(zero).is_err());
}

#[test]
fn later_duplicate_tag_wins() {
    let mut eng = Engine::new(0.0f64.to_bits(), 0.0f64.to_bits());
    let rec = Record::Update { id: 1, props: vec![text_prop(4, "first"), text_prop(4, "second")] };
    let out = step_emits(&mut eng, rec).expect("first update is emitted");
    let expected = Record::Update { id: 1, props: vec![text_prop(4, "second")] };
    assert!(record_eq(&out, &expected));
}

#[test]
fn unchanged_scalar_update_suppressed() {
    let mut eng = Engine::new(0.0f64.to_bits(), 0.0f64.to_bits());
    let first = Record::Update { id: 1, props: vec![text_prop(4, "aircraft")] };
    assert!(step_emits(&mut eng, first).is_some());
    let again = Record::Update { id: 1, props: vec![text_prop(4, "aircraft")] };
    assert!(step_emits(&mut eng, again).is_none());
}

#[test]
fn changed_scalar_emitted_alone() {
    let mut eng = Engine::new(0.0f64.to_bits(), 0.0f64.to_bits());
    let first = Record::Update { id: 1, props: vec![text_prop(4, "one"), text_prop(5, "left")] };
    assert!(step_emits(&mut eng, first).is_some());
    let second = Record::Update { id: 1, props: vec![text_prop(4, "one"), text_prop(5, "right")] };
    let out = step_emits(&mut eng, second).expect("a changed property is emitted");
    let expected = Record::Update { id: 1, props: vec![text_prop(5, "right")] };
    assert!(record_eq(&out, &expected));
}

#[test]
fn reference_globals_substituted() {
    let mut eng = Engine::new(33.0f64.to_bits(), 44.0f64.to_bits());
    let out = step_emits(
        &mut eng,
        Record::GlobalProperty(GlobalProperty::ReferenceLatitude(10.0f64.to_bits())),
    )
    .expect("globals pass through");
    let expected = Record::GlobalProperty(GlobalProperty::ReferenceLatitude(33.0f64.to_bits()));
    assert!(record_eq(&out, &expected));
    let out = step_emits(
        &mut eng,
        Record::GlobalProperty(GlobalProperty::ReferenceLongitude(10.0f64.to_bits())),
    )
    .expect("globals pass through");
    let expected = Record::GlobalProperty(GlobalProperty::ReferenceLongitude(44.0f64.to_bits()));
    assert!(record_eq(&out, &expected));
}

#[test]
fn re_added_entity_emits_full_state() {
    let mut eng = Engine::new(0.0f64.to_bits(), 0.0f64.to_bits());
    assert!(
        step_emits(&mut eng, Record::Update { id: 1, props: vec![text_prop(4, "pilot")] })
            .is_some()
    );
    assert!(step_emits(&mut eng, Record::Remove(1)).is_some());
    // after removal the entity is unknown again, so the same update is full
    let out = step_emits(&mut eng, Record::Update { id: 1, props: vec![text_prop(4, "pilot")] })
        .expect("an unknown entity's update is emitted whole");
    let expected = Record::Update { id: 1, props: vec![text_prop(4, "pilot")] };
    assert!(record_eq(&out, &expected));
}

#[test]
fn opposite_zero_repeat_suppressed() {
    // +0.0 and -0.0 are IEEE-equal, so the repeat carries no change
    let mut eng = Engine::new(0.0f64.to_bits(), 0.0f64.to_bits());
    let first = Record::Update { id: 1, props: vec![Property::T(mk_coords(None, None, Some(0.0)))] };
    assert!(step_emits(&mut eng, first).is_some());
    let second =
        Record::Update { id: 1, props: vec![Property::T(mk_coords(None, None, Some(-0.0)))] };
    assert!(step_emits(&mut eng, second).is_none());
}

#[test]
fn rewrite_records_propagates_rejection() {
    let recs = vec![Record::Update {
        id: 2,
        props: vec![Property::T(mk_coords(Some(-5.0), Some(1.0), None))],
    }];
    assert!(rewrite_records(&recs, 0, 0).is_err());
}

#[test]
fn events_pass_through() {
    let mut eng = Engine::new(0.0f64.to_bits(), 0.0f64.to_bits());
    let ev = acmi_rewriter::model::Event {
        kind: b"Destroyed".to_vec(),
        params: vec![b"101".to_vec()],
        text: None,
    };
    let ev2 = acmi_rewriter::model::Event {
        kind: b"Destroyed".to_vec(),
        params: vec![b"101".to_vec()],
        text: None,
    };
    let out = step_emits(&mut eng, Record::Event(ev)).expect("events pass through");
    assert!(record_eq(&out, &Record::Event(ev2)));
}
