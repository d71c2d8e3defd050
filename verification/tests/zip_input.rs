//! The same trace, plain and zip-wrapped, yields identical rewritten output.

use std::io::Cursor;
use std::io::Write;

use acmi_rewriter::engine::rewrite_records;
use acmi_rewriter::model::Coords;
use acmi_rewriter::model::GlobalProperty;
use acmi_rewriter::model::Property;
use acmi_rewriter::model::Record;
use acmi_rewriter::model::records_eq;
use acmi_rewriter::scanner::scan_records;

const TRACE: &str = "FileType=text/acmi/tacview\nFileVersion=2.2\n0,ReferenceLatitude=0\n0,ReferenceLongitude=0\n1,T=1|1|100\n1,T=1|1.5|100\n";

fn convert_prop(p: tacview::record::Property) -> Property {
    match p {
        tacview::record::Property::T(c) => Property::T(Coords {
            longitude: c.longitude.map(f64::to_bits),
            latitude: c.latitude.map(f64::to_bits),
            altitude: c.altitude.map(f64::to_bits),
            u: c.u.map(f64::to_bits),
            v: c.v.map(f64::to_bits),
            roll: c.roll.map(f64::to_bits),
            pitch: c.pitch.map(f64::to_bits),
            yaw: c.yaw.map(f64::to_bits),
            heading: c.heading.map(f64::to_bits),
        }),
        _ => panic!("property kind not used in this test"),
    }
}

fn convert_record(rec: tacview::record::Record) -> Record {
    match rec {
        tacview::record::Record::GlobalProperty(
            tacview::record::GlobalProperty::ReferenceLatitude(v),
        ) => Record::GlobalProperty(GlobalProperty::ReferenceLatitude(v.to_bits())),
        tacview::record::Record::GlobalProperty(
            tacview::record::GlobalProperty::ReferenceLongitude(v),
        ) => Record::GlobalProperty(GlobalProperty::ReferenceLongitude(v.to_bits())),
        tacview::record::Record::Frame(ts) => Record::Frame(ts.to_bits()),
        tacview::record::Record::Update(u) => Record::Update {
            id: u.id,
            props: u.props.into_iter().map(convert_prop).collect(),
        },
        tacview::record::Record::Remove(id) => Record::Remove(id),
        _ => panic!("record kind not used in this test"),
    }
}

fn anchor(orig: f64, min: Option<f64>) -> f64 {
    match min {
        None => orig.floor(),
        Some(m) => {
            let sum = orig + m;
            let floored = sum.floor();
            if floored == sum { floored - 1.0 } else { floored }
        }
    }
}

fn pipeline(records: Vec<Record>) -> Vec<Record> {
    let s = scan_records(&records);
    let new_lat = anchor(f64::from_bits(s.orig_lat), s.min_lat.map(f64::from_bits));
    let new_lon = anchor(f64::from_bits(s.orig_lon), s.min_lon.map(f64::from_bits));
    // the whole-degree minimum steps the anchor to (0, 0): no shift applied
    assert_eq!(new_lat, 0.0);
    assert_eq!(new_lon, 0.0);
    rewrite_records(&records, new_lat.to_bits(), new_lon.to_bits()).expect("anchor fits")
}

fn parse_plain() -> Vec<Record> {
    let parser = tacview::Parser::new(TRACE.as_bytes()).expect("valid header");
    parser
        .map(|r| convert_record(r.expect("valid record")))
        .collect()
}

fn parse_zipped() -> Vec<Record> {
    let mut zw = zip::ZipWriter::new(Cursor::new(Vec::new()));
    zw.start_file("track.txt.acmi", zip::write::SimpleFileOptions::default())
        .expect("zip entry");
    zw.write_all(TRACE.as_bytes()).expect("zip body");
    let bytes = zw.finish().expect("zip finish").into_inner();

    let mut cur = Cursor::new(bytes);
    let parser = tacview::Parser::new_compressed(&mut cur).expect("valid compressed header");
    parser
        .map(|r| convert_record(r.expect("valid record")))
        .collect()
}

#[test]
fn zip_wrapped_input_gives_identical_output() {
    let plain = pipeline(parse_plain());
    let zipped = pipeline(parse_zipped());
    assert!(records_eq(&plain, &zipped));

    let expected = vec![
        Record::GlobalProperty(GlobalProperty::ReferenceLatitude(0.0f64.to_bits())),
        Record::GlobalProperty(GlobalProperty::ReferenceLongitude(0.0f64.to_bits())),
        Record::Update {
            id: 1,
            props: vec![Property::T(Coords {
                longitude: Some(1.0f64.to_bits()),
                latitude: Some(1.0f64.to_bits()),
                altitude: Some(100.0f64.to_bits()),
                u: None,
                v: None,
                roll: None,
                pitch: None,
                yaw: None,
                heading: None,
            })],
        },
        Record::Update {
            id: 1,
            props: vec![Property::T(Coords {
                longitude: None,
                latitude: Some(1.5f64.to_bits()),
                altitude: None,
                u: None,
                v: None,
                roll: None,
                pitch: None,
                yaw: None,
                heading: None,
            })],
        },
    ];
    assert!(records_eq(&plain, &expected));
}
