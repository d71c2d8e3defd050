//! The first pass over the trace.
//!
//! The scanner consumes records in file order. While the leading global
//! properties last it records the original reference latitude and longitude
//! (defaulting to the bit pattern of `+0.0`). From the first record that is
//! not a global property onwards it folds, over every update's first
//! coordinate property, the minimum of the observed latitudes and of the
//! observed longitudes. The minimum ranges only over non-NaN observations:
//! a NaN field of either sign is ignored by the fold
//! ([`lemma_scan_min_never_nan`]), so it can never become the minimum and
//! corrupt the anchor.
//!
//! The caller derives the new anchor from the originals and the minima and
//! builds the second-pass [`crate::engine::Engine`] from it.

use vstd::prelude::*;

use crate::floatbits::fle;
use crate::floatbits::fmin;
use crate::floatbits::fmin_exec;
use crate::floatbits::is_nan;
use crate::floatbits::is_nan_exec;
use crate::floatbits::lemma_total_order;
use crate::model::Coords;
use crate::model::Property;
use crate::model::PropertyV;
use crate::model::Record;
use crate::model::RecordV;
use crate::model::GlobalPropertyV;
use crate::model::TagV;
use crate::model::props_view;
use crate::model::records_view;
use crate::model::tag_of;
use crate::props::index_of_tag;
use crate::props::lemma_index_of_tag_at;
use crate::props::lemma_index_of_tag_none;

verus! {

/// The coordinates of the first property with the coordinate tag, if any.
pub open spec fn first_t_coords(ps: Seq<PropertyV>) -> Option<Coords> {
    match index_of_tag(ps, TagV::T) {
        Option::Some(i) => match ps[i] {
            PropertyV::T(c) => Option::Some(c),
            _ => Option::None,
        },
        Option::None => Option::None,
    }
}

/// Fold one observed field into a running minimum: absent fields and NaN
/// observations (of either sign) change nothing, the first non-NaN
/// observation starts the minimum.
pub open spec fn fold_min_field(acc: Option<u64>, x: Option<u64>) -> Option<u64> {
    match x {
        Option::None => acc,
        Option::Some(v) => if is_nan(v) {
            acc
        } else {
            match acc {
                Option::None => Option::Some(v),
                Option::Some(m) => Option::Some(fmin(m, v)),
            }
        },
    }
}

/// First-pass state; the struct doubles as its own mathematical model.
pub struct Scanner {
    /// Still inside the leading run of global properties.
    pub in_header: bool,
    /// Original reference latitude bits; `+0.0` until the header names one.
    pub orig_lat: u64,
    /// Original reference longitude bits; `+0.0` until the header names one.
    pub orig_lon: u64,
    /// Minimum observed non-NaN latitude bits, if any was observed.
    pub min_lat: Option<u64>,
    /// Minimum observed non-NaN longitude bits, if any was observed.
    pub min_lon: Option<u64>,
}

/// How one record after the header (or the record that ends it) changes the
/// scan: updates fold their first coordinate property into the minima.
pub open spec fn scan_record(s: Scanner, r: RecordV) -> Scanner {
    match r {
        RecordV::Update { id: _, props } => match first_t_coords(props) {
            Option::Some(c) => Scanner {
                min_lat: fold_min_field(s.min_lat, c.latitude),
                min_lon: fold_min_field(s.min_lon, c.longitude),
                ..s
            },
            Option::None => s,
        },
        _ => s,
    }
}

/// How one record changes the scan: header globals set the original
/// reference, the first non-global record closes the header and is itself
/// scanned, everything later is scanned.
pub open spec fn scan_step(s: Scanner, r: RecordV) -> Scanner {
    if s.in_header {
        match r {
            RecordV::GlobalProperty(GlobalPropertyV::ReferenceLatitude(v)) => Scanner {
                orig_lat: v,
                ..s
            },
            RecordV::GlobalProperty(GlobalPropertyV::ReferenceLongitude(v)) => Scanner {
                orig_lon: v,
                ..s
            },
            RecordV::GlobalProperty(_) => s,
            _ => scan_record(Scanner { in_header: false, ..s }, r),
        }
    } else {
        scan_record(s, r)
    }
}

/// The scan state after a whole record stream.
pub open spec fn scan_run(s0: Scanner, rs: Seq<RecordV>) -> Scanner
    decreases rs.len(),
{
    if rs.len() == 0 {
        s0
    } else {
        scan_step(scan_run(s0, rs.drop_last()), rs.last())
    }
}

/// The fresh scan state.
pub open spec fn scan_init() -> Scanner {
    Scanner {
        in_header: true,
        orig_lat: 0,
        orig_lon: 0,
        min_lat: Option::None,
        min_lon: Option::None,
    }
}

/// A missing observation defaults to the bit pattern of `+0.0`.
pub open spec fn min_or_zero(o: Option<u64>) -> u64 {
    match o {
        Option::Some(v) => v,
        Option::None => 0,
    }
}

/// Folding an observation keeps a genuine minimum over the non-NaN values:
/// the result is, in the IEEE total order, at most the previous minimum and
/// at most a non-NaN observation, and it is one of the two — never a NaN
/// that the previous minimum was not already.
pub proof fn lemma_fold_min_bounds(acc: Option<u64>, x: Option<u64>)
    ensures
        fold_min_field(acc, x) matches Some(r) ==> {
            &&& (acc matches Some(m) ==> fle(r, m))
            &&& (x matches Some(v) ==> is_nan(v) || fle(r, v))
            &&& (acc == Some(r) || (x == Some(r) && !is_nan(r)))
        },
        fold_min_field(acc, x) is None ==> acc is None,
{
    match (acc, x) {
        (Option::Some(m), Option::Some(v)) => {
            lemma_total_order(m, v);
        },
        _ => {},
    }
}

/// The running minimum of one axis is absent or a non-NaN value.
pub open spec fn min_wf(o: Option<u64>) -> bool {
    o matches Some(m) ==> !is_nan(m)
}

/// A NaN observation never becomes the minimum: over any stream, a scan
/// whose running minima are non-NaN keeps them non-NaN, so the minima range
/// only over the non-NaN observed values and cannot corrupt the anchor.
pub proof fn lemma_scan_min_never_nan(s0: Scanner, rs: Seq<RecordV>)
    requires
        min_wf(s0.min_lat),
        min_wf(s0.min_lon),
    ensures
        min_wf(scan_run(s0, rs).min_lat),
        min_wf(scan_run(s0, rs).min_lon),
    decreases rs.len(),
{
    if rs.len() == 0 {
    } else {
        lemma_scan_min_never_nan(s0, rs.drop_last());
        let st = scan_run(s0, rs.drop_last());
        match rs.last() {
            RecordV::Update { id: _, props } => {
                match first_t_coords(props) {
                    Option::Some(c) => {
                        lemma_fold_min_bounds(st.min_lat, c.latitude);
                        lemma_fold_min_bounds(st.min_lon, c.longitude);
                    },
                    Option::None => {},
                }
            },
            _ => {},
        }
    }
}

/// Runtime search for an update's first coordinate property.
fn first_t_coords_exec(ps: &Vec<Property>) -> (r: Option<Coords>)
    ensures
        r == first_t_coords(props_view(ps@)),
{
    let n = ps.len();
    let mut i: usize = 0;
    while i < n
        invariant
            n == ps.len(),
            i <= n,
            forall|j: int| 0 <= j < i ==> tag_of(props_view(ps@)[j]) != TagV::T,
        decreases n - i,
    {
        proof {
            assert(props_view(ps@)[i as int] == ps@[i as int]@);
        }
        match &ps[i] {
            Property::T(c) => {
                proof {
                    lemma_index_of_tag_at(props_view(ps@), TagV::T, i as int);
                }
                return Option::Some(*c);
            },
            _ => {},
        }
        i += 1;
    }
    proof {
        lemma_index_of_tag_none(props_view(ps@), TagV::T);
    }
    Option::None
}

impl Scanner {
    /// A fresh scanner, still in the header, with default reference and no
    /// observations yet.
    pub fn new() -> (r: Scanner)
        ensures
            r == scan_init(),
    {
        Scanner {
            in_header: true,
            orig_lat: 0,
            orig_lon: 0,
            min_lat: Option::None,
            min_lon: Option::None,
        }
    }

    /// Fold one record of the first pass into the scan, exactly as
    /// [`scan_step`] describes.
    pub fn step(&mut self, rec: &Record)
        ensures
            *final(self) == scan_step(*old(self), rec@),
    {
        if self.in_header {
            match rec {
                Record::GlobalProperty(g) => {
                    match g {
                        crate::model::GlobalProperty::ReferenceLatitude(v) => {
                            self.orig_lat = *v;
                        },
                        crate::model::GlobalProperty::ReferenceLongitude(v) => {
                            self.orig_lon = *v;
                        },
                        crate::model::GlobalProperty::Other { .. } => {},
                    }
                },
                _ => {
                    self.in_header = false;
                    self.scan(rec);
                },
            }
        } else {
            self.scan(rec);
        }
    }

    /// Fold a record that stands past the header, exactly as [`scan_record`]
    /// describes.
    fn scan(&mut self, rec: &Record)
        ensures
            *final(self) == scan_record(*old(self), rec@),
    {
        match rec {
            Record::Update { id: _, props } => {
                match first_t_coords_exec(props) {
                    Option::Some(c) => {
                        self.min_lat = fold_min_field_exec(self.min_lat, c.latitude);
                        self.min_lon = fold_min_field_exec(self.min_lon, c.longitude);
                    },
                    Option::None => {},
                }
            },
            _ => {},
        }
    }

    /// Minimum observed latitude bits, `+0.0` when none was observed.
    pub fn min_lat_or_zero(&self) -> (r: u64)
        ensures
            r == min_or_zero(self.min_lat),
    {
        match self.min_lat {
            Option::Some(v) => v,
            Option::None => 0,
        }
    }

    /// Minimum observed longitude bits, `+0.0` when none was observed.
    pub fn min_lon_or_zero(&self) -> (r: u64)
        ensures
            r == min_or_zero(self.min_lon),
    {
        match self.min_lon {
            Option::Some(v) => v,
            Option::None => 0,
        }
    }
}

/// Runtime computation of [`fold_min_field`].
fn fold_min_field_exec(acc: Option<u64>, x: Option<u64>) -> (r: Option<u64>)
    ensures
        r == fold_min_field(acc, x),
{
    match x {
        Option::None => acc,
        Option::Some(v) => if is_nan_exec(v) {
            acc
        } else {
            match acc {
                Option::None => Option::Some(v),
                Option::Some(m) => Option::Some(fmin_exec(m, v)),
            }
        },
    }
}

/// Scan a whole first-pass stream with a fresh scanner: the result is exactly
/// [`scan_run`] from [`scan_init`].
pub fn scan_records(records: &Vec<Record>) -> (r: Scanner)
    ensures
        r == scan_run(scan_init(), records_view(records@)),
{
    let ghost rv = records_view(records@);
    let mut s = Scanner::new();
    let n = records.len();
    let mut i: usize = 0;
    while i < n
        invariant
            n == records.len(),
            rv == records_view(records@),
            i <= n,
            s == scan_run(scan_init(), rv.take(i as int)),
        decreases n - i,
    {
        proof {
            assert(rv[i as int] == records@[i as int]@);
            assert(rv.take(i + 1).drop_last() =~= rv.take(i as int));
            assert(rv.take(i + 1).last() == rv[i as int]);
        }
        s.step(&records[i]);
        i += 1;
    }
    proof {
        assert(rv.take(n as int) =~= rv);
    }
    s
}

} // verus!
