//! The ACMI record model.
//!
//! Records mirror the line-oriented trace format: global header properties,
//! events, frame markers, per-entity updates and removals. Text is carried as
//! UTF-8 bytes, doubles as their IEEE-754 bit patterns (see
//! [`crate::floatbits`]), so every field is a plain value.
//!
//! A property's identity within an entity is its *tag* ([`TagV`], computed by
//! [`tag_of`]): the coordinate property `T`, a numbered scalar kind, or the
//! name of an unrecognised property. Whole-value equality of properties
//! ([`prop_eqv`]) compares numbers by IEEE equality, so it is the equality the
//! diff engine suppresses repeats under.

use vstd::prelude::*;

use crate::floatbits::feq;
use crate::floatbits::feq_exec;
use crate::floatbits::fpos;
use crate::floatbits::fpos_exec;

verus! {

/// Positional data of an entity. A `None` field means "unchanged since the
/// entity's last coordinate update". Each `Some` holds an `f64` bit pattern.
#[derive(Clone, Copy)]
pub struct Coords {
    pub longitude: Option<u64>,
    pub latitude: Option<u64>,
    pub altitude: Option<u64>,
    pub u: Option<u64>,
    pub v: Option<u64>,
    pub roll: Option<u64>,
    pub pitch: Option<u64>,
    pub yaw: Option<u64>,
    pub heading: Option<u64>,
}

/// Value of a non-coordinate entity property.
pub enum PropValue {
    /// Free text, or a name standing for an enumerated value.
    Text(Vec<u8>),
    /// A double, as its bit pattern.
    Number(u64),
    /// An object id or another integer.
    Id(u64),
    /// A boolean attribute.
    Flag(bool),
    /// A set of names, canonicalised to a sorted list.
    TextList(Vec<Vec<u8>>),
}

/// One property of an entity update.
pub enum Property {
    /// The coordinate property.
    T(Coords),
    /// A recognised scalar property; `code` names the kind.
    Scalar { code: u64, value: PropValue },
    /// An unrecognised property, kept by name.
    Unknown { name: Vec<u8>, value: Vec<u8> },
}

/// A property of the whole trace, from the header.
pub enum GlobalProperty {
    /// The global origin added to every entity latitude.
    ReferenceLatitude(u64),
    /// The global origin added to every entity longitude.
    ReferenceLongitude(u64),
    /// Any other global property, kept by name and passed through.
    Other { name: Vec<u8>, value: Vec<u8> },
}

/// A discrete event; passed through unchanged.
pub struct Event {
    pub kind: Vec<u8>,
    pub params: Vec<Vec<u8>>,
    pub text: Option<Vec<u8>>,
}

/// One record of an ACMI trace.
pub enum Record {
    GlobalProperty(GlobalProperty),
    Event(Event),
    /// A timestamp (bit pattern) marking the start of a frame.
    Frame(u64),
    /// A state update for the entity `id`.
    Update { id: u64, props: Vec<Property> },
    /// Removal of the entity `id`.
    Remove(u64),
}

// ------------------------------------------------------------------
// Mathematical views
// ------------------------------------------------------------------

/// View of a [`PropValue`].
pub enum PropValueV {
    Text(Seq<u8>),
    Number(u64),
    Id(u64),
    Flag(bool),
    TextList(Seq<Seq<u8>>),
}

/// View of a [`Property`].
pub enum PropertyV {
    T(Coords),
    Scalar { code: u64, value: PropValueV },
    Unknown { name: Seq<u8>, value: Seq<u8> },
}

/// View of a [`GlobalProperty`].
pub enum GlobalPropertyV {
    ReferenceLatitude(u64),
    ReferenceLongitude(u64),
    Other { name: Seq<u8>, value: Seq<u8> },
}

/// View of an [`Event`].
pub struct EventV {
    pub kind: Seq<u8>,
    pub params: Seq<Seq<u8>>,
    pub text: Option<Seq<u8>>,
}

/// View of a [`Record`].
pub enum RecordV {
    GlobalProperty(GlobalPropertyV),
    Event(EventV),
    Frame(u64),
    Update { id: u64, props: Seq<PropertyV> },
    Remove(u64),
}

/// View of a list of byte strings.
pub open spec fn texts_view(v: Seq<Vec<u8>>) -> Seq<Seq<u8>> {
    v.map_values(|x: Vec<u8>| x@)
}

impl View for PropValue {
    type V = PropValueV;

    open spec fn view(&self) -> PropValueV {
        match self {
            PropValue::Text(t) => PropValueV::Text(t@),
            PropValue::Number(n) => PropValueV::Number(*n),
            PropValue::Id(n) => PropValueV::Id(*n),
            PropValue::Flag(b) => PropValueV::Flag(*b),
            PropValue::TextList(ts) => PropValueV::TextList(texts_view(ts@)),
        }
    }
}

impl View for Property {
    type V = PropertyV;

    open spec fn view(&self) -> PropertyV {
        match self {
            Property::T(c) => PropertyV::T(*c),
            Property::Scalar { code, value } => PropertyV::Scalar { code: *code, value: value@ },
            Property::Unknown { name, value } => PropertyV::Unknown {
                name: name@,
                value: value@,
            },
        }
    }
}

impl View for GlobalProperty {
    type V = GlobalPropertyV;

    open spec fn view(&self) -> GlobalPropertyV {
        match self {
            GlobalProperty::ReferenceLatitude(v) => GlobalPropertyV::ReferenceLatitude(*v),
            GlobalProperty::ReferenceLongitude(v) => GlobalPropertyV::ReferenceLongitude(*v),
            GlobalProperty::Other { name, value } => GlobalPropertyV::Other {
                name: name@,
                value: value@,
            },
        }
    }
}

impl View for Event {
    type V = EventV;

    open spec fn view(&self) -> EventV {
        EventV { kind: self.kind@, params: texts_view(self.params@), text: opt_bytes_view(self.text) }
    }
}

/// View of an optional byte string.
pub open spec fn opt_bytes_view(o: Option<Vec<u8>>) -> Option<Seq<u8>> {
    match o {
        Option::Some(v) => Option::Some(v@),
        Option::None => Option::None,
    }
}

/// View of a property list.
pub open spec fn props_view(ps: Seq<Property>) -> Seq<PropertyV> {
    ps.map_values(|p: Property| p@)
}

/// View of a record list.
pub open spec fn records_view(rs: Seq<Record>) -> Seq<RecordV> {
    rs.map_values(|r: Record| r@)
}

/// View of an optional record.
pub open spec fn opt_record_view(o: Option<Record>) -> Option<RecordV> {
    match o {
        Option::Some(r) => Option::Some(r@),
        Option::None => Option::None,
    }
}

impl View for Record {
    type V = RecordV;

    open spec fn view(&self) -> RecordV {
        match self {
            Record::GlobalProperty(g) => RecordV::GlobalProperty(g@),
            Record::Event(e) => RecordV::Event(e@),
            Record::Frame(ts) => RecordV::Frame(*ts),
            Record::Update { id, props } => RecordV::Update {
                id: *id,
                props: props_view(props@),
            },
            Record::Remove(id) => RecordV::Remove(*id),
        }
    }
}

// ------------------------------------------------------------------
// Property tags
// ------------------------------------------------------------------

/// The identity of a property kind within an entity, independent of its value.
pub enum TagV {
    /// The coordinate property.
    T,
    /// A recognised scalar property kind.
    Scalar(u64),
    /// An unrecognised property, identified by its name.
    Unknown(Seq<u8>),
}

/// The tag of a property.
pub open spec fn tag_of(p: PropertyV) -> TagV {
    match p {
        PropertyV::T(_) => TagV::T,
        PropertyV::Scalar { code, value: _ } => TagV::Scalar(code),
        PropertyV::Unknown { name, value: _ } => TagV::Unknown(name),
    }
}

/// Runtime test: do two properties carry the same tag?
pub fn same_tag(a: &Property, b: &Property) -> (r: bool)
    ensures
        r == (tag_of(a@) == tag_of(b@)),
{
    match (a, b) {
        (Property::T(_), Property::T(_)) => true,
        (Property::Scalar { code: c1, value: _ }, Property::Scalar { code: c2, value: _ }) => c1
            == c2,
        (Property::Unknown { name: n1, value: _ }, Property::Unknown { name: n2, value: _ }) => {
            bytes_eq(n1, n2)
        },
        _ => false,
    }
}

// ------------------------------------------------------------------
// Byte-string comparison and copying
// ------------------------------------------------------------------

/// Runtime equality of two byte strings.
pub fn bytes_eq(a: &Vec<u8>, b: &Vec<u8>) -> (r: bool)
    ensures
        r == (a@ == b@),
{
    if a.len() != b.len() {
        return false;
    }
    let n = a.len();
    let mut i: usize = 0;
    while i < n
        invariant
            n == a.len() == b.len(),
            i <= n,
            forall|j: int| 0 <= j < i ==> a@[j] == b@[j],
        decreases n - i,
    {
        if a[i] != b[i] {
            return false;
        }
        i += 1;
    }
    proof {
        assert(a@ =~= b@);
    }
    true
}

/// Runtime equality of two lists of byte strings.
pub fn texts_eq(a: &Vec<Vec<u8>>, b: &Vec<Vec<u8>>) -> (r: bool)
    ensures
        r == (texts_view(a@) == texts_view(b@)),
{
    if a.len() != b.len() {
        proof {
            assert(texts_view(a@).len() != texts_view(b@).len());
        }
        return false;
    }
    let n = a.len();
    let mut i: usize = 0;
    while i < n
        invariant
            n == a.len() == b.len(),
            i <= n,
            forall|j: int| 0 <= j < i ==> texts_view(a@)[j] == texts_view(b@)[j],
        decreases n - i,
    {
        if !bytes_eq(&a[i], &b[i]) {
            proof {
                assert(texts_view(a@)[i as int] == a@[i as int]@);
                assert(texts_view(b@)[i as int] == b@[i as int]@);
            }
            return false;
        }
        i += 1;
    }
    proof {
        assert(texts_view(a@) =~= texts_view(b@));
    }
    true
}

/// A fresh byte string with the same contents.
pub fn copy_bytes(v: &Vec<u8>) -> (r: Vec<u8>)
    ensures
        r@ == v@,
{
    let r = v.clone();
    proof {
        assert(r@ =~= v@);
    }
    r
}

/// A fresh list of byte strings with the same contents.
pub fn copy_texts(v: &Vec<Vec<u8>>) -> (r: Vec<Vec<u8>>)
    ensures
        texts_view(r@) == texts_view(v@),
{
    let mut r: Vec<Vec<u8>> = Vec::new();
    let n = v.len();
    let mut i: usize = 0;
    while i < n
        invariant
            n == v.len(),
            i <= n,
            r.len() == i,
            forall|j: int| 0 <= j < i ==> r@[j]@ == v@[j]@,
        decreases n - i,
    {
        r.push(copy_bytes(&v[i]));
        i += 1;
    }
    proof {
        assert(texts_view(r@) =~= texts_view(v@));
    }
    r
}

// ------------------------------------------------------------------
// Whole-value equality of properties
// ------------------------------------------------------------------

/// IEEE equality lifted to optional doubles: both absent, or both present and
/// equal.
pub open spec fn opt_feq(a: Option<u64>, b: Option<u64>) -> bool {
    match (a, b) {
        (Option::None, Option::None) => true,
        (Option::Some(x), Option::Some(y)) => feq(x, y),
        _ => false,
    }
}

/// Field-wise IEEE equality of coordinates.
pub open spec fn coords_eqv(a: Coords, b: Coords) -> bool {
    &&& opt_feq(a.longitude, b.longitude)
    &&& opt_feq(a.latitude, b.latitude)
    &&& opt_feq(a.altitude, b.altitude)
    &&& opt_feq(a.u, b.u)
    &&& opt_feq(a.v, b.v)
    &&& opt_feq(a.roll, b.roll)
    &&& opt_feq(a.pitch, b.pitch)
    &&& opt_feq(a.yaw, b.yaw)
    &&& opt_feq(a.heading, b.heading)
}

/// Whole-value equality of property values; numbers compare by IEEE equality.
pub open spec fn value_eqv(a: PropValueV, b: PropValueV) -> bool {
    match (a, b) {
        (PropValueV::Text(x), PropValueV::Text(y)) => x == y,
        (PropValueV::Number(x), PropValueV::Number(y)) => feq(x, y),
        (PropValueV::Id(x), PropValueV::Id(y)) => x == y,
        (PropValueV::Flag(x), PropValueV::Flag(y)) => x == y,
        (PropValueV::TextList(x), PropValueV::TextList(y)) => x == y,
        _ => false,
    }
}

/// Whole-value equality of properties: same tag and equal value, with doubles
/// compared by IEEE equality.
pub open spec fn prop_eqv(a: PropertyV, b: PropertyV) -> bool {
    match (a, b) {
        (PropertyV::T(x), PropertyV::T(y)) => coords_eqv(x, y),
        (
            PropertyV::Scalar { code: c1, value: v1 },
            PropertyV::Scalar { code: c2, value: v2 },
        ) => c1 == c2 && value_eqv(v1, v2),
        (
            PropertyV::Unknown { name: n1, value: v1 },
            PropertyV::Unknown { name: n2, value: v2 },
        ) => n1 == n2 && v1 == v2,
        _ => false,
    }
}

/// Runtime test for [`opt_feq`].
pub fn opt_feq_exec(a: Option<u64>, b: Option<u64>) -> (r: bool)
    ensures
        r == opt_feq(a, b),
{
    match (a, b) {
        (Option::None, Option::None) => true,
        (Option::Some(x), Option::Some(y)) => feq_exec(x, y),
        _ => false,
    }
}

/// Runtime test for [`coords_eqv`].
pub fn coords_eqv_exec(a: &Coords, b: &Coords) -> (r: bool)
    ensures
        r == coords_eqv(*a, *b),
{
    opt_feq_exec(a.longitude, b.longitude) && opt_feq_exec(a.latitude, b.latitude)
        && opt_feq_exec(a.altitude, b.altitude) && opt_feq_exec(a.u, b.u) && opt_feq_exec(
        a.v,
        b.v,
    ) && opt_feq_exec(a.roll, b.roll) && opt_feq_exec(a.pitch, b.pitch) && opt_feq_exec(
        a.yaw,
        b.yaw,
    ) && opt_feq_exec(a.heading, b.heading)
}

/// Runtime test for [`value_eqv`].
pub fn value_eqv_exec(a: &PropValue, b: &PropValue) -> (r: bool)
    ensures
        r == value_eqv(a@, b@),
{
    match (a, b) {
        (PropValue::Text(x), PropValue::Text(y)) => bytes_eq(x, y),
        (PropValue::Number(x), PropValue::Number(y)) => feq_exec(*x, *y),
        (PropValue::Id(x), PropValue::Id(y)) => x == y,
        (PropValue::Flag(x), PropValue::Flag(y)) => x == y,
        (PropValue::TextList(x), PropValue::TextList(y)) => texts_eq(x, y),
        _ => false,
    }
}

/// Runtime test for [`prop_eqv`].
pub fn prop_eqv_exec(a: &Property, b: &Property) -> (r: bool)
    ensures
        r == prop_eqv(a@, b@),
{
    match (a, b) {
        (Property::T(x), Property::T(y)) => coords_eqv_exec(x, y),
        (Property::Scalar { code: c1, value: v1 }, Property::Scalar { code: c2, value: v2 }) => c1
            == c2 && value_eqv_exec(v1, v2),
        (Property::Unknown { name: n1, value: v1 }, Property::Unknown { name: n2, value: v2 }) => {
            bytes_eq(n1, n2) && bytes_eq(v1, v2)
        },
        _ => false,
    }
}

// ------------------------------------------------------------------
// Coordinate operations
// ------------------------------------------------------------------

/// One field of a coordinate diff: present in the result exactly when the
/// incoming field is present and differs (IEEE) from the committed one.
pub open spec fn delta_field(prev: Option<u64>, curr: Option<u64>) -> Option<u64> {
    match curr {
        Option::None => Option::None,
        Option::Some(x) => {
            match prev {
                Option::Some(p) => if feq(p, x) {
                    Option::None
                } else {
                    Option::Some(x)
                },
                Option::None => Option::Some(x),
            }
        },
    }
}

/// Field-wise diff of coordinates against committed state.
pub open spec fn coords_delta(prev: Coords, curr: Coords) -> Coords {
    Coords {
        longitude: delta_field(prev.longitude, curr.longitude),
        latitude: delta_field(prev.latitude, curr.latitude),
        altitude: delta_field(prev.altitude, curr.altitude),
        u: delta_field(prev.u, curr.u),
        v: delta_field(prev.v, curr.v),
        roll: delta_field(prev.roll, curr.roll),
        pitch: delta_field(prev.pitch, curr.pitch),
        yaw: delta_field(prev.yaw, curr.yaw),
        heading: delta_field(prev.heading, curr.heading),
    }
}

/// One field of a coordinate merge: the incoming field wins when present.
pub open spec fn merge_field(prev: Option<u64>, curr: Option<u64>) -> Option<u64> {
    match curr {
        Option::Some(x) => Option::Some(x),
        Option::None => prev,
    }
}

/// Field-wise merge of an incoming (possibly partial) coordinate record into
/// committed state: the accumulated absolute position.
pub open spec fn coords_merge(prev: Coords, curr: Coords) -> Coords {
    Coords {
        longitude: merge_field(prev.longitude, curr.longitude),
        latitude: merge_field(prev.latitude, curr.latitude),
        altitude: merge_field(prev.altitude, curr.altitude),
        u: merge_field(prev.u, curr.u),
        v: merge_field(prev.v, curr.v),
        roll: merge_field(prev.roll, curr.roll),
        pitch: merge_field(prev.pitch, curr.pitch),
        yaw: merge_field(prev.yaw, curr.yaw),
        heading: merge_field(prev.heading, curr.heading),
    }
}

/// No field is present.
pub open spec fn coords_is_empty(c: Coords) -> bool {
    &&& c.longitude is None
    &&& c.latitude is None
    &&& c.altitude is None
    &&& c.u is None
    &&& c.v is None
    &&& c.roll is None
    &&& c.pitch is None
    &&& c.yaw is None
    &&& c.heading is None
}

/// Every present field of `d` is a present field of `c` with the same bits.
pub open spec fn coords_subset(d: Coords, c: Coords) -> bool {
    &&& (d.longitude matches Some(x) ==> c.longitude == Some(x))
    &&& (d.latitude matches Some(x) ==> c.latitude == Some(x))
    &&& (d.altitude matches Some(x) ==> c.altitude == Some(x))
    &&& (d.u matches Some(x) ==> c.u == Some(x))
    &&& (d.v matches Some(x) ==> c.v == Some(x))
    &&& (d.roll matches Some(x) ==> c.roll == Some(x))
    &&& (d.pitch matches Some(x) ==> c.pitch == Some(x))
    &&& (d.yaw matches Some(x) ==> c.yaw == Some(x))
    &&& (d.heading matches Some(x) ==> c.heading == Some(x))
}

/// Whatever latitude or longitude the record carries is strictly positive.
pub open spec fn coords_anchored(c: Coords) -> bool {
    &&& (c.latitude matches Some(x) ==> fpos(x))
    &&& (c.longitude matches Some(x) ==> fpos(x))
}

/// A diff only repeats bits of the incoming record.
pub proof fn lemma_delta_subset(prev: Coords, curr: Coords)
    ensures
        coords_subset(coords_delta(prev, curr), curr),
{
}

/// Runtime computation of [`coords_delta`].
pub fn coords_delta_exec(prev: &Coords, curr: &Coords) -> (r: Coords)
    ensures
        r == coords_delta(*prev, *curr),
{
    Coords {
        longitude: delta_field_exec(prev.longitude, curr.longitude),
        latitude: delta_field_exec(prev.latitude, curr.latitude),
        altitude: delta_field_exec(prev.altitude, curr.altitude),
        u: delta_field_exec(prev.u, curr.u),
        v: delta_field_exec(prev.v, curr.v),
        roll: delta_field_exec(prev.roll, curr.roll),
        pitch: delta_field_exec(prev.pitch, curr.pitch),
        yaw: delta_field_exec(prev.yaw, curr.yaw),
        heading: delta_field_exec(prev.heading, curr.heading),
    }
}

/// Runtime computation of [`delta_field`].
pub fn delta_field_exec(prev: Option<u64>, curr: Option<u64>) -> (r: Option<u64>)
    ensures
        r == delta_field(prev, curr),
{
    match curr {
        Option::None => Option::None,
        Option::Some(x) => {
            match prev {
                Option::Some(p) => if feq_exec(p, x) {
                    Option::None
                } else {
                    Option::Some(x)
                },
                Option::None => Option::Some(x),
            }
        },
    }
}

/// Runtime computation of [`coords_merge`].
pub fn coords_merge_exec(prev: &Coords, curr: &Coords) -> (r: Coords)
    ensures
        r == coords_merge(*prev, *curr),
{
    Coords {
        longitude: merge_field_exec(prev.longitude, curr.longitude),
        latitude: merge_field_exec(prev.latitude, curr.latitude),
        altitude: merge_field_exec(prev.altitude, curr.altitude),
        u: merge_field_exec(prev.u, curr.u),
        v: merge_field_exec(prev.v, curr.v),
        roll: merge_field_exec(prev.roll, curr.roll),
        pitch: merge_field_exec(prev.pitch, curr.pitch),
        yaw: merge_field_exec(prev.yaw, curr.yaw),
        heading: merge_field_exec(prev.heading, curr.heading),
    }
}

/// Runtime computation of [`merge_field`].
pub fn merge_field_exec(prev: Option<u64>, curr: Option<u64>) -> (r: Option<u64>)
    ensures
        r == merge_field(prev, curr),
{
    match curr {
        Option::Some(x) => Option::Some(x),
        Option::None => prev,
    }
}

/// Runtime test for [`coords_is_empty`].
pub fn coords_is_empty_exec(c: &Coords) -> (r: bool)
    ensures
        r == coords_is_empty(*c),
{
    c.longitude.is_none() && c.latitude.is_none() && c.altitude.is_none() && c.u.is_none()
        && c.v.is_none() && c.roll.is_none() && c.pitch.is_none() && c.yaw.is_none()
        && c.heading.is_none()
}

/// Runtime test for [`coords_anchored`].
pub fn coords_anchored_exec(c: &Coords) -> (r: bool)
    ensures
        r == coords_anchored(*c),
{
    let lat_ok = match c.latitude {
        Option::Some(x) => fpos_exec(x),
        Option::None => true,
    };
    let lon_ok = match c.longitude {
        Option::Some(x) => fpos_exec(x),
        Option::None => true,
    };
    lat_ok && lon_ok
}

// ------------------------------------------------------------------
// Duplication
// ------------------------------------------------------------------

/// A fresh property value with the same view.
pub fn dup_value(v: &PropValue) -> (r: PropValue)
    ensures
        r@ == v@,
{
    match v {
        PropValue::Text(t) => PropValue::Text(copy_bytes(t)),
        PropValue::Number(n) => PropValue::Number(*n),
        PropValue::Id(n) => PropValue::Id(*n),
        PropValue::Flag(b) => PropValue::Flag(*b),
        PropValue::TextList(ts) => PropValue::TextList(copy_texts(ts)),
    }
}

/// A fresh property with the same view.
pub fn dup_prop(p: &Property) -> (r: Property)
    ensures
        r@ == p@,
{
    match p {
        Property::T(c) => Property::T(*c),
        Property::Scalar { code, value } => Property::Scalar {
            code: *code,
            value: dup_value(value),
        },
        Property::Unknown { name, value } => Property::Unknown {
            name: copy_bytes(name),
            value: copy_bytes(value),
        },
    }
}

/// A fresh global property with the same view.
pub fn dup_global(g: &GlobalProperty) -> (r: GlobalProperty)
    ensures
        r@ == g@,
{
    match g {
        GlobalProperty::ReferenceLatitude(v) => GlobalProperty::ReferenceLatitude(*v),
        GlobalProperty::ReferenceLongitude(v) => GlobalProperty::ReferenceLongitude(*v),
        GlobalProperty::Other { name, value } => GlobalProperty::Other {
            name: copy_bytes(name),
            value: copy_bytes(value),
        },
    }
}

/// A fresh event with the same view.
pub fn dup_event(e: &Event) -> (r: Event)
    ensures
        r@ == e@,
{
    let text = match &e.text {
        Option::Some(t) => Option::Some(copy_bytes(t)),
        Option::None => Option::None,
    };
    Event { kind: copy_bytes(&e.kind), params: copy_texts(&e.params), text }
}

/// A fresh record with the same view.
pub fn dup_record(rec: &Record) -> (r: Record)
    ensures
        r@ == rec@,
{
    match rec {
        Record::GlobalProperty(g) => Record::GlobalProperty(dup_global(g)),
        Record::Event(e) => Record::Event(dup_event(e)),
        Record::Frame(ts) => Record::Frame(*ts),
        Record::Update { id, props } => Record::Update { id: *id, props: dup_props(props) },
        Record::Remove(id) => Record::Remove(*id),
    }
}

/// A fresh property list with the same view.
pub fn dup_props(ps: &Vec<Property>) -> (r: Vec<Property>)
    ensures
        props_view(r@) == props_view(ps@),
{
    let mut r: Vec<Property> = Vec::new();
    let n = ps.len();
    let mut i: usize = 0;
    while i < n
        invariant
            n == ps.len(),
            i <= n,
            r.len() == i,
            forall|j: int| 0 <= j < i ==> r@[j]@ == ps@[j]@,
        decreases n - i,
    {
        r.push(dup_prop(&ps[i]));
        i += 1;
    }
    proof {
        assert(props_view(r@) =~= props_view(ps@));
    }
    r
}

// ------------------------------------------------------------------
// Exact (bit-level) equality of records
// ------------------------------------------------------------------

/// Runtime equality of optional bit patterns.
pub fn opt_bits_eq(a: Option<u64>, b: Option<u64>) -> (r: bool)
    ensures
        r == (a == b),
{
    match (a, b) {
        (Option::None, Option::None) => true,
        (Option::Some(x), Option::Some(y)) => x == y,
        _ => false,
    }
}

/// Runtime bit-level equality of coordinates.
pub fn coords_eq(a: &Coords, b: &Coords) -> (r: bool)
    ensures
        r == (*a == *b),
{
    opt_bits_eq(a.longitude, b.longitude) && opt_bits_eq(a.latitude, b.latitude) && opt_bits_eq(
        a.altitude,
        b.altitude,
    ) && opt_bits_eq(a.u, b.u) && opt_bits_eq(a.v, b.v) && opt_bits_eq(a.roll, b.roll)
        && opt_bits_eq(a.pitch, b.pitch) && opt_bits_eq(a.yaw, b.yaw) && opt_bits_eq(
        a.heading,
        b.heading,
    )
}

/// Runtime bit-level equality of property values.
pub fn value_eq(a: &PropValue, b: &PropValue) -> (r: bool)
    ensures
        r == (a@ == b@),
{
    match (a, b) {
        (PropValue::Text(x), PropValue::Text(y)) => bytes_eq(x, y),
        (PropValue::Number(x), PropValue::Number(y)) => x == y,
        (PropValue::Id(x), PropValue::Id(y)) => x == y,
        (PropValue::Flag(x), PropValue::Flag(y)) => x == y,
        (PropValue::TextList(x), PropValue::TextList(y)) => texts_eq(x, y),
        _ => false,
    }
}

/// Runtime bit-level equality of properties.
pub fn prop_eq(a: &Property, b: &Property) -> (r: bool)
    ensures
        r == (a@ == b@),
{
    match (a, b) {
        (Property::T(x), Property::T(y)) => coords_eq(x, y),
        (Property::Scalar { code: c1, value: v1 }, Property::Scalar { code: c2, value: v2 }) => c1
            == c2 && value_eq(v1, v2),
        (Property::Unknown { name: n1, value: v1 }, Property::Unknown { name: n2, value: v2 }) => {
            bytes_eq(n1, n2) && bytes_eq(v1, v2)
        },
        _ => false,
    }
}

/// Runtime bit-level equality of property lists.
pub fn props_eq(a: &Vec<Property>, b: &Vec<Property>) -> (r: bool)
    ensures
        r == (props_view(a@) == props_view(b@)),
{
    if a.len() != b.len() {
        proof {
            assert(props_view(a@).len() != props_view(b@).len());
        }
        return false;
    }
    let n = a.len();
    let mut i: usize = 0;
    while i < n
        invariant
            n == a.len() == b.len(),
            i <= n,
            forall|j: int| 0 <= j < i ==> props_view(a@)[j] == props_view(b@)[j],
        decreases n - i,
    {
        proof {
            assert(props_view(a@)[i as int] == a@[i as int]@);
            assert(props_view(b@)[i as int] == b@[i as int]@);
        }
        if !prop_eq(&a[i], &b[i]) {
            return false;
        }
        i += 1;
    }
    proof {
        assert(props_view(a@) =~= props_view(b@));
    }
    true
}

/// Runtime equality of optional byte strings.
pub fn opt_bytes_eq(a: &Option<Vec<u8>>, b: &Option<Vec<u8>>) -> (r: bool)
    ensures
        r == (opt_bytes_view(*a) == opt_bytes_view(*b)),
{
    match (a, b) {
        (Option::None, Option::None) => true,
        (Option::Some(x), Option::Some(y)) => bytes_eq(x, y),
        _ => false,
    }
}

/// Runtime equality of global properties.
pub fn global_eq(a: &GlobalProperty, b: &GlobalProperty) -> (r: bool)
    ensures
        r == (a@ == b@),
{
    match (a, b) {
        (GlobalProperty::ReferenceLatitude(x), GlobalProperty::ReferenceLatitude(y)) => x == y,
        (GlobalProperty::ReferenceLongitude(x), GlobalProperty::ReferenceLongitude(y)) => x == y,
        (
            GlobalProperty::Other { name: n1, value: v1 },
            GlobalProperty::Other { name: n2, value: v2 },
        ) => bytes_eq(n1, n2) && bytes_eq(v1, v2),
        _ => false,
    }
}

/// Runtime equality of events.
pub fn event_eq(a: &Event, b: &Event) -> (r: bool)
    ensures
        r == (a@ == b@),
{
    bytes_eq(&a.kind, &b.kind) && texts_eq(&a.params, &b.params) && opt_bytes_eq(&a.text, &b.text)
}

/// Runtime bit-level equality of records.
pub fn record_eq(a: &Record, b: &Record) -> (r: bool)
    ensures
        r == (a@ == b@),
{
    match (a, b) {
        (Record::GlobalProperty(x), Record::GlobalProperty(y)) => global_eq(x, y),
        (Record::Event(x), Record::Event(y)) => event_eq(x, y),
        (Record::Frame(x), Record::Frame(y)) => x == y,
        (
            Record::Update { id: i1, props: p1 },
            Record::Update { id: i2, props: p2 },
        ) => i1 == i2 && props_eq(p1, p2),
        (Record::Remove(x), Record::Remove(y)) => x == y,
        _ => false,
    }
}

/// Runtime bit-level equality of record lists.
pub fn records_eq(a: &Vec<Record>, b: &Vec<Record>) -> (r: bool)
    ensures
        r == (records_view(a@) == records_view(b@)),
{
    if a.len() != b.len() {
        proof {
            assert(records_view(a@).len() != records_view(b@).len());
        }
        return false;
    }
    let n = a.len();
    let mut i: usize = 0;
    while i < n
        invariant
            n == a.len() == b.len(),
            i <= n,
            forall|j: int| 0 <= j < i ==> records_view(a@)[j] == records_view(b@)[j],
        decreases n - i,
    {
        proof {
            assert(records_view(a@)[i as int] == a@[i as int]@);
            assert(records_view(b@)[i as int] == b@[i as int]@);
        }
        if !record_eq(&a[i], &b[i]) {
            return false;
        }
        i += 1;
    }
    proof {
        assert(records_view(a@) =~= records_view(b@));
    }
    true
}

} // verus!
