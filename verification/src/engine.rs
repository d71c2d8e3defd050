//! The diffing rewriter.
//!
//! An [`Engine`] is built from the re-anchored reference coordinates and fed
//! the second-pass record stream in file order. For each record it decides
//! what to emit: reference global properties are substituted, other globals
//! and events pass through, redundant frame markers are dropped, updates are
//! reduced to their changed properties against per-entity committed state,
//! and removals of unknown entities are dropped.
//!
//! Every update's coordinates must already be re-anchored: a present latitude
//! or longitude that is not strictly positive is reported as
//! [`EngineError::NonPositiveCoordinate`] and leaves the engine unchanged —
//! the anchor was chosen so that this never happens on the data it was
//! computed from.
//!
//! The whole behaviour is pinned by the specification function
//! [`engine_step`]; stream-level consequences are proved in [`crate::laws`].

use vstd::prelude::*;
use vstd::pervasive::VecAdditionalExecFns;

use crate::floatbits::feq;
use crate::floatbits::feq_exec;
use crate::model::GlobalProperty;
use crate::model::GlobalPropertyV;
use crate::model::Property;
use crate::model::PropertyV;
use crate::model::Record;
use crate::model::RecordV;
use crate::model::coords_anchored;
use crate::model::coords_anchored_exec;
use crate::model::dup_props;
use crate::model::dup_record;
use crate::model::opt_record_view;
use crate::model::props_view;
use crate::model::records_view;
use crate::props::changed_exec;
use crate::props::changed_props;
use crate::props::dedup_exec;
use crate::props::dedup_props;
use crate::props::lemma_merge_wf;
use crate::props::merge_exec;
use crate::props::merge_props;
use crate::props::props_wf;

verus! {

/// The rewriter's error: an update carried a latitude or longitude that is
/// not strictly positive after re-anchoring. This means the anchor does not
/// fit the data and emitting would produce a misleading trace.
#[derive(Debug)]
pub enum EngineError {
    NonPositiveCoordinate { id: u64 },
}

/// Committed state of one entity: its id and the accumulated value of each
/// property it has ever carried, keyed by tag.
pub struct Entity {
    pub id: u64,
    pub props: Vec<Property>,
}

/// View of an [`Entity`].
pub struct EntityV {
    pub id: u64,
    pub props: Seq<PropertyV>,
}

impl View for Entity {
    type V = EntityV;

    open spec fn view(&self) -> EntityV {
        EntityV { id: self.id, props: props_view(self.props@) }
    }
}

/// View of an entity list.
pub open spec fn entities_view(es: Seq<Entity>) -> Seq<EntityV> {
    es.map_values(|e: Entity| e@)
}

/// Index of the entity with the given id, if any.
pub open spec fn index_of_id(es: Seq<EntityV>, id: u64) -> Option<int>
    decreases es.len(),
{
    if es.len() == 0 {
        Option::None
    } else if es[0].id == id {
        Option::Some(0)
    } else {
        match index_of_id(es.skip(1), id) {
            Option::Some(i) => Option::Some(i + 1),
            Option::None => Option::None,
        }
    }
}

/// What [`index_of_id`] returns: the first position with the id, or nothing
/// when no position has it.
pub proof fn lemma_index_of_id_props(es: Seq<EntityV>, id: u64)
    ensures
        match index_of_id(es, id) {
            Option::Some(i) => 0 <= i < es.len() && es[i].id == id && (forall|j: int|
                0 <= j < i ==> es[j].id != id),
            Option::None => forall|j: int| 0 <= j < es.len() ==> es[j].id != id,
        },
    decreases es.len(),
{
    if es.len() == 0 {
    } else if es[0].id == id {
    } else {
        lemma_index_of_id_props(es.skip(1), id);
        assert forall|j: int| 1 <= j < es.len() implies es.skip(1)[j - 1] == es[j] by {}
    }
}

/// A position with the id, and none before it, is what [`index_of_id`]
/// returns.
pub proof fn lemma_index_of_id_at(es: Seq<EntityV>, id: u64, i: int)
    requires
        0 <= i < es.len(),
        es[i].id == id,
        forall|j: int| 0 <= j < i ==> es[j].id != id,
    ensures
        index_of_id(es, id) == Option::<int>::Some(i),
    decreases es.len(),
{
    if i == 0 {
    } else {
        assert forall|j: int| 0 <= j < es.len() - 1 implies es.skip(1)[j] == es[j + 1] by {}
        lemma_index_of_id_at(es.skip(1), id, i - 1);
    }
}

/// When no position has the id, [`index_of_id`] returns nothing.
pub proof fn lemma_index_of_id_none(es: Seq<EntityV>, id: u64)
    requires
        forall|j: int| 0 <= j < es.len() ==> es[j].id != id,
    ensures
        index_of_id(es, id) is None,
    decreases es.len(),
{
    if es.len() == 0 {
    } else {
        assert forall|j: int| 0 <= j < es.len() - 1 implies es.skip(1)[j] == es[j + 1] by {}
        lemma_index_of_id_none(es.skip(1), id);
    }
}

/// Runtime search for an entity by id.
fn find_entity(es: &Vec<Entity>, id: u64) -> (r: Option<usize>)
    ensures
        match r {
            Option::Some(k) => index_of_id(entities_view(es@), id) == Option::<int>::Some(
                k as int,
            ),
            Option::None => index_of_id(entities_view(es@), id) is None,
        },
{
    let n = es.len();
    let mut i: usize = 0;
    while i < n
        invariant
            n == es.len(),
            i <= n,
            forall|j: int| 0 <= j < i ==> entities_view(es@)[j].id != id,
        decreases n - i,
    {
        if es[i].id == id {
            proof {
                assert(entities_view(es@)[i as int] == es@[i as int]@);
                lemma_index_of_id_at(entities_view(es@), id, i as int);
            }
            return Option::Some(i);
        }
        proof {
            assert(entities_view(es@)[i as int] == es@[i as int]@);
        }
        i += 1;
    }
    proof {
        lemma_index_of_id_none(entities_view(es@), id);
    }
    Option::None
}

// ------------------------------------------------------------------
// The step specification
// ------------------------------------------------------------------

/// View of an [`Engine`].
pub struct EngineV {
    pub new_lat: u64,
    pub new_lon: u64,
    pub this_frame: u64,
    pub entities: Seq<EntityV>,
}

/// Well-formed engine state: entity ids are pairwise distinct and every
/// entity's committed properties carry pairwise distinct tags.
pub open spec fn engine_wf(s: EngineV) -> bool {
    &&& forall|i: int, j: int|
        0 <= i < j < s.entities.len() ==> s.entities[i].id != s.entities[j].id
    &&& forall|i: int| 0 <= i < s.entities.len() ==> props_wf(s.entities[i].props)
}

/// A coordinate property's latitude and longitude, where present, are
/// strictly positive; other properties are unconstrained.
pub open spec fn prop_ok(p: PropertyV) -> bool {
    p matches PropertyV::T(c) ==> coords_anchored(c)
}

/// Every property of the update passes [`prop_ok`].
pub open spec fn update_coords_ok(ps: Seq<PropertyV>) -> bool {
    forall|i: int| 0 <= i < ps.len() ==> prop_ok(ps[i])
}

/// The record is accepted by the engine: updates must carry re-anchored
/// coordinates, everything else is always accepted.
pub open spec fn record_ok(r: RecordV) -> bool {
    r matches RecordV::Update { id, props } ==> update_coords_ok(props)
}

/// Result of one engine step: the state afterwards and what is emitted.
pub struct StepV {
    pub state: EngineV,
    pub emit: Option<RecordV>,
}

/// One update against the engine state: collapse duplicate tags, then either
/// admit a new entity with the whole (collapsed) property list, or emit and
/// commit only the changed set — nothing at all when nothing changed.
pub open spec fn step_update_spec(s: EngineV, id: u64, props: Seq<PropertyV>) -> StepV {
    let dprops = dedup_props(props);
    match index_of_id(s.entities, id) {
        Option::None => StepV {
            state: EngineV {
                new_lat: s.new_lat,
                new_lon: s.new_lon,
                this_frame: s.this_frame,
                entities: s.entities.push(EntityV { id, props: dprops }),
            },
            emit: Option::Some(RecordV::Update { id, props: dprops }),
        },
        Option::Some(i) => {
            let stored = s.entities[i].props;
            let ch = changed_props(stored, dprops);
            if ch.len() == 0 {
                StepV { state: s, emit: Option::None }
            } else {
                StepV {
                    state: EngineV {
                        new_lat: s.new_lat,
                        new_lon: s.new_lon,
                        this_frame: s.this_frame,
                        entities: s.entities.update(
                            i,
                            EntityV { id, props: merge_props(stored, ch) },
                        ),
                    },
                    emit: Option::Some(RecordV::Update { id, props: ch }),
                }
            }
        },
    }
}

/// The engine's behaviour on one accepted record.
pub open spec fn engine_step(s: EngineV, r: RecordV) -> StepV {
    match r {
        RecordV::GlobalProperty(g) => match g {
            GlobalPropertyV::ReferenceLatitude(_) => StepV {
                state: s,
                emit: Option::Some(
                    RecordV::GlobalProperty(GlobalPropertyV::ReferenceLatitude(s.new_lat)),
                ),
            },
            GlobalPropertyV::ReferenceLongitude(_) => StepV {
                state: s,
                emit: Option::Some(
                    RecordV::GlobalProperty(GlobalPropertyV::ReferenceLongitude(s.new_lon)),
                ),
            },
            GlobalPropertyV::Other { name, value } => StepV {
                state: s,
                emit: Option::Some(
                    RecordV::GlobalProperty(GlobalPropertyV::Other { name, value }),
                ),
            },
        },
        RecordV::Event(e) => StepV { state: s, emit: Option::Some(RecordV::Event(e)) },
        RecordV::Frame(ts) => {
            if !feq(ts, s.this_frame) {
                StepV {
                    state: EngineV {
                        new_lat: s.new_lat,
                        new_lon: s.new_lon,
                        this_frame: ts,
                        entities: s.entities,
                    },
                    emit: Option::Some(RecordV::Frame(ts)),
                }
            } else {
                StepV { state: s, emit: Option::None }
            }
        },
        RecordV::Update { id, props } => step_update_spec(s, id, props),
        RecordV::Remove(id) => {
            match index_of_id(s.entities, id) {
                Option::Some(i) => StepV {
                    state: EngineV {
                        new_lat: s.new_lat,
                        new_lon: s.new_lon,
                        this_frame: s.this_frame,
                        entities: s.entities.remove(i),
                    },
                    emit: Option::Some(RecordV::Remove(id)),
                },
                Option::None => StepV { state: s, emit: Option::None },
            }
        },
    }
}

/// The initial engine state for a given anchor.
pub open spec fn engine_init(new_lat: u64, new_lon: u64) -> EngineV {
    EngineV { new_lat, new_lon, this_frame: 0, entities: Seq::empty() }
}

/// Engine state after a whole accepted record stream.
pub open spec fn run_state(s0: EngineV, rs: Seq<RecordV>) -> EngineV
    decreases rs.len(),
{
    if rs.len() == 0 {
        s0
    } else {
        engine_step(run_state(s0, rs.drop_last()), rs.last()).state
    }
}

/// Everything the engine emits over a whole accepted record stream.
pub open spec fn run_outputs(s0: EngineV, rs: Seq<RecordV>) -> Seq<RecordV>
    decreases rs.len(),
{
    if rs.len() == 0 {
        Seq::empty()
    } else {
        let prev = run_outputs(s0, rs.drop_last());
        match engine_step(run_state(s0, rs.drop_last()), rs.last()).emit {
            Option::Some(o) => prev.push(o),
            Option::None => prev,
        }
    }
}

/// Every record of the stream is accepted.
pub open spec fn records_ok(rs: Seq<RecordV>) -> bool {
    forall|i: int| 0 <= i < rs.len() ==> record_ok(rs[i])
}

// ------------------------------------------------------------------
// The executable engine
// ------------------------------------------------------------------

/// Runtime check that every property of an update passes [`prop_ok`].
fn check_props_anchored(ps: &Vec<Property>) -> (r: bool)
    ensures
        r == update_coords_ok(props_view(ps@)),
{
    let n = ps.len();
    let mut i: usize = 0;
    while i < n
        invariant
            n == ps.len(),
            i <= n,
            forall|j: int| 0 <= j < i ==> prop_ok(props_view(ps@)[j]),
        decreases n - i,
    {
        let ok = match &ps[i] {
            Property::T(c) => coords_anchored_exec(c),
            _ => true,
        };
        proof {
            assert(props_view(ps@)[i as int] == ps@[i as int]@);
        }
        if !ok {
            return false;
        }
        i += 1;
    }
    true
}

/// The diffing rewriter; see the module documentation.
pub struct Engine {
    new_lat: u64,
    new_lon: u64,
    this_frame: u64,
    entities: Vec<Entity>,
}

impl View for Engine {
    type V = EngineV;

    closed spec fn view(&self) -> EngineV {
        EngineV {
            new_lat: self.new_lat,
            new_lon: self.new_lon,
            this_frame: self.this_frame,
            entities: entities_view(self.entities@),
        }
    }
}

impl Engine {
    /// A fresh engine for the given re-anchored reference coordinates. The
    /// frame clock starts at the bit pattern of `+0.0`, so a leading frame
    /// marker at time zero is treated as redundant.
    pub fn new(new_lat: u64, new_lon: u64) -> (r: Engine)
        ensures
            r@ == engine_init(new_lat, new_lon),
            engine_wf(r@),
    {
        let r = Engine { new_lat, new_lon, this_frame: 0, entities: Vec::new() };
        proof {
            assert(r@.entities =~= Seq::<EntityV>::empty());
        }
        r
    }

    /// Feed one record; what comes back is what the rewritten trace carries
    /// for it, exactly as [`engine_step`] describes. A rejected update (a
    /// coordinate not strictly positive) reports an error and leaves the
    /// engine unchanged.
    pub fn step(&mut self, rec: Record) -> (out: Result<Option<Record>, EngineError>)
        requires
            engine_wf(old(self)@),
        ensures
            engine_wf(final(self)@),
            out is Err <==> !record_ok(rec@),
            record_ok(rec@) ==> final(self)@ == engine_step(old(self)@, rec@).state,
            record_ok(rec@) ==> (out matches Ok(emit) && opt_record_view(emit) == engine_step(
                old(self)@,
                rec@,
            ).emit),
            !record_ok(rec@) ==> final(self)@ == old(self)@,
    {
        match rec {
            Record::GlobalProperty(g) => {
                match g {
                    GlobalProperty::ReferenceLatitude(_) => Ok(
                        Some(
                            Record::GlobalProperty(
                                GlobalProperty::ReferenceLatitude(self.new_lat),
                            ),
                        ),
                    ),
                    GlobalProperty::ReferenceLongitude(_) => Ok(
                        Some(
                            Record::GlobalProperty(
                                GlobalProperty::ReferenceLongitude(self.new_lon),
                            ),
                        ),
                    ),
                    GlobalProperty::Other { name, value } => Ok(
                        Some(Record::GlobalProperty(GlobalProperty::Other { name, value })),
                    ),
                }
            },
            Record::Event(e) => Ok(Some(Record::Event(e))),
            Record::Frame(ts) => {
                if !feq_exec(ts, self.this_frame) {
                    self.this_frame = ts;
                    Ok(Some(Record::Frame(ts)))
                } else {
                    Ok(None)
                }
            },
            Record::Remove(id) => {
                match find_entity(&self.entities, id) {
                    Some(i) => {
                        proof {
                            lemma_index_of_id_props(entities_view(self.entities@), id);
                        }
                        self.entities.remove(i);
                        proof {
                            assert(entities_view(self.entities@) =~= entities_view(
                                old(self).entities@,
                            ).remove(i as int));
                        }
                        Ok(Some(Record::Remove(id)))
                    },
                    None => Ok(None),
                }
            },
            Record::Update { id, props } => self.step_update(id, props),
        }
    }

    /// The update path of [`Engine::step`].
    fn step_update(&mut self, id: u64, props: Vec<Property>) -> (out: Result<
        Option<Record>,
        EngineError,
    >)
        requires
            engine_wf(old(self)@),
        ensures
            engine_wf(final(self)@),
            out is Err <==> !update_coords_ok(props_view(props@)),
            update_coords_ok(props_view(props@)) ==> final(self)@ == step_update_spec(
                old(self)@,
                id,
                props_view(props@),
            ).state,
            update_coords_ok(props_view(props@)) ==> (out matches Ok(emit) && opt_record_view(
                emit,
            ) == step_update_spec(old(self)@, id, props_view(props@)).emit),
            !update_coords_ok(props_view(props@)) ==> final(self)@ == old(self)@,
    {
        if !check_props_anchored(&props) {
            return Err(EngineError::NonPositiveCoordinate { id });
        }
        let dprops = dedup_exec(&props);
        match find_entity(&self.entities, id) {
            None => {
                proof {
                    lemma_index_of_id_props(entities_view(self.entities@), id);
                }
                let emit_props = dup_props(&dprops);
                self.entities.push(Entity { id, props: dprops });
                proof {
                    assert(entities_view(self.entities@) =~= entities_view(
                        old(self).entities@,
                    ).push(
                        EntityV {
                            id,
                            props: dedup_props(props_view(props@)),
                        },
                    ));
                }
                Ok(Some(Record::Update { id, props: emit_props }))
            },
            Some(i) => {
                proof {
                    lemma_index_of_id_props(entities_view(self.entities@), id);
                    assert(entities_view(self.entities@)[i as int] == self.entities@[i as int]@);
                }
                let ch = changed_exec(&self.entities[i].props, &dprops);
                if ch.len() == 0 {
                    proof {
                        assert(props_view(ch@).len() == 0);
                    }
                    Ok(None)
                } else {
                    let merged = merge_exec(&self.entities[i].props, &ch);
                    proof {
                        lemma_merge_wf(
                            entities_view(old(self).entities@)[i as int].props,
                            props_view(ch@),
                        );
                    }
                    self.entities.set(i, Entity { id, props: merged });
                    proof {
                        assert(entities_view(self.entities@) =~= entities_view(
                            old(self).entities@,
                        ).update(
                            i as int,
                            EntityV {
                                id,
                                props: merge_props(
                                    entities_view(old(self).entities@)[i as int].props,
                                    changed_props(
                                        entities_view(old(self).entities@)[i as int].props,
                                        dedup_props(props_view(props@)),
                                    ),
                                ),
                            },
                        ));
                    }
                    Ok(Some(Record::Update { id, props: ch }))
                }
            },
        }
    }
}

/// Rewrite a whole record stream with a fresh engine: the result is exactly
/// [`run_outputs`] of the stream, or the first rejection.
pub fn rewrite_records(records: &Vec<Record>, new_lat: u64, new_lon: u64) -> (r: Result<
    Vec<Record>,
    EngineError,
>)
    ensures
        match r {
            Ok(out) => records_ok(records_view(records@)) && records_view(out@) == run_outputs(
                engine_init(new_lat, new_lon),
                records_view(records@),
            ),
            Err(_) => !records_ok(records_view(records@)),
        },
{
    let ghost rv = records_view(records@);
    let mut eng = Engine::new(new_lat, new_lon);
    let mut out: Vec<Record> = Vec::new();
    let n = records.len();
    let mut i: usize = 0;
    while i < n
        invariant
            n == records.len(),
            rv == records_view(records@),
            i <= n,
            engine_wf(eng@),
            records_ok(rv.take(i as int)),
            eng@ == run_state(engine_init(new_lat, new_lon), rv.take(i as int)),
            records_view(out@) == run_outputs(engine_init(new_lat, new_lon), rv.take(i as int)),
        decreases n - i,
    {
        let rec = dup_record(&records[i]);
        proof {
            assert(rv[i as int] == records@[i as int]@);
            assert(rv.take(i + 1).drop_last() =~= rv.take(i as int));
            assert(rv.take(i + 1).last() == rv[i as int]);
        }
        match eng.step(rec) {
            Ok(emit) => {
                match emit {
                    Some(o) => {
                        out.push(o);
                        proof {
                            assert(records_view(out@) =~= run_outputs(
                                engine_init(new_lat, new_lon),
                                rv.take(i + 1),
                            ));
                        }
                    },
                    None => {},
                }
            },
            Err(e) => {
                proof {
                    assert(!record_ok(rv[i as int]));
                }
                return Err(e);
            },
        }
        i += 1;
    }
    proof {
        assert(rv.take(n as int) =~= rv);
    }
    Ok(out)
}

} // verus!
