//! Stream-level guarantees of the rewriter.
//!
//! Each public proof function here states one property of what
//! [`crate::engine::run_outputs`] emits over an accepted record stream,
//! proved from the step specification [`crate::engine::engine_step`] alone.

use vstd::prelude::*;

use crate::engine::EngineV;
use crate::engine::EntityV;
use crate::engine::engine_step;
use crate::engine::engine_wf;
use crate::engine::index_of_id;
use crate::engine::lemma_index_of_id_at;
use crate::engine::lemma_index_of_id_none;
use crate::engine::lemma_index_of_id_props;
use crate::engine::prop_ok;
use crate::engine::record_ok;
use crate::engine::records_ok;
use crate::engine::run_outputs;
use crate::engine::run_state;
use crate::engine::step_update_spec;
use crate::engine::update_coords_ok;
use crate::floatbits::feq;
use crate::model::Coords;
use crate::model::GlobalPropertyV;
use crate::model::PropertyV;
use crate::model::RecordV;
use crate::model::TagV;
use crate::model::PropValueV;
use crate::model::coords_anchored;
use crate::model::coords_merge;
use crate::model::opt_feq;
use crate::model::value_eqv;
use crate::model::coords_delta;
use crate::model::coords_is_empty;
use crate::model::prop_eqv;
use crate::model::tag_of;
use crate::props::changed_keep;
use crate::props::changed_props;
use crate::props::dedup_props;
use crate::props::index_of_tag;
use crate::props::lemma_changed_tags;
use crate::props::lemma_dedup_of_wf;
use crate::props::lemma_index_same_tags;
use crate::props::lemma_merge_untouched;
use crate::props::merge_one;
use crate::props::lemma_dedup_wf;
use crate::props::lemma_index_of_tag_props;
use crate::props::lemma_merge_wf;
use crate::props::merge_props;
use crate::props::props_wf;

verus! {

// ------------------------------------------------------------------
// Well-formedness is preserved by every step
// ------------------------------------------------------------------

/// One step keeps the engine state well-formed.
pub proof fn lemma_step_wf(s: EngineV, r: RecordV)
    requires
        engine_wf(s),
    ensures
        engine_wf(engine_step(s, r).state),
{
    match r {
        RecordV::Update { id, props } => {
            lemma_index_of_id_props(s.entities, id);
            lemma_dedup_wf(props);
            match index_of_id(s.entities, id) {
                Option::None => {
                    let es = s.entities.push(
                        EntityV { id, props: dedup_props(props) },
                    );
                    assert forall|a: int, b: int| 0 <= a < b < es.len() implies es[a].id
                        != es[b].id by {}
                },
                Option::Some(i) => {
                    let stored = s.entities[i].props;
                    let ch = changed_props(stored, dedup_props(props));
                    if ch.len() == 0 {
                    } else {
                        lemma_merge_wf(stored, ch);
                        let es = s.entities.update(
                            i,
                            EntityV { id, props: merge_props(stored, ch) },
                        );
                        assert forall|a: int, b: int| 0 <= a < b < es.len() implies es[a].id
                            != es[b].id by {}
                    }
                },
            }
        },
        RecordV::Remove(id) => {
            match index_of_id(s.entities, id) {
                Option::Some(i) => {
                    lemma_index_of_id_props(s.entities, id);
                    let es = s.entities.remove(i);
                    assert forall|a: int, b: int| 0 <= a < b < es.len() implies es[a].id
                        != es[b].id by {}
                    assert forall|a: int| 0 <= a < es.len() implies props_wf(es[a].props) by {}
                },
                Option::None => {},
            }
        },
        _ => {},
    }
}

/// A whole run keeps the engine state well-formed.
pub proof fn lemma_run_wf(s0: EngineV, rs: Seq<RecordV>)
    requires
        engine_wf(s0),
    ensures
        engine_wf(run_state(s0, rs)),
    decreases rs.len(),
{
    if rs.len() == 0 {
    } else {
        lemma_run_wf(s0, rs.drop_last());
        lemma_step_wf(run_state(s0, rs.drop_last()), rs.last());
    }
}

/// The anchor a run was built with never changes.
proof fn lemma_run_keeps_anchor(s0: EngineV, rs: Seq<RecordV>)
    ensures
        run_state(s0, rs).new_lat == s0.new_lat,
        run_state(s0, rs).new_lon == s0.new_lon,
    decreases rs.len(),
{
    if rs.len() == 0 {
    } else {
        lemma_run_keeps_anchor(s0, rs.drop_last());
    }
}

// ------------------------------------------------------------------
// Anchor positivity
// ------------------------------------------------------------------

/// Collapsing duplicate tags keeps every coordinate property re-anchored.
proof fn lemma_dedup_props_ok(ps: Seq<PropertyV>)
    requires
        update_coords_ok(ps),
    ensures
        update_coords_ok(dedup_props(ps)),
    decreases ps.len(),
{
    if ps.len() == 0 {
    } else {
        assert(update_coords_ok(ps.drop_last()));
        lemma_dedup_props_ok(ps.drop_last());
        let rest = dedup_props(ps.drop_last());
        let p = ps.last();
        lemma_index_of_tag_props(rest, tag_of(p));
        match index_of_tag(rest, tag_of(p)) {
            Option::Some(i) => {
                assert forall|k: int| 0 <= k < rest.update(i, p).len() implies prop_ok(
                    rest.update(i, p)[k],
                ) by {}
            },
            Option::None => {
                assert forall|k: int| 0 <= k < rest.push(p).len() implies prop_ok(
                    rest.push(p)[k],
                ) by {}
            },
        }
    }
}

/// The changed set of a re-anchored update is itself re-anchored: a diffed
/// coordinate property only repeats bits of the incoming one.
proof fn lemma_changed_props_ok(stored: Seq<PropertyV>, new: Seq<PropertyV>)
    requires
        update_coords_ok(new),
    ensures
        update_coords_ok(changed_props(stored, new)),
    decreases new.len(),
{
    if new.len() == 0 {
    } else {
        assert(update_coords_ok(new.drop_last()));
        lemma_changed_props_ok(stored, new.drop_last());
        let rest = changed_props(stored, new.drop_last());
        let p = new.last();
        match changed_keep(stored, p) {
            Option::Some(q) => {
                assert(prop_ok(q)) by {
                    lemma_index_of_tag_props(stored, tag_of(p));
                    match index_of_tag(stored, tag_of(p)) {
                        Option::Some(i) => {
                            match (p, stored[i]) {
                                (PropertyV::T(c), PropertyV::T(prev)) => {
                                    assert(coords_anchored(c));
                                },
                                _ => {},
                            }
                        },
                        Option::None => {},
                    }
                }
                assert forall|k: int| 0 <= k < rest.push(q).len() implies prop_ok(
                    rest.push(q)[k],
                ) by {}
            },
            Option::None => {},
        }
    }
}

/// Whatever one accepted step emits as an update is re-anchored.
proof fn lemma_step_emit_ok(s: EngineV, r: RecordV)
    requires
        record_ok(r),
    ensures
        engine_step(s, r).emit matches Some(o) ==> (o matches RecordV::Update {
            id,
            props,
        } ==> update_coords_ok(props)),
{
    match r {
        RecordV::Update { id, props } => {
            lemma_dedup_props_ok(props);
            match index_of_id(s.entities, id) {
                Option::Some(i) => {
                    lemma_changed_props_ok(s.entities[i].props, dedup_props(props));
                },
                Option::None => {},
            }
        },
        _ => {},
    }
}

/// Anchor positivity: over any accepted stream, every coordinate the
/// rewriter emits has its present latitude and longitude strictly positive.
pub proof fn lemma_anchor_positivity(s0: EngineV, rs: Seq<RecordV>)
    requires
        records_ok(rs),
    ensures
        forall|k: int|
            0 <= k < run_outputs(s0, rs).len() ==> ((#[trigger] run_outputs(s0, rs)[k]) matches
            RecordV::Update { id, props } ==> update_coords_ok(props)),
    decreases rs.len(),
{
    if rs.len() == 0 {
    } else {
        assert(records_ok(rs.drop_last()));
        lemma_anchor_positivity(s0, rs.drop_last());
        let st = run_state(s0, rs.drop_last());
        let prev = run_outputs(s0, rs.drop_last());
        assert(record_ok(rs.last()));
        lemma_step_emit_ok(st, rs.last());
        match engine_step(st, rs.last()).emit {
            Option::Some(o) => {
                assert forall|k: int| 0 <= k < prev.push(o).len() implies ((#[trigger] prev.push(
                    o,
                )[k]) matches RecordV::Update { id, props } ==> update_coords_ok(props)) by {
                    if k < prev.len() {
                        assert(prev.push(o)[k] == prev[k]);
                    }
                }
            },
            Option::None => {},
        }
    }
}

// ------------------------------------------------------------------
// Reference substitution
// ------------------------------------------------------------------

/// How many reference-latitude globals a stream carries.
pub open spec fn ref_lat_count(rs: Seq<RecordV>) -> int
    decreases rs.len(),
{
    if rs.len() == 0 {
        0
    } else {
        ref_lat_count(rs.drop_last()) + (
        if rs.last() matches RecordV::GlobalProperty(GlobalPropertyV::ReferenceLatitude(_)) {
            1int
        } else {
            0int
        })
    }
}

/// How many reference-longitude globals a stream carries.
pub open spec fn ref_lon_count(rs: Seq<RecordV>) -> int
    decreases rs.len(),
{
    if rs.len() == 0 {
        0
    } else {
        ref_lon_count(rs.drop_last()) + (
        if rs.last() matches RecordV::GlobalProperty(GlobalPropertyV::ReferenceLongitude(_)) {
            1int
        } else {
            0int
        })
    }
}

/// One step emits a reference global exactly for a reference global input,
/// and then carries the engine's anchor value.
proof fn lemma_step_ref(s: EngineV, r: RecordV)
    ensures
        match engine_step(s, r).emit {
            Option::Some(o) => {
                &&& (o matches RecordV::GlobalProperty(GlobalPropertyV::ReferenceLatitude(x))
                    <==> r matches RecordV::GlobalProperty(
                    GlobalPropertyV::ReferenceLatitude(_),
                ))
                &&& (o matches RecordV::GlobalProperty(
                    GlobalPropertyV::ReferenceLatitude(x),
                ) ==> x == s.new_lat)
                &&& (o matches RecordV::GlobalProperty(GlobalPropertyV::ReferenceLongitude(x))
                    <==> r matches RecordV::GlobalProperty(
                    GlobalPropertyV::ReferenceLongitude(_),
                ))
                &&& (o matches RecordV::GlobalProperty(
                    GlobalPropertyV::ReferenceLongitude(x),
                ) ==> x == s.new_lon)
            },
            Option::None => {
                &&& !(r matches RecordV::GlobalProperty(GlobalPropertyV::ReferenceLatitude(_)))
                &&& !(r matches RecordV::GlobalProperty(GlobalPropertyV::ReferenceLongitude(_)))
            },
        },
{
    match r {
        RecordV::Update { id, props } => {
            match index_of_id(s.entities, id) {
                Option::Some(i) => {},
                Option::None => {},
            }
        },
        _ => {},
    }
}

/// Reference substitution: the rewritten stream carries exactly as many
/// reference-latitude and reference-longitude globals as the input, and each
/// one carries the engine's re-anchored value. A trace whose header holds
/// exactly one of each therefore yields exactly one of each, substituted.
pub proof fn lemma_reference_substitution(s0: EngineV, rs: Seq<RecordV>)
    ensures
        ref_lat_count(run_outputs(s0, rs)) == ref_lat_count(rs),
        ref_lon_count(run_outputs(s0, rs)) == ref_lon_count(rs),
        forall|k: int|
            0 <= k < run_outputs(s0, rs).len() ==> ((#[trigger] run_outputs(s0, rs)[k]) matches
            RecordV::GlobalProperty(GlobalPropertyV::ReferenceLatitude(x)) ==> x == s0.new_lat),
        forall|k: int|
            0 <= k < run_outputs(s0, rs).len() ==> ((#[trigger] run_outputs(s0, rs)[k]) matches
            RecordV::GlobalProperty(GlobalPropertyV::ReferenceLongitude(x)) ==> x == s0.new_lon),
    decreases rs.len(),
{
    if rs.len() == 0 {
    } else {
        lemma_reference_substitution(s0, rs.drop_last());
        lemma_run_keeps_anchor(s0, rs.drop_last());
        let st = run_state(s0, rs.drop_last());
        let prev = run_outputs(s0, rs.drop_last());
        lemma_step_ref(st, rs.last());
        match engine_step(st, rs.last()).emit {
            Option::Some(o) => {
                let outs = prev.push(o);
                assert(outs.drop_last() =~= prev);
                assert(outs.last() == o);
                assert(ref_lat_count(outs) == ref_lat_count(prev) + (
                if o matches RecordV::GlobalProperty(GlobalPropertyV::ReferenceLatitude(_)) {
                    1int
                } else {
                    0int
                }));
                assert forall|k: int| 0 <= k < outs.len() implies ((#[trigger] outs[k]) matches
                RecordV::GlobalProperty(GlobalPropertyV::ReferenceLatitude(x)) ==> x
                    == s0.new_lat) by {
                    if k < prev.len() {
                        assert(outs[k] == prev[k]);
                    }
                }
                assert forall|k: int| 0 <= k < outs.len() implies ((#[trigger] outs[k]) matches
                RecordV::GlobalProperty(GlobalPropertyV::ReferenceLongitude(x)) ==> x
                    == s0.new_lon) by {
                    if k < prev.len() {
                        assert(outs[k] == prev[k]);
                    }
                }
            },
            Option::None => {},
        }
    }
}

// ------------------------------------------------------------------
// Frame idempotence
// ------------------------------------------------------------------

/// The timestamps of the frame markers of a stream, in order.
pub open spec fn frame_times(rs: Seq<RecordV>) -> Seq<u64>
    decreases rs.len(),
{
    if rs.len() == 0 {
        Seq::empty()
    } else {
        let p = frame_times(rs.drop_last());
        match rs.last() {
            RecordV::Frame(ts) => p.push(ts),
            _ => p,
        }
    }
}

/// No two adjacent values of the sequence are IEEE-equal.
pub open spec fn no_adjacent_feq(ts: Seq<u64>) -> bool {
    forall|k: int| 0 <= k < ts.len() - 1 ==> !feq(ts[k], #[trigger] ts[k + 1])
}

/// The frame clock equals the bits of the last emitted frame marker, and the
/// emitted markers never repeat in adjacent positions.
proof fn lemma_frames_inv(s0: EngineV, rs: Seq<RecordV>)
    ensures
        no_adjacent_feq(frame_times(run_outputs(s0, rs))),
        frame_times(run_outputs(s0, rs)).len() > 0 ==> frame_times(
            run_outputs(s0, rs),
        ).last() == run_state(s0, rs).this_frame,
        frame_times(run_outputs(s0, rs)).len() == 0 ==> run_state(s0, rs).this_frame
            == s0.this_frame,
    decreases rs.len(),
{
    if rs.len() == 0 {
    } else {
        lemma_frames_inv(s0, rs.drop_last());
        let st = run_state(s0, rs.drop_last());
        let prev = run_outputs(s0, rs.drop_last());
        let pf = frame_times(prev);
        match engine_step(st, rs.last()).emit {
            Option::Some(o) => {
                let outs = prev.push(o);
                assert(outs.drop_last() =~= prev);
                assert(outs.last() == o);
                match o {
                    RecordV::Frame(ts) => {
                        assert(rs.last() matches RecordV::Frame(t2) && t2 == ts && !feq(
                            ts,
                            st.this_frame,
                        ));
                        let f = frame_times(outs);
                        assert(f == pf.push(ts));
                        assert forall|k: int| 0 <= k < f.len() - 1 implies !feq(
                            f[k],
                            #[trigger] f[k + 1],
                        ) by {
                            if k < pf.len() - 1 {
                                assert(f[k] == pf[k] && f[k + 1] == pf[k + 1]);
                            } else {
                                assert(f[k] == pf.last() && pf.last() == st.this_frame);
                            }
                        }
                    },
                    _ => {
                        assert(frame_times(outs) == pf);
                        assert(run_state(s0, rs).this_frame == st.this_frame);
                    },
                }
            },
            Option::None => {},
        }
    }
}

/// Frame idempotence: among the frame markers the rewriter emits, no two
/// adjacent ones carry IEEE-equal timestamps.
pub proof fn lemma_frame_idempotence(s0: EngineV, rs: Seq<RecordV>)
    ensures
        no_adjacent_feq(frame_times(run_outputs(s0, rs))),
{
    lemma_frames_inv(s0, rs);
}

// ------------------------------------------------------------------
// Remove validity
// ------------------------------------------------------------------

/// The stream leaves the entity alive: some update for it is not followed by
/// its removal.
pub open spec fn live_in(rs: Seq<RecordV>, id: u64) -> bool
    decreases rs.len(),
{
    if rs.len() == 0 {
        false
    } else {
        match rs.last() {
            RecordV::Update { id: uid, props: _ } => if uid == id {
                true
            } else {
                live_in(rs.drop_last(), id)
            },
            RecordV::Remove(rid) => if rid == id {
                false
            } else {
                live_in(rs.drop_last(), id)
            },
            _ => live_in(rs.drop_last(), id),
        }
    }
}

/// Some entity entry carries the id.
pub open spec fn has_id(es: Seq<EntityV>, id: u64) -> bool {
    exists|j: int| 0 <= j < es.len() && (#[trigger] es[j]).id == id
}

/// The record at position `k` is an update for the entity.
pub open spec fn is_update_of(r: RecordV, id: u64) -> bool {
    r matches RecordV::Update { id: uid, props: _ } && uid == id
}

/// No removal of the entity stands strictly between `i` and `k`.
pub open spec fn no_remove_between(rs: Seq<RecordV>, i: int, k: int, id: u64) -> bool {
    forall|j: int| i < j < k ==> #[trigger] rs[j] != RecordV::Remove(id)
}

/// Position `k` is preceded by an update for the entity with no removal of
/// it in between.
pub open spec fn update_precedes(rs: Seq<RecordV>, k: int, id: u64) -> bool {
    exists|i: int| 0 <= i < k && is_update_of(#[trigger] rs[i], id) && no_remove_between(rs, i, k, id)
}

/// A live entity has a witnessing update with no later removal.
proof fn lemma_live_in_witness(p: Seq<RecordV>, id: u64)
    requires
        live_in(p, id),
    ensures
        update_precedes(p, p.len() as int, id),
    decreases p.len(),
{
    let r = p.last();
    match r {
        RecordV::Update { id: uid, props: _ } => {
            if uid == id {
                assert(is_update_of(p[p.len() - 1], id));
                assert(no_remove_between(p, p.len() - 1, p.len() as int, id));
            } else {
                lemma_live_in_witness(p.drop_last(), id);
                let i = choose|i: int|
                    0 <= i < p.len() - 1 && is_update_of(#[trigger] p.drop_last()[i], id)
                        && no_remove_between(p.drop_last(), i, p.len() - 1, id);
                assert(p.drop_last()[i] == p[i]);
                assert(is_update_of(p[i], id));
                assert forall|j: int| i < j < p.len() implies #[trigger] p[j]
                    != RecordV::Remove(id) by {
                    if j < p.len() - 1 {
                        assert(p.drop_last()[j] == p[j]);
                    }
                }
            }
        },
        RecordV::Remove(_) => {
            lemma_live_in_witness(p.drop_last(), id);
            let i = choose|i: int|
                0 <= i < p.len() - 1 && is_update_of(#[trigger] p.drop_last()[i], id)
                    && no_remove_between(p.drop_last(), i, p.len() - 1, id);
            assert(p.drop_last()[i] == p[i]);
            assert(is_update_of(p[i], id));
            assert forall|j: int| i < j < p.len() implies #[trigger] p[j] != RecordV::Remove(
                id,
            ) by {
                if j < p.len() - 1 {
                    assert(p.drop_last()[j] == p[j]);
                }
            }
        },
        _ => {
            lemma_live_in_witness(p.drop_last(), id);
            let i = choose|i: int|
                0 <= i < p.len() - 1 && is_update_of(#[trigger] p.drop_last()[i], id)
                    && no_remove_between(p.drop_last(), i, p.len() - 1, id);
            assert(p.drop_last()[i] == p[i]);
            assert(is_update_of(p[i], id));
            assert forall|j: int| i < j < p.len() implies #[trigger] p[j] != RecordV::Remove(
                id,
            ) by {
                if j < p.len() - 1 {
                    assert(p.drop_last()[j] == p[j]);
                }
            }
        },
    }
}

/// A run that starts with no entities keeps its entity table in step with
/// what it has emitted: an id is present exactly when the emitted stream
/// leaves it alive, and every emitted removal found the entity alive.
proof fn lemma_live_inv(s0: EngineV, rs: Seq<RecordV>)
    requires
        engine_wf(s0),
        s0.entities.len() == 0,
    ensures
        forall|id: u64| #[trigger] has_id(run_state(s0, rs).entities, id) <==> live_in(
            run_outputs(s0, rs),
            id,
        ),
        forall|k: int|
            0 <= k < run_outputs(s0, rs).len() ==> ((#[trigger] run_outputs(s0, rs)[k]) matches
            RecordV::Remove(id) ==> live_in(run_outputs(s0, rs).take(k), id)),
    decreases rs.len(),
{
    if rs.len() == 0 {
        assert forall|id: u64| #[trigger] has_id(s0.entities, id) <==> live_in(
            Seq::<RecordV>::empty(),
            id,
        ) by {}
    } else {
        lemma_live_inv(s0, rs.drop_last());
        lemma_run_wf(s0, rs.drop_last());
        let st = run_state(s0, rs.drop_last());
        let prev = run_outputs(s0, rs.drop_last());
        let r = rs.last();
        let st2 = run_state(s0, rs);
        let outs = run_outputs(s0, rs);
        match engine_step(st, r).emit {
            Option::Some(o) => {
                assert(outs == prev.push(o));
                assert(outs.drop_last() =~= prev);
                assert(outs.last() == o);
                assert forall|k: int| 0 <= k < prev.len() implies outs.take(k) =~= prev.take(
                    k,
                ) by {}
            },
            Option::None => {
                assert(outs == prev);
            },
        }
        match r {
            RecordV::Update { id, props } => {
                lemma_index_of_id_props(st.entities, id);
                match index_of_id(st.entities, id) {
                    Option::None => {
                        let dprops = dedup_props(props);
                        assert(st2.entities == st.entities.push(
                            EntityV { id, props: dprops },
                        ));
                        assert(outs.last() matches RecordV::Update { id: u2, props: _ } && u2
                            == id);
                        assert forall|x: u64| #[trigger] has_id(st2.entities, x) <==> live_in(
                            outs,
                            x,
                        ) by {
                            if x == id {
                                assert(st2.entities[st.entities.len() as int].id == id);
                                assert(has_id(st2.entities, id));
                                assert(live_in(outs, id));
                            } else {
                                assert forall|j: int|
                                    0 <= j < st2.entities.len() && (#[trigger] st2.entities[j]).id
                                        == x implies has_id(st.entities, x) by {
                                    assert(st2.entities[j] == st.entities[j]);
                                }
                                assert(has_id(st2.entities, x) ==> has_id(st.entities, x));
                                assert(has_id(st.entities, x) ==> has_id(st2.entities, x)) by {
                                    if has_id(st.entities, x) {
                                        let j = choose|j: int|
                                            0 <= j < st.entities.len() && (#[trigger] st.entities[j]).id == x;
                                        assert(st2.entities[j].id == x);
                                    }
                                }
                                assert(live_in(outs, x) == live_in(prev, x));
                            }
                        }
                    },
                    Option::Some(i) => {
                        let stored = st.entities[i].props;
                        let ch = changed_props(stored, dedup_props(props));
                        if ch.len() == 0 {
                            assert(st2 == st && outs == prev);
                        } else {
                            assert(st2.entities == st.entities.update(
                                i,
                                EntityV { id, props: merge_props(stored, ch) },
                            ));
                            assert forall|x: u64| #[trigger] has_id(st2.entities, x) <==> has_id(
                                st.entities,
                                x,
                            ) by {
                                assert(st2.entities[i].id == st.entities[i].id);
                                if has_id(st2.entities, x) {
                                    let j = choose|j: int|
                                        0 <= j < st2.entities.len() && (#[trigger] st2.entities[j]).id == x;
                                    assert(st.entities[j].id == x);
                                }
                                if has_id(st.entities, x) {
                                    let j = choose|j: int|
                                        0 <= j < st.entities.len() && (#[trigger] st.entities[j]).id == x;
                                    assert(st2.entities[j].id == x);
                                }
                            }
                            assert(outs.last() matches RecordV::Update { id: u2, props: _ } && u2
                                == id);
                            assert forall|x: u64| #[trigger] has_id(st2.entities, x) <==> live_in(
                                outs,
                                x,
                            ) by {
                                if x == id {
                                    assert(st.entities[i].id == id);
                                    assert(has_id(st.entities, id));
                                } else {
                                    assert(live_in(outs, x) == live_in(prev, x));
                                }
                            }
                        }
                    },
                }
            },
            RecordV::Remove(id) => {
                lemma_index_of_id_props(st.entities, id);
                match index_of_id(st.entities, id) {
                    Option::Some(i) => {
                        assert(st2.entities == st.entities.remove(i));
                        assert(st.entities[i].id == id);
                        assert(has_id(st.entities, id));
                        assert(live_in(prev, id));
                        assert(outs.last() == RecordV::Remove(id));
                        // the newly emitted removal found the entity alive
                        assert(outs.take(outs.len() - 1) =~= prev);
                        assert forall|x: u64| #[trigger] has_id(st2.entities, x) <==> live_in(
                            outs,
                            x,
                        ) by {
                            if x == id {
                                assert(!live_in(outs, id));
                                assert(!has_id(st2.entities, id)) by {
                                    if has_id(st2.entities, id) {
                                        let j = choose|j: int|
                                            0 <= j < st2.entities.len() && (#[trigger] st2.entities[j]).id == id;
                                        if j < i {
                                            assert(st.entities[j].id == id);
                                            assert(st.entities[j].id != st.entities[i].id);
                                        } else {
                                            assert(st2.entities[j] == st.entities[j + 1]);
                                            assert(st.entities[j + 1].id != st.entities[i].id);
                                        }
                                    }
                                }
                            } else {
                                assert(live_in(outs, x) == live_in(prev, x));
                                if has_id(st2.entities, x) {
                                    let j = choose|j: int|
                                        0 <= j < st2.entities.len() && (#[trigger] st2.entities[j]).id == x;
                                    if j < i {
                                        assert(st.entities[j].id == x);
                                    } else {
                                        assert(st2.entities[j] == st.entities[j + 1]);
                                    }
                                    assert(has_id(st.entities, x));
                                }
                                if has_id(st.entities, x) {
                                    let j = choose|j: int|
                                        0 <= j < st.entities.len() && (#[trigger] st.entities[j]).id == x;
                                    assert(j != i);
                                    if j < i {
                                        assert(st2.entities[j].id == x);
                                    } else {
                                        assert(st2.entities[j - 1] == st.entities[j]);
                                        assert(st2.entities[j - 1].id == x);
                                    }
                                    assert(has_id(st2.entities, x));
                                }
                            }
                        }
                    },
                    Option::None => {
                        assert(st2 == st && outs == prev);
                        assert forall|x: u64| #[trigger] has_id(st2.entities, x) <==> live_in(
                            outs,
                            x,
                        ) by {}
                    },
                }
            },
            _ => {
                assert(st2.entities == st.entities);
                match engine_step(st, r).emit {
                    Option::Some(o) => {
                        assert(!(o matches RecordV::Update { id: _, props: _ }));
                        assert(!(o matches RecordV::Remove(_)));
                        assert forall|x: u64| live_in(outs, x) == live_in(prev, x) by {}
                    },
                    Option::None => {},
                }
            },
        }
    }
}

/// Remove validity: every removal the rewriter emits is preceded in the
/// emitted stream by an update for the same entity, with no removal of that
/// entity in between.
pub proof fn lemma_remove_validity(s0: EngineV, rs: Seq<RecordV>)
    requires
        engine_wf(s0),
        s0.entities.len() == 0,
    ensures
        forall|k: int|
            0 <= k < run_outputs(s0, rs).len() ==> ((#[trigger] run_outputs(s0, rs)[k]) matches
            RecordV::Remove(id) ==> update_precedes(run_outputs(s0, rs), k, id)),
{
    lemma_live_inv(s0, rs);
    let outs = run_outputs(s0, rs);
    assert forall|k: int| 0 <= k < outs.len() implies ((#[trigger] outs[k]) matches
    RecordV::Remove(id) ==> update_precedes(outs, k, id)) by {
        match outs[k] {
            RecordV::Remove(id) => {
                assert(live_in(outs.take(k), id));
                lemma_live_in_witness(outs.take(k), id);
                let i = choose|i: int|
                    0 <= i < k && is_update_of(#[trigger] outs.take(k)[i], id)
                        && no_remove_between(outs.take(k), i, k, id);
                assert(outs.take(k)[i] == outs[i]);
                assert(is_update_of(outs[i], id));
                assert forall|j: int| i < j < k implies #[trigger] outs[j] != RecordV::Remove(
                    id,
                ) by {
                    assert(outs.take(k)[j] == outs[j]);
                }
            },
            _ => {},
        }
    }
}

// ------------------------------------------------------------------
// Diff minimality
// ------------------------------------------------------------------

/// The bits differ from the committed optional field in the IEEE sense.
pub open spec fn field_differs(prev: Option<u64>, x: u64) -> bool {
    !(prev matches Some(p) && feq(p, x))
}

/// Every present field of the emitted coordinate diff differs from the
/// committed coordinates.
pub open spec fn delta_fields_differ(prev: Coords, d: Coords) -> bool {
    &&& (d.longitude matches Some(x) ==> field_differs(prev.longitude, x))
    &&& (d.latitude matches Some(x) ==> field_differs(prev.latitude, x))
    &&& (d.altitude matches Some(x) ==> field_differs(prev.altitude, x))
    &&& (d.u matches Some(x) ==> field_differs(prev.u, x))
    &&& (d.v matches Some(x) ==> field_differs(prev.v, x))
    &&& (d.roll matches Some(x) ==> field_differs(prev.roll, x))
    &&& (d.pitch matches Some(x) ==> field_differs(prev.pitch, x))
    &&& (d.yaw matches Some(x) ==> field_differs(prev.yaw, x))
    &&& (d.heading matches Some(x) ==> field_differs(prev.heading, x))
}

/// The emitted property genuinely changes the committed state: a tag not yet
/// committed, a coordinate diff that is non-empty and differs field-wise, or
/// a whole value that is not IEEE-equal to the committed one.
pub open spec fn prop_changed_from(stored: Seq<PropertyV>, q: PropertyV) -> bool {
    match index_of_tag(stored, tag_of(q)) {
        Option::None => true,
        Option::Some(i) => match (q, stored[i]) {
            (PropertyV::T(d), PropertyV::T(prev)) => !coords_is_empty(d) && delta_fields_differ(
                prev,
                d,
            ),
            _ => !prop_eqv(q, stored[i]),
        },
    }
}

/// Every property of the changed set genuinely changes the committed state.
proof fn lemma_changed_minimal(stored: Seq<PropertyV>, new: Seq<PropertyV>)
    ensures
        forall|k: int|
            0 <= k < changed_props(stored, new).len() ==> prop_changed_from(
                stored,
                #[trigger] changed_props(stored, new)[k],
            ),
    decreases new.len(),
{
    if new.len() == 0 {
    } else {
        lemma_changed_minimal(stored, new.drop_last());
        let rest = changed_props(stored, new.drop_last());
        let p = new.last();
        match changed_keep(stored, p) {
            Option::Some(q) => {
                assert(prop_changed_from(stored, q)) by {
                    match index_of_tag(stored, tag_of(p)) {
                        Option::Some(i) => {
                            match (p, stored[i]) {
                                (PropertyV::T(c), PropertyV::T(prev)) => {
                                    assert(q == PropertyV::T(coords_delta(prev, c)));
                                    assert(tag_of(q) == tag_of(p));
                                },
                                _ => {},
                            }
                        },
                        Option::None => {},
                    }
                }
                assert forall|k: int| 0 <= k < rest.push(q).len() implies prop_changed_from(
                    stored,
                    #[trigger] rest.push(q)[k],
                ) by {}
            },
            Option::None => {},
        }
    }
}

/// Diff minimality: when the rewriter emits an update for an entity it
/// already tracks, the emitted property list is non-empty and every property
/// in it genuinely changes that entity's committed state; in particular an
/// emitted coordinate diff has at least one present field, each differing
/// from the committed value.
pub proof fn lemma_diff_minimality(s: EngineV, id: u64, props: Seq<PropertyV>, i: int)
    requires
        engine_wf(s),
        index_of_id(s.entities, id) == Option::<int>::Some(i),
    ensures
        match step_update_spec(s, id, props).emit {
            Option::Some(o) => o matches RecordV::Update { id: uid, props: ch } && uid == id
                && ch.len() > 0 && ch == changed_props(
                s.entities[i].props,
                dedup_props(props),
            ) && (forall|k: int|
                0 <= k < ch.len() ==> prop_changed_from(s.entities[i].props, #[trigger] ch[k])),
            Option::None => changed_props(s.entities[i].props, dedup_props(props)).len() == 0,
        },
{
    lemma_index_of_id_props(s.entities, id);
    lemma_changed_minimal(s.entities[i].props, dedup_props(props));
}

// ------------------------------------------------------------------
// Semantic round trip
// ------------------------------------------------------------------

/// The two optional fields agree: bit-identical, or IEEE-equal values.
pub open spec fn field_sim(a: Option<u64>, b: Option<u64>) -> bool {
    a == b || opt_feq(a, b)
}

/// Field-wise agreement of coordinates.
pub open spec fn coords_sim(x: Coords, y: Coords) -> bool {
    &&& field_sim(x.longitude, y.longitude)
    &&& field_sim(x.latitude, y.latitude)
    &&& field_sim(x.altitude, y.altitude)
    &&& field_sim(x.u, y.u)
    &&& field_sim(x.v, y.v)
    &&& field_sim(x.roll, y.roll)
    &&& field_sim(x.pitch, y.pitch)
    &&& field_sim(x.yaw, y.yaw)
    &&& field_sim(x.heading, y.heading)
}

/// The two property values agree: bit-identical, or IEEE-equal.
pub open spec fn value_sim(a: PropValueV, b: PropValueV) -> bool {
    a == b || value_eqv(a, b)
}

/// The two properties agree: same tag, and a value that is bit-identical or
/// IEEE-equal — per field for coordinates.
pub open spec fn prop_sim(a: PropertyV, b: PropertyV) -> bool {
    match (a, b) {
        (PropertyV::T(x), PropertyV::T(y)) => coords_sim(x, y),
        (
            PropertyV::Scalar { code: c1, value: v1 },
            PropertyV::Scalar { code: c2, value: v2 },
        ) => c1 == c2 && value_sim(v1, v2),
        (
            PropertyV::Unknown { name: n1, value: v1 },
            PropertyV::Unknown { name: n2, value: v2 },
        ) => n1 == n2 && v1 == v2,
        _ => false,
    }
}

/// The two committed property lists agree position by position.
pub open spec fn props_equiv(a: Seq<PropertyV>, b: Seq<PropertyV>) -> bool {
    &&& a.len() == b.len()
    &&& forall|k: int|
        0 <= k < a.len() ==> tag_of(#[trigger] a[k]) == tag_of(b[k]) && prop_sim(a[k], b[k])
}

proof fn lemma_prop_sim_refl(p: PropertyV)
    ensures
        prop_sim(p, p),
{
}

/// Committing only the changed set reproduces committing the whole update:
/// after an update, an entity's state in the rewriter agrees — field by
/// field, up to IEEE equality — with the state that accumulating the full
/// update against the same history would give.
pub proof fn lemma_commit_equiv(st: Seq<PropertyV>, stin: Seq<PropertyV>, new: Seq<PropertyV>)
    requires
        props_wf(st),
        props_wf(stin),
        props_equiv(st, stin),
        props_wf(new),
    ensures
        props_equiv(merge_props(st, changed_props(st, new)), merge_props(stin, new)),
    decreases new.len(),
{
    if new.len() == 0 {
    } else {
        let n1 = new.drop_last();
        assert(props_wf(n1));
        lemma_commit_equiv(st, stin, n1);
        let chp = changed_props(st, n1);
        let a = merge_props(st, chp);
        let b = merge_props(stin, n1);
        let p = new.last();
        let t = tag_of(p);
        let ch = changed_props(st, new);
        assert forall|k: int| 0 <= k < n1.len() implies tag_of(#[trigger] n1[k]) != t by {
            assert(n1[k] == new[k]);
            assert(tag_of(new[k]) != tag_of(new[new.len() - 1]));
        }
        lemma_changed_tags(st, n1);
        assert forall|k: int| 0 <= k < chp.len() implies tag_of(#[trigger] chp[k]) != t by {
            if tag_of(chp[k]) == t {
                crate::props::lemma_index_of_tag_none(n1, t);
            }
        }
        lemma_merge_untouched(st, chp, t);
        lemma_merge_untouched(stin, n1, t);
        assert forall|k: int| 0 <= k < st.len() implies tag_of(#[trigger] st[k]) == tag_of(
            stin[k],
        ) by {}
        lemma_index_same_tags(st, stin, t);
        lemma_index_of_tag_props(st, t);
        match index_of_tag(st, t) {
            Option::None => {
                assert(changed_keep(st, p) == Option::Some(p));
                assert(ch == chp.push(p));
                assert(ch.drop_last() =~= chp);
                assert(ch.last() == p);
                assert(merge_props(st, ch) == merge_one(a, p));
                assert(index_of_tag(a, t) is None);
                assert(index_of_tag(b, t) is None);
                assert(merge_one(a, p) == a.push(p));
                assert(merge_one(b, p) == b.push(p));
                lemma_prop_sim_refl(p);
                assert forall|k: int| 0 <= k < a.push(p).len() implies tag_of(
                    #[trigger] a.push(p)[k],
                ) == tag_of(b.push(p)[k]) && prop_sim(a.push(p)[k], b.push(p)[k]) by {
                    if k < a.len() {
                        assert(a.push(p)[k] == a[k]);
                        assert(b.push(p)[k] == b[k]);
                    }
                }
            },
            Option::Some(i) => {
                assert(tag_of(st[i]) == t);
                assert(tag_of(stin[i]) == t && prop_sim(st[i], stin[i]));
                assert(index_of_tag(a, t) == Option::<int>::Some(i) && a[i] == st[i]);
                lemma_index_of_tag_props(a, t);
                lemma_index_of_tag_props(b, t);
                assert(0 <= i < a.len() && a.len() == b.len());
                assert(index_of_tag(b, t) == Option::<int>::Some(i) && b[i] == stin[i]);
                match (p, st[i]) {
                    (PropertyV::T(c), PropertyV::T(prev)) => {
                        assert(t == TagV::T);
                        match stin[i] {
                            PropertyV::T(prev_in) => {
                                let d = coords_delta(prev, c);
                                assert(coords_sim(prev, prev_in));
                                if coords_is_empty(d) {
                                    assert(changed_keep(st, p) is None);
                                    assert(ch == chp);
                                    assert(merge_props(st, ch) == a);
                                    assert(merge_one(b, p) == b.update(
                                        i,
                                        PropertyV::T(coords_merge(prev_in, c)),
                                    ));
                                    assert(coords_sim(prev, coords_merge(prev_in, c)));
                                    let rhs = b.update(i, PropertyV::T(coords_merge(prev_in, c)));
                                    assert forall|k: int| 0 <= k < a.len() implies tag_of(
                                        #[trigger] a[k],
                                    ) == tag_of(rhs[k]) && prop_sim(a[k], rhs[k]) by {
                                        if k != i {
                                            assert(rhs[k] == b[k]);
                                        }
                                    }
                                } else {
                                    assert(changed_keep(st, p) == Option::Some(PropertyV::T(d)));
                                    assert(ch == chp.push(PropertyV::T(d)));
                                    assert(ch.drop_last() =~= chp);
                                    assert(ch.last() == PropertyV::T(d));
                                    assert(merge_props(st, ch) == merge_one(a, PropertyV::T(d)));
                                    assert(tag_of(PropertyV::T(d)) == t);
                                    assert(merge_one(a, PropertyV::T(d)) == a.update(
                                        i,
                                        PropertyV::T(coords_merge(prev, d)),
                                    ));
                                    assert(merge_one(b, p) == b.update(
                                        i,
                                        PropertyV::T(coords_merge(prev_in, c)),
                                    ));
                                    assert(coords_sim(
                                        coords_merge(prev, d),
                                        coords_merge(prev_in, c),
                                    ));
                                    let lhs = a.update(i, PropertyV::T(coords_merge(prev, d)));
                                    let rhs = b.update(i, PropertyV::T(coords_merge(prev_in, c)));
                                    assert forall|k: int| 0 <= k < lhs.len() implies tag_of(
                                        #[trigger] lhs[k],
                                    ) == tag_of(rhs[k]) && prop_sim(lhs[k], rhs[k]) by {
                                        if k != i {
                                            assert(lhs[k] == a[k]);
                                            assert(rhs[k] == b[k]);
                                        }
                                    }
                                }
                            },
                            _ => {
                                assert(false);
                            },
                        }
                    },
                    _ => {
                        match p {
                            PropertyV::T(_) => {
                                assert(tag_of(st[i]) == TagV::T);
                                match st[i] {
                                    PropertyV::T(_) => {},
                                    _ => {},
                                }
                                assert(false);
                            },
                            _ => {},
                        }
                        if prop_eqv(p, st[i]) {
                            assert(changed_keep(st, p) is None);
                            assert(ch == chp);
                            assert(merge_props(st, ch) == a);
                            assert(merge_one(b, p) == b.update(i, p));
                            assert(prop_sim(st[i], p));
                            let rhs = b.update(i, p);
                            assert forall|k: int| 0 <= k < a.len() implies tag_of(
                                #[trigger] a[k],
                            ) == tag_of(rhs[k]) && prop_sim(a[k], rhs[k]) by {
                                if k != i {
                                    assert(rhs[k] == b[k]);
                                }
                            }
                        } else {
                            assert(changed_keep(st, p) == Option::Some(p));
                            assert(ch == chp.push(p));
                            assert(ch.drop_last() =~= chp);
                            assert(ch.last() == p);
                            assert(merge_props(st, ch) == merge_one(a, p));
                            assert(merge_one(a, p) == a.update(i, p));
                            assert(merge_one(b, p) == b.update(i, p));
                            lemma_prop_sim_refl(p);
                            let lhs = a.update(i, p);
                            let rhs = b.update(i, p);
                            assert forall|k: int| 0 <= k < lhs.len() implies tag_of(
                                #[trigger] lhs[k],
                            ) == tag_of(rhs[k]) && prop_sim(lhs[k], rhs[k]) by {
                                if k != i {
                                    assert(lhs[k] == a[k]);
                                    assert(rhs[k] == b[k]);
                                }
                            }
                        }
                    },
                }
            },
        }
    }
}

/// Absolute per-entity state accumulated over a stream: updates fold in by
/// tag (coordinates field-wise, missing field means unchanged), removals
/// drop the entity, removals of unknown entities do nothing.
pub open spec fn abs_state(rs: Seq<RecordV>) -> Map<u64, Seq<PropertyV>>
    decreases rs.len(),
{
    if rs.len() == 0 {
        Map::empty()
    } else {
        let m = abs_state(rs.drop_last());
        match rs.last() {
            RecordV::Update { id, props } => m.insert(
                id,
                if m.dom().contains(id) {
                    merge_props(m[id], dedup_props(props))
                } else {
                    dedup_props(props)
                },
            ),
            RecordV::Remove(id) => m.remove(id),
            _ => m,
        }
    }
}

/// Searching the entity table depends only on the sequence of ids.
proof fn lemma_index_same_ids(a: Seq<EntityV>, b: Seq<EntityV>, id: u64)
    requires
        a.len() == b.len(),
        forall|k: int| 0 <= k < a.len() ==> (#[trigger] a[k]).id == b[k].id,
    ensures
        index_of_id(a, id) == index_of_id(b, id),
    decreases a.len(),
{
    if a.len() == 0 {
    } else {
        assert forall|k: int| 0 <= k < a.len() - 1 implies (#[trigger] a.skip(1)[k]).id
            == b.skip(1)[k].id by {
            assert(a.skip(1)[k] == a[k + 1]);
            assert(b.skip(1)[k] == b[k + 1]);
        }
        lemma_index_same_ids(a.skip(1), b.skip(1), id);
    }
}

proof fn lemma_props_equiv_refl(ps: Seq<PropertyV>)
    ensures
        props_equiv(ps, ps),
{
    assert forall|k: int| 0 <= k < ps.len() implies tag_of(#[trigger] ps[k]) == tag_of(ps[k])
        && prop_sim(ps[k], ps[k]) by {
        lemma_prop_sim_refl(ps[k]);
    }
}

/// The round-trip invariant, per entity id: the engine's committed state is
/// exactly the state accumulated from what it has emitted, and agrees up to
/// IEEE equality with the state accumulated from what it has read.
pub open spec fn round_trip_at(
    s: EngineV,
    outs: Seq<RecordV>,
    rs: Seq<RecordV>,
    id: u64,
) -> bool {
    match index_of_id(s.entities, id) {
        Option::Some(i) => {
            &&& abs_state(outs).dom().contains(id)
            &&& abs_state(outs)[id] == s.entities[i].props
            &&& abs_state(rs).dom().contains(id)
            &&& props_equiv(s.entities[i].props, abs_state(rs)[id])
            &&& props_wf(abs_state(rs)[id])
        },
        Option::None => {
            &&& !abs_state(outs).dom().contains(id)
            &&& !abs_state(rs).dom().contains(id)
        },
    }
}

proof fn lemma_round_trip_inv(s0: EngineV, rs: Seq<RecordV>)
    requires
        engine_wf(s0),
        s0.entities.len() == 0,
    ensures
        forall|id: u64| #[trigger] round_trip_at(
            run_state(s0, rs),
            run_outputs(s0, rs),
            rs,
            id,
        ),
    decreases rs.len(),
{
    if rs.len() == 0 {
        assert forall|id: u64| #[trigger] round_trip_at(s0, Seq::<RecordV>::empty(), rs, id) by {
            lemma_index_of_id_props(s0.entities, id);
        }
    } else {
        let n1 = rs.drop_last();
        lemma_round_trip_inv(s0, n1);
        lemma_run_wf(s0, n1);
        let st = run_state(s0, n1);
        let st2 = run_state(s0, rs);
        let prev = run_outputs(s0, n1);
        let outs = run_outputs(s0, rs);
        let r = rs.last();
        match engine_step(st, r).emit {
            Option::Some(o) => {
                assert(outs == prev.push(o));
                assert(outs.drop_last() =~= prev);
                assert(outs.last() == o);
            },
            Option::None => {
                assert(outs == prev);
            },
        }
        match r {
            RecordV::Update { id, props } => {
                lemma_index_of_id_props(st.entities, id);
                lemma_dedup_wf(props);
                let dprops = dedup_props(props);
                assert(round_trip_at(st, prev, n1, id));
                match index_of_id(st.entities, id) {
                    Option::None => {
                        assert(st2.entities == st.entities.push(
                            EntityV { id, props: dprops },
                        ));
                        lemma_dedup_of_wf(dprops);
                        assert(abs_state(outs) == abs_state(prev).insert(id, dprops));
                        assert(abs_state(rs) == abs_state(n1).insert(id, dprops));
                        assert forall|x: u64| #[trigger] round_trip_at(st2, outs, rs, x) by {
                            assert(round_trip_at(st, prev, n1, x));
                            if x == id {
                                assert(st2.entities[st.entities.len() as int].id == id);
                                assert forall|j: int| 0 <= j < st.entities.len() implies
                                    st2.entities[j].id != id by {
                                    assert(st2.entities[j] == st.entities[j]);
                                }
                                lemma_index_of_id_at(
                                    st2.entities,
                                    id,
                                    st.entities.len() as int,
                                );
                                lemma_props_equiv_refl(dprops);
                            } else {
                                match index_of_id(st.entities, x) {
                                    Option::Some(j) => {
                                        lemma_index_of_id_props(st.entities, x);
                                        assert forall|k: int| 0 <= k < j implies
                                            st2.entities[k].id != x by {
                                            assert(st2.entities[k] == st.entities[k]);
                                        }
                                        assert(st2.entities[j] == st.entities[j]);
                                        lemma_index_of_id_at(st2.entities, x, j);
                                    },
                                    Option::None => {
                                        lemma_index_of_id_props(st.entities, x);
                                        assert forall|k: int| 0 <= k < st2.entities.len() implies
                                            st2.entities[k].id != x by {
                                            if k < st.entities.len() {
                                                assert(st2.entities[k] == st.entities[k]);
                                            }
                                        }
                                        lemma_index_of_id_none(st2.entities, x);
                                    },
                                }
                            }
                        }
                    },
                    Option::Some(i) => {
                        let stored = st.entities[i].props;
                        let ch = changed_props(stored, dprops);
                        assert(props_wf(stored));
                        assert(props_wf(abs_state(n1)[id]));
                        lemma_commit_equiv(stored, abs_state(n1)[id], dprops);
                        lemma_merge_wf(abs_state(n1)[id], dprops);
                        assert(abs_state(rs) == abs_state(n1).insert(
                            id,
                            merge_props(abs_state(n1)[id], dprops),
                        ));
                        if ch.len() == 0 {
                            assert(st2 == st && outs == prev);
                            assert forall|x: u64| #[trigger] round_trip_at(st2, outs, rs, x) by {
                                assert(round_trip_at(st, prev, n1, x));
                                if x == id {
                                    assert(merge_props(stored, ch) == stored);
                                } else {
                                }
                            }
                        } else {
                            assert(st2.entities == st.entities.update(
                                i,
                                EntityV { id, props: merge_props(stored, ch) },
                            ));
                            lemma_changed_tags(stored, dprops);
                            lemma_dedup_of_wf(ch);
                            assert(abs_state(outs) == abs_state(prev).insert(
                                id,
                                merge_props(abs_state(prev)[id], ch),
                            ));
                            assert(abs_state(prev)[id] == stored);
                            assert forall|k: int| 0 <= k < st.entities.len() implies
                                (#[trigger] st2.entities[k]).id == st.entities[k].id by {
                                if k != i {
                                    assert(st2.entities[k] == st.entities[k]);
                                }
                            }
                            assert forall|x: u64| #[trigger] round_trip_at(st2, outs, rs, x) by {
                                assert(round_trip_at(st, prev, n1, x));
                                lemma_index_same_ids(st2.entities, st.entities, x);
                                if x == id {
                                    assert(index_of_id(st2.entities, x) == Option::<int>::Some(i));
                                    assert(st2.entities[i].props == merge_props(stored, ch));
                                } else {
                                    match index_of_id(st.entities, x) {
                                        Option::Some(j) => {
                                            lemma_index_of_id_props(st.entities, x);
                                            assert(j != i);
                                            assert(st2.entities[j] == st.entities[j]);
                                        },
                                        Option::None => {},
                                    }
                                }
                            }
                        }
                    },
                }
            },
            RecordV::Remove(id) => {
                lemma_index_of_id_props(st.entities, id);
                assert(round_trip_at(st, prev, n1, id));
                match index_of_id(st.entities, id) {
                    Option::Some(i) => {
                        assert(st2.entities == st.entities.remove(i));
                        assert(st.entities[i].id == id);
                        assert(abs_state(outs) == abs_state(prev).remove(id));
                        assert(abs_state(rs) == abs_state(n1).remove(id));
                        assert forall|x: u64| #[trigger] round_trip_at(st2, outs, rs, x) by {
                            assert(round_trip_at(st, prev, n1, x));
                            if x == id {
                                assert forall|k: int| 0 <= k < st2.entities.len() implies
                                    st2.entities[k].id != id by {
                                    if k < i {
                                        assert(st2.entities[k] == st.entities[k]);
                                        assert(st.entities[k].id != st.entities[i].id);
                                    } else {
                                        assert(st2.entities[k] == st.entities[k + 1]);
                                        assert(st.entities[k + 1].id != st.entities[i].id);
                                    }
                                }
                                lemma_index_of_id_none(st2.entities, id);
                            } else {
                                match index_of_id(st2.entities, x) {
                                    Option::Some(j) => {
                                        lemma_index_of_id_props(st2.entities, x);
                                        if j < i {
                                            assert(st2.entities[j] == st.entities[j]);
                                            assert forall|k: int| 0 <= k < j implies
                                                st.entities[k].id != x by {
                                                assert(st.entities[k] == st2.entities[k]);
                                            }
                                            lemma_index_of_id_at(st.entities, x, j);
                                        } else {
                                            assert(st2.entities[j] == st.entities[j + 1]);
                                            assert forall|k: int| 0 <= k < j + 1 implies
                                                st.entities[k].id != x by {
                                                if k < i {
                                                    assert(st.entities[k] == st2.entities[k]);
                                                } else if k == i {
                                                } else {
                                                    assert(st.entities[k] == st2.entities[k - 1]);
                                                }
                                            }
                                            lemma_index_of_id_at(st.entities, x, j + 1);
                                            assert(round_trip_at(st, prev, n1, x));
                                        }
                                    },
                                    Option::None => {
                                        lemma_index_of_id_props(st2.entities, x);
                                        assert forall|k: int| 0 <= k < st.entities.len() implies
                                            st.entities[k].id != x by {
                                            if k < i {
                                                assert(st.entities[k] == st2.entities[k]);
                                            } else if k == i {
                                            } else {
                                                assert(st.entities[k] == st2.entities[k - 1]);
                                            }
                                        }
                                        lemma_index_of_id_none(st.entities, x);
                                    },
                                }
                            }
                        }
                    },
                    Option::None => {
                        assert(st2 == st && outs == prev);
                        assert(abs_state(rs) == abs_state(n1).remove(id));
                        assert(abs_state(rs) =~= abs_state(n1));
                        assert forall|x: u64| #[trigger] round_trip_at(st2, outs, rs, x) by {
                            assert(round_trip_at(st, prev, n1, x));
                        }
                    },
                }
            },
            _ => {
                assert(st2.entities == st.entities);
                assert(abs_state(rs) == abs_state(n1));
                match engine_step(st, r).emit {
                    Option::Some(o) => {
                        assert(abs_state(outs) == abs_state(prev));
                    },
                    Option::None => {},
                }
                assert forall|x: u64| #[trigger] round_trip_at(st2, outs, rs, x) by {
                    assert(round_trip_at(st, prev, n1, x));
                }
            },
        }
    }
}

/// Semantic round trip: accumulating absolute entity states from the
/// rewritten stream (missing coordinate field means unchanged, removals drop
/// the entity) reconstructs the states that the original stream accumulates
/// — the same entities, with the same properties in the same order, each
/// value bit-identical except where a repeat was suppressed as IEEE-equal.
pub proof fn lemma_semantic_round_trip(s0: EngineV, rs: Seq<RecordV>)
    requires
        engine_wf(s0),
        s0.entities.len() == 0,
    ensures
        forall|id: u64| #[trigger] abs_state(run_outputs(s0, rs)).dom().contains(id)
            <==> abs_state(rs).dom().contains(id),
        forall|id: u64| #[trigger] abs_state(rs).dom().contains(id) ==> props_equiv(
            abs_state(run_outputs(s0, rs))[id],
            abs_state(rs)[id],
        ),
{
    lemma_round_trip_inv(s0, rs);
    assert forall|id: u64| #[trigger] abs_state(run_outputs(s0, rs)).dom().contains(id)
        <==> abs_state(rs).dom().contains(id) by {
        assert(round_trip_at(run_state(s0, rs), run_outputs(s0, rs), rs, id));
    }
    assert forall|id: u64| #[trigger] abs_state(rs).dom().contains(id) implies props_equiv(
        abs_state(run_outputs(s0, rs))[id],
        abs_state(rs)[id],
    ) by {
        assert(round_trip_at(run_state(s0, rs), run_outputs(s0, rs), rs, id));
    }
}

} // verus!
