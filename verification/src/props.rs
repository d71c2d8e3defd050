//! Tag-keyed property lists.
//!
//! An entity's committed state and every update's property list are sequences
//! of properties in which tags are pairwise distinct ([`props_wf`]). The
//! operations here are the ones the diff engine composes: collapsing duplicate
//! tags ([`dedup_props`], later occurrence wins, first position kept), finding
//! a tag ([`index_of_tag`]), computing the minimal changed set against
//! committed state ([`changed_props`]) and merging a changed set back in
//! ([`merge_props`]).

use vstd::prelude::*;
use vstd::pervasive::VecAdditionalExecFns;

use crate::model::Coords;
use crate::model::Property;
use crate::model::PropertyV;
use crate::model::TagV;
use crate::model::coords_delta;
use crate::model::coords_delta_exec;
use crate::model::coords_is_empty;
use crate::model::coords_is_empty_exec;
use crate::model::coords_merge;
use crate::model::coords_merge_exec;
use crate::model::dup_prop;
use crate::model::dup_props;
use crate::model::prop_eqv;
use crate::model::prop_eqv_exec;
use crate::model::props_view;
use crate::model::same_tag;
use crate::model::tag_of;

verus! {

/// Tags are pairwise distinct.
pub open spec fn props_wf(ps: Seq<PropertyV>) -> bool {
    forall|i: int, j: int| 0 <= i < j < ps.len() ==> tag_of(ps[i]) != tag_of(ps[j])
}

/// Index of the first property with tag `t`, if any.
pub open spec fn index_of_tag(ps: Seq<PropertyV>, t: TagV) -> Option<int>
    decreases ps.len(),
{
    if ps.len() == 0 {
        Option::None
    } else if tag_of(ps[0]) == t {
        Option::Some(0)
    } else {
        match index_of_tag(ps.skip(1), t) {
            Option::Some(i) => Option::Some(i + 1),
            Option::None => Option::None,
        }
    }
}

/// What [`index_of_tag`] returns: the first position carrying the tag, or
/// nothing when no position does.
pub proof fn lemma_index_of_tag_props(ps: Seq<PropertyV>, t: TagV)
    ensures
        match index_of_tag(ps, t) {
            Option::Some(i) => 0 <= i < ps.len() && tag_of(ps[i]) == t && (forall|j: int|
                0 <= j < i ==> tag_of(ps[j]) != t),
            Option::None => forall|j: int| 0 <= j < ps.len() ==> tag_of(ps[j]) != t,
        },
    decreases ps.len(),
{
    if ps.len() == 0 {
    } else if tag_of(ps[0]) == t {
    } else {
        lemma_index_of_tag_props(ps.skip(1), t);
        assert forall|j: int| 1 <= j < ps.len() implies ps.skip(1)[j - 1] == ps[j] by {}
    }
}

/// A position carrying the tag, with none before it, is what
/// [`index_of_tag`] returns.
pub proof fn lemma_index_of_tag_at(ps: Seq<PropertyV>, t: TagV, i: int)
    requires
        0 <= i < ps.len(),
        tag_of(ps[i]) == t,
        forall|j: int| 0 <= j < i ==> tag_of(ps[j]) != t,
    ensures
        index_of_tag(ps, t) == Option::<int>::Some(i),
    decreases ps.len(),
{
    if i == 0 {
    } else {
        assert forall|j: int| 0 <= j < ps.len() - 1 implies ps.skip(1)[j] == ps[j + 1] by {}
        lemma_index_of_tag_at(ps.skip(1), t, i - 1);
    }
}

/// When no position carries the tag, [`index_of_tag`] returns nothing.
pub proof fn lemma_index_of_tag_none(ps: Seq<PropertyV>, t: TagV)
    requires
        forall|j: int| 0 <= j < ps.len() ==> tag_of(ps[j]) != t,
    ensures
        index_of_tag(ps, t) is None,
    decreases ps.len(),
{
    if ps.len() == 0 {
    } else {
        assert forall|j: int| 0 <= j < ps.len() - 1 implies ps.skip(1)[j] == ps[j + 1] by {}
        lemma_index_of_tag_none(ps.skip(1), t);
    }
}

/// Runtime search for the tag of `p` in `ps`.
pub fn find_tag_idx(ps: &Vec<Property>, p: &Property) -> (r: Option<usize>)
    ensures
        match r {
            Option::Some(k) => index_of_tag(props_view(ps@), tag_of(p@)) == Option::<int>::Some(
                k as int,
            ),
            Option::None => index_of_tag(props_view(ps@), tag_of(p@)) is None,
        },
{
    let n = ps.len();
    let mut i: usize = 0;
    while i < n
        invariant
            n == ps.len(),
            i <= n,
            forall|j: int| 0 <= j < i ==> tag_of(props_view(ps@)[j]) != tag_of(p@),
        decreases n - i,
    {
        if same_tag(&ps[i], p) {
            proof {
                assert(props_view(ps@)[i as int] == ps@[i as int]@);
                lemma_index_of_tag_at(props_view(ps@), tag_of(p@), i as int);
            }
            return Option::Some(i);
        }
        proof {
            assert(props_view(ps@)[i as int] == ps@[i as int]@);
        }
        i += 1;
    }
    proof {
        lemma_index_of_tag_none(props_view(ps@), tag_of(p@));
    }
    Option::None
}

// ------------------------------------------------------------------
// Collapsing duplicate tags
// ------------------------------------------------------------------

/// Fold one property into a list already free of duplicate tags: replace the
/// value at its tag's position, or append a new tag at the end.
pub open spec fn dedup_push(acc: Seq<PropertyV>, p: PropertyV) -> Seq<PropertyV> {
    match index_of_tag(acc, tag_of(p)) {
        Option::Some(i) => acc.update(i, p),
        Option::None => acc.push(p),
    }
}

/// Collapse duplicate tags: the later occurrence's value wins, the first
/// occurrence's position is kept.
pub open spec fn dedup_props(ps: Seq<PropertyV>) -> Seq<PropertyV>
    decreases ps.len(),
{
    if ps.len() == 0 {
        Seq::empty()
    } else {
        dedup_push(dedup_props(ps.drop_last()), ps.last())
    }
}

/// Folding a property into a duplicate-free list keeps it duplicate-free.
pub proof fn lemma_dedup_push_wf(acc: Seq<PropertyV>, p: PropertyV)
    requires
        props_wf(acc),
    ensures
        props_wf(dedup_push(acc, p)),
{
    lemma_index_of_tag_props(acc, tag_of(p));
    match index_of_tag(acc, tag_of(p)) {
        Option::Some(i) => {
            let r = acc.update(i, p);
            assert forall|a: int, b: int| 0 <= a < b < r.len() implies tag_of(r[a]) != tag_of(
                r[b],
            ) by {
                assert(tag_of(r[i]) == tag_of(acc[i]));
            }
        },
        Option::None => {
            let r = acc.push(p);
            assert forall|a: int, b: int| 0 <= a < b < r.len() implies tag_of(r[a]) != tag_of(
                r[b],
            ) by {}
        },
    }
}

/// A collapsed list is free of duplicate tags.
pub proof fn lemma_dedup_wf(ps: Seq<PropertyV>)
    ensures
        props_wf(dedup_props(ps)),
    decreases ps.len(),
{
    if ps.len() == 0 {
    } else {
        lemma_dedup_wf(ps.drop_last());
        lemma_dedup_push_wf(dedup_props(ps.drop_last()), ps.last());
    }
}

/// Runtime computation of [`dedup_props`].
pub fn dedup_exec(props: &Vec<Property>) -> (r: Vec<Property>)
    ensures
        props_view(r@) == dedup_props(props_view(props@)),
        props_wf(props_view(r@)),
{
    let ghost pv = props_view(props@);
    let mut r: Vec<Property> = Vec::new();
    let n = props.len();
    let mut i: usize = 0;
    while i < n
        invariant
            n == props.len(),
            i <= n,
            pv == props_view(props@),
            props_view(r@) == dedup_props(pv.take(i as int)),
        decreases n - i,
    {
        let p = dup_prop(&props[i]);
        proof {
            assert(pv.take(i + 1).drop_last() =~= pv.take(i as int));
            assert(pv.take(i + 1).last() == pv[i as int]);
            assert(pv[i as int] == props@[i as int]@);
        }
        match find_tag_idx(&r, &p) {
            Option::Some(k) => {
                proof {
                    lemma_index_of_tag_props(props_view(r@), tag_of(p@));
                }
                r.set(k, p);
                proof {
                    assert(props_view(r@) =~= dedup_props(pv.take(i as int)).update(
                        k as int,
                        pv[i as int],
                    ));
                }
            },
            Option::None => {
                r.push(p);
                proof {
                    assert(props_view(r@) =~= dedup_props(pv.take(i as int)).push(pv[i as int]));
                }
            },
        }
        i += 1;
    }
    proof {
        assert(pv.take(n as int) =~= pv);
        lemma_dedup_wf(pv);
    }
    r
}

// ------------------------------------------------------------------
// The changed set
// ------------------------------------------------------------------

/// What an incoming property contributes against committed state: itself for
/// a tag not yet committed; its coordinate diff, when non-empty, for the
/// coordinate tag; itself when its whole value differs; nothing otherwise.
pub open spec fn changed_keep(stored: Seq<PropertyV>, p: PropertyV) -> Option<PropertyV> {
    match index_of_tag(stored, tag_of(p)) {
        Option::None => Option::Some(p),
        Option::Some(i) => match (p, stored[i]) {
            (PropertyV::T(c), PropertyV::T(prev)) => {
                let d = coords_delta(prev, c);
                if coords_is_empty(d) {
                    Option::None
                } else {
                    Option::Some(PropertyV::T(d))
                }
            },
            _ => if prop_eqv(p, stored[i]) {
                Option::None
            } else {
                Option::Some(p)
            },
        },
    }
}

/// The minimal changed set of an incoming (duplicate-free) property list
/// against committed state, in the incoming order.
pub open spec fn changed_props(stored: Seq<PropertyV>, new: Seq<PropertyV>) -> Seq<PropertyV>
    decreases new.len(),
{
    if new.len() == 0 {
        Seq::empty()
    } else {
        let rest = changed_props(stored, new.drop_last());
        match changed_keep(stored, new.last()) {
            Option::Some(q) => rest.push(q),
            Option::None => rest,
        }
    }
}

/// Runtime computation of [`changed_props`].
pub fn changed_exec(stored: &Vec<Property>, new: &Vec<Property>) -> (r: Vec<Property>)
    ensures
        props_view(r@) == changed_props(props_view(stored@), props_view(new@)),
{
    let ghost sv = props_view(stored@);
    let ghost nv = props_view(new@);
    let mut r: Vec<Property> = Vec::new();
    let n = new.len();
    let mut i: usize = 0;
    while i < n
        invariant
            n == new.len(),
            sv == props_view(stored@),
            nv == props_view(new@),
            i <= n,
            props_view(r@) == changed_props(sv, nv.take(i as int)),
        decreases n - i,
    {
        let p = &new[i];
        proof {
            assert(nv.take(i + 1).drop_last() =~= nv.take(i as int));
            assert(nv.take(i + 1).last() == nv[i as int]);
            assert(nv[i as int] == new@[i as int]@);
        }
        match find_tag_idx(stored, p) {
            Option::None => {
                r.push(dup_prop(p));
                proof {
                    assert(props_view(r@) =~= changed_props(sv, nv.take(i as int)).push(
                        nv[i as int],
                    ));
                }
            },
            Option::Some(k) => {
                proof {
                    lemma_index_of_tag_props(sv, tag_of(nv[i as int]));
                    assert(sv[k as int] == stored@[k as int]@);
                }
                match (p, &stored[k]) {
                    (Property::T(c), Property::T(prev)) => {
                        let d = coords_delta_exec(prev, c);
                        if !coords_is_empty_exec(&d) {
                            r.push(Property::T(d));
                            proof {
                                assert(props_view(r@) =~= changed_props(sv, nv.take(i as int)).push(
                                    PropertyV::T(d),
                                ));
                            }
                        }
                    },
                    _ => {
                        if !prop_eqv_exec(p, &stored[k]) {
                            r.push(dup_prop(p));
                            proof {
                                assert(props_view(r@) =~= changed_props(sv, nv.take(i as int)).push(
                                    nv[i as int],
                                ));
                            }
                        }
                    },
                }
            },
        }
        i += 1;
    }
    proof {
        assert(nv.take(n as int) =~= nv);
    }
    r
}

// ------------------------------------------------------------------
// Merging a changed set into committed state
// ------------------------------------------------------------------

/// Merge one changed property into committed state: coordinates accumulate
/// field-wise, other values replace, new tags append.
pub open spec fn merge_one(s: Seq<PropertyV>, p: PropertyV) -> Seq<PropertyV> {
    match index_of_tag(s, tag_of(p)) {
        Option::Some(i) => match (p, s[i]) {
            (PropertyV::T(c), PropertyV::T(prev)) => s.update(i, PropertyV::T(coords_merge(prev, c))),
            _ => s.update(i, p),
        },
        Option::None => s.push(p),
    }
}

/// Merge a changed set into committed state, left to right.
pub open spec fn merge_props(s: Seq<PropertyV>, ch: Seq<PropertyV>) -> Seq<PropertyV>
    decreases ch.len(),
{
    if ch.len() == 0 {
        s
    } else {
        merge_one(merge_props(s, ch.drop_last()), ch.last())
    }
}

/// Merging one property into a duplicate-free list keeps it duplicate-free.
pub proof fn lemma_merge_one_wf(s: Seq<PropertyV>, p: PropertyV)
    requires
        props_wf(s),
    ensures
        props_wf(merge_one(s, p)),
{
    lemma_index_of_tag_props(s, tag_of(p));
    match index_of_tag(s, tag_of(p)) {
        Option::Some(i) => {
            let r = merge_one(s, p);
            assert(tag_of(r[i]) == tag_of(s[i]));
            assert forall|a: int, b: int| 0 <= a < b < r.len() implies tag_of(r[a]) != tag_of(
                r[b],
            ) by {}
        },
        Option::None => {
            let r = s.push(p);
            assert forall|a: int, b: int| 0 <= a < b < r.len() implies tag_of(r[a]) != tag_of(
                r[b],
            ) by {}
        },
    }
}

/// Merging a changed set into a duplicate-free list keeps it duplicate-free.
pub proof fn lemma_merge_wf(s: Seq<PropertyV>, ch: Seq<PropertyV>)
    requires
        props_wf(s),
    ensures
        props_wf(merge_props(s, ch)),
    decreases ch.len(),
{
    if ch.len() == 0 {
    } else {
        lemma_merge_wf(s, ch.drop_last());
        lemma_merge_one_wf(merge_props(s, ch.drop_last()), ch.last());
    }
}

/// Runtime computation of [`merge_props`].
pub fn merge_exec(stored: &Vec<Property>, ch: &Vec<Property>) -> (r: Vec<Property>)
    ensures
        props_view(r@) == merge_props(props_view(stored@), props_view(ch@)),
{
    let ghost sv = props_view(stored@);
    let ghost cv = props_view(ch@);
    let mut r: Vec<Property> = dup_props(stored);
    let n = ch.len();
    let mut i: usize = 0;
    while i < n
        invariant
            n == ch.len(),
            sv == props_view(stored@),
            cv == props_view(ch@),
            i <= n,
            props_view(r@) == merge_props(sv, cv.take(i as int)),
        decreases n - i,
    {
        let p = &ch[i];
        proof {
            assert(cv.take(i + 1).drop_last() =~= cv.take(i as int));
            assert(cv.take(i + 1).last() == cv[i as int]);
            assert(cv[i as int] == ch@[i as int]@);
        }
        match find_tag_idx(&r, p) {
            Option::Some(k) => {
                proof {
                    lemma_index_of_tag_props(props_view(r@), tag_of(p@));
                    assert(props_view(r@)[k as int] == r@[k as int]@);
                }
                let merged: Option<Coords> = match (p, &r[k]) {
                    (Property::T(c), Property::T(prev)) => Option::Some(
                        coords_merge_exec(prev, c),
                    ),
                    _ => Option::None,
                };
                match merged {
                    Option::Some(mc) => {
                        r.set(k, Property::T(mc));
                        proof {
                            assert(props_view(r@) =~= merge_one(
                                merge_props(sv, cv.take(i as int)),
                                cv[i as int],
                            ));
                        }
                    },
                    Option::None => {
                        r.set(k, dup_prop(p));
                        proof {
                            assert(props_view(r@) =~= merge_one(
                                merge_props(sv, cv.take(i as int)),
                                cv[i as int],
                            ));
                        }
                    },
                }
            },
            Option::None => {
                r.push(dup_prop(p));
                proof {
                    assert(props_view(r@) =~= merge_one(
                        merge_props(sv, cv.take(i as int)),
                        cv[i as int],
                    ));
                }
            },
        }
        i += 1;
    }
    proof {
        assert(cv.take(n as int) =~= cv);
    }
    r
}

// ------------------------------------------------------------------
// Structural facts used by the round-trip argument
// ------------------------------------------------------------------

/// Some position carries the tag.
pub open spec fn has_tag(ps: Seq<PropertyV>, t: TagV) -> bool {
    index_of_tag(ps, t) is Some
}

/// Searching depends only on the sequence of tags.
pub proof fn lemma_index_same_tags(a: Seq<PropertyV>, b: Seq<PropertyV>, t: TagV)
    requires
        a.len() == b.len(),
        forall|k: int| 0 <= k < a.len() ==> tag_of(#[trigger] a[k]) == tag_of(b[k]),
    ensures
        index_of_tag(a, t) == index_of_tag(b, t),
    decreases a.len(),
{
    if a.len() == 0 {
    } else {
        assert forall|k: int| 0 <= k < a.len() - 1 implies tag_of(#[trigger] a.skip(1)[k])
            == tag_of(b.skip(1)[k]) by {
            assert(a.skip(1)[k] == a[k + 1]);
            assert(b.skip(1)[k] == b[k + 1]);
        }
        lemma_index_same_tags(a.skip(1), b.skip(1), t);
    }
}

/// Collapsing duplicate tags does nothing to a list already free of them.
pub proof fn lemma_dedup_of_wf(ps: Seq<PropertyV>)
    requires
        props_wf(ps),
    ensures
        dedup_props(ps) == ps,
    decreases ps.len(),
{
    if ps.len() == 0 {
        assert(dedup_props(ps) =~= ps);
    } else {
        assert(props_wf(ps.drop_last()));
        lemma_dedup_of_wf(ps.drop_last());
        assert forall|j: int| 0 <= j < ps.len() - 1 implies tag_of(ps.drop_last()[j]) != tag_of(
            ps.last(),
        ) by {
            assert(ps.drop_last()[j] == ps[j]);
        }
        lemma_index_of_tag_none(ps.drop_last(), tag_of(ps.last()));
        assert(dedup_props(ps) =~= ps);
    }
}

/// The changed set of a duplicate-free update is duplicate-free, and every
/// tag it carries comes from the update.
pub proof fn lemma_changed_tags(stored: Seq<PropertyV>, new: Seq<PropertyV>)
    requires
        props_wf(new),
    ensures
        props_wf(changed_props(stored, new)),
        forall|k: int|
            0 <= k < changed_props(stored, new).len() ==> has_tag(
                new,
                tag_of(#[trigger] changed_props(stored, new)[k]),
            ),
    decreases new.len(),
{
    if new.len() == 0 {
    } else {
        assert(props_wf(new.drop_last()));
        lemma_changed_tags(stored, new.drop_last());
        let rest = changed_props(stored, new.drop_last());
        let p = new.last();
        assert forall|k: int| 0 <= k < rest.len() implies has_tag(
            new,
            tag_of(#[trigger] rest[k]),
        ) by {
            lemma_index_of_tag_props(new.drop_last(), tag_of(rest[k]));
            let j = index_of_tag(new.drop_last(), tag_of(rest[k])).unwrap();
            assert(new.drop_last()[j] == new[j]);
            lemma_index_of_tag_props(new, tag_of(rest[k]));
        }
        match changed_keep(stored, p) {
            Option::Some(q) => {
                assert(tag_of(q) == tag_of(p)) by {
                    lemma_index_of_tag_props(stored, tag_of(p));
                    match index_of_tag(stored, tag_of(p)) {
                        Option::Some(i) => {
                            match (p, stored[i]) {
                                (PropertyV::T(c), PropertyV::T(prev)) => {},
                                _ => {},
                            }
                        },
                        Option::None => {},
                    }
                }
                assert(has_tag(new, tag_of(q))) by {
                    lemma_index_of_tag_props(new, tag_of(q));
                    if index_of_tag(new, tag_of(q)) is None {
                        assert(tag_of(new[new.len() - 1]) != tag_of(q));
                    }
                }
                assert forall|k: int| 0 <= k < rest.len() implies tag_of(#[trigger] rest[k])
                    != tag_of(q) by {
                    lemma_index_of_tag_props(new.drop_last(), tag_of(rest[k]));
                    let j = index_of_tag(new.drop_last(), tag_of(rest[k])).unwrap();
                    assert(new.drop_last()[j] == new[j]);
                    assert(tag_of(new[j]) != tag_of(new[new.len() - 1]));
                }
                let out = rest.push(q);
                assert forall|a: int, b: int| 0 <= a < b < out.len() implies tag_of(out[a])
                    != tag_of(out[b]) by {}
            },
            Option::None => {},
        }
    }
}

/// Merging a changed set that avoids a tag leaves that tag's position and
/// value alone, and introduces the tag nowhere.
pub proof fn lemma_merge_untouched(s: Seq<PropertyV>, ch: Seq<PropertyV>, t: TagV)
    requires
        forall|k: int| 0 <= k < ch.len() ==> tag_of(#[trigger] ch[k]) != t,
    ensures
        index_of_tag(merge_props(s, ch), t) == index_of_tag(s, t),
        index_of_tag(s, t) matches Some(i) ==> merge_props(s, ch)[i] == s[i],
    decreases ch.len(),
{
    if ch.len() == 0 {
    } else {
        assert forall|k: int| 0 <= k < ch.len() - 1 implies tag_of(#[trigger] ch.drop_last()[k])
            != t by {
            assert(ch.drop_last()[k] == ch[k]);
        }
        lemma_merge_untouched(s, ch.drop_last(), t);
        let m = merge_props(s, ch.drop_last());
        let p = ch.last();
        lemma_index_of_tag_props(m, tag_of(p));
        match index_of_tag(m, tag_of(p)) {
            Option::Some(j) => {
                let q = match (p, m[j]) {
                    (PropertyV::T(c), PropertyV::T(prev)) => PropertyV::T(coords_merge(prev, c)),
                    _ => p,
                };
                assert(merge_one(m, p) == m.update(j, q));
                assert(tag_of(q) == tag_of(m[j])) by {
                    match (p, m[j]) {
                        (PropertyV::T(c), PropertyV::T(prev)) => {},
                        _ => {},
                    }
                }
                assert forall|k: int| 0 <= k < m.len() implies tag_of(
                    #[trigger] m.update(j, q)[k],
                ) == tag_of(m[k]) by {}
                lemma_index_same_tags(m.update(j, q), m, t);
                match index_of_tag(s, t) {
                    Option::Some(i) => {
                        lemma_index_of_tag_props(m, t);
                        assert(tag_of(m[i]) == t);
                        assert(i != j);
                        assert(m.update(j, q)[i] == m[i]);
                    },
                    Option::None => {},
                }
            },
            Option::None => {
                let out = m.push(p);
                match index_of_tag(m, t) {
                    Option::Some(i) => {
                        lemma_index_of_tag_props(m, t);
                        assert(out[i] == m[i]);
                        assert forall|k: int| 0 <= k < i implies tag_of(out[k]) != t by {
                            assert(out[k] == m[k]);
                        }
                        lemma_index_of_tag_at(out, t, i);
                    },
                    Option::None => {
                        lemma_index_of_tag_props(m, t);
                        assert forall|k: int| 0 <= k < out.len() implies tag_of(out[k]) != t by {
                            if k < m.len() {
                                assert(out[k] == m[k]);
                            }
                        }
                        lemma_index_of_tag_none(out, t);
                    },
                }
            },
        }
    }
}

} // verus!
