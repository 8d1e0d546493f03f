//! One-shot dependency propagation over a batch of objects (the object
//! update pass of the submit pipeline).
//!
//! The objects of a submit travel as an insertion-ordered map from object id
//! to an optional object (a deleted object maps to nothing).  For each
//! dependency edge, the referenced datum is read from the `other` object and
//! copied into the owner's result slot.  A dangling edge — its other end
//! missing or deleted — contributes no value; instead the owner's reference
//! at that position is cleared to a tombstone, never removed, so positions
//! stay stable.

use vstd::prelude::*;

use crate::msg::{
    AxisAlignedBBoxMsg, LineMsg, ObjectMsg, ObjectView, OptionPoint3Msg, OptionLineMsg,
    OptionPlaneMsg, PlaneMsg, Point3Msg, RefIdMsg, RefIdView, ReferenceMsg, ReferenceView,
};

verus! {

/// The tag for a drawable datum.
pub const REF_TYPE_DRAWABLE: i32 = 0;

/// The tag for an object's existence.
pub const REF_TYPE_EXISTENCE: i32 = 1;

/// The tag for an axis-aligned bounding box.
pub const REF_TYPE_AXIS_ALIGNED_BBOX: i32 = 2;

/// The tag for a profile point.
pub const REF_TYPE_PROFILE_POINT: i32 = 3;

/// The tag for a profile line.
pub const REF_TYPE_PROFILE_LINE: i32 = 4;

/// The tag for a profile plane.
pub const REF_TYPE_PROFILE_PLANE: i32 = 5;

/// The tag for the property tree.
pub const REF_TYPE_PROPERTY: i32 = 6;

/// The tag for no datum at all.
pub const REF_TYPE_EMPTY: i32 = 7;

/// One referable datum, as read from an object's results.
#[derive(Debug)]
pub enum RefResultMsg {
    Empty,
    Point(Point3Msg),
    Line(LineMsg),
    Plane(PlaneMsg),
    BBox(AxisAlignedBBoxMsg),
    Property(String),
}

/// Mathematical view of a referable datum.
pub ghost enum RefResultView {
    Empty,
    Point(Point3Msg),
    Line(LineMsg),
    Plane(PlaneMsg),
    BBox(AxisAlignedBBoxMsg),
    Property(Seq<char>),
}

impl View for RefResultMsg {
    type V = RefResultView;

    open spec fn view(&self) -> RefResultView {
        match self {
            RefResultMsg::Empty => RefResultView::Empty,
            RefResultMsg::Point(p) => RefResultView::Point(*p),
            RefResultMsg::Line(l) => RefResultView::Line(*l),
            RefResultMsg::Plane(p) => RefResultView::Plane(*p),
            RefResultMsg::BBox(b) => RefResultView::BBox(*b),
            RefResultMsg::Property(s) => RefResultView::Property(s@),
        }
    }
}

impl DeepView for RefResultMsg {
    type V = RefResultView;

    open spec fn deep_view(&self) -> RefResultView {
        self.view()
    }
}

/// The datum of kind `ref_type` at `index` on an object, if defined.
pub open spec fn result_of(obj: ObjectView, ref_type: i32, index: u64) -> Option<RefResultView> {
    if ref_type == REF_TYPE_DRAWABLE || ref_type == REF_TYPE_EXISTENCE {
        Some(RefResultView::Empty)
    } else if ref_type == REF_TYPE_PROFILE_POINT {
        match obj.results {
            Some(results) => match results.profile {
                Some(profile) => {
                    if index < profile.points.len() && profile.points[index as int].pt is Some {
                        Some(RefResultView::Point(profile.points[index as int].pt.unwrap()))
                    } else {
                        None
                    }
                },
                None => None,
            },
            None => None,
        }
    } else if ref_type == REF_TYPE_PROFILE_LINE {
        match obj.results {
            Some(results) => match results.profile {
                Some(profile) => {
                    if index < profile.lines.len() && profile.lines[index as int].line is Some {
                        Some(RefResultView::Line(profile.lines[index as int].line.unwrap()))
                    } else {
                        None
                    }
                },
                None => None,
            },
            None => None,
        }
    } else if ref_type == REF_TYPE_PROFILE_PLANE {
        match obj.results {
            Some(results) => match results.profile {
                Some(profile) => {
                    if index < profile.planes.len() && profile.planes[index as int].plane is Some {
                        Some(RefResultView::Plane(profile.planes[index as int].plane.unwrap()))
                    } else {
                        None
                    }
                },
                None => None,
            },
            None => None,
        }
    } else if ref_type == REF_TYPE_AXIS_ALIGNED_BBOX {
        match obj.results {
            Some(results) => match results.bbox {
                Some(bbox) => Some(RefResultView::BBox(bbox)),
                None => None,
            },
            None => None,
        }
    } else if ref_type == REF_TYPE_PROPERTY {
        match obj.results {
            Some(results) => match results.properties {
                Some(prop) => Some(RefResultView::Property(prop)),
                None => None,
            },
            None => None,
        }
    } else {
        None
    }
}

/// An object after one datum lands in (or is cleared from) a result slot.
/// With a value, the slot of the matching kind and index takes it; without
/// one, every dependency slot owned by `(ref_type, index)` becomes a
/// tombstone.  Everything else is untouched.
pub open spec fn apply_result(
    obj: ObjectView,
    ref_type: i32,
    index: u64,
    result: Option<RefResultView>,
) -> ObjectView {
    match result {
        Some(RefResultView::Point(p)) => {
            if ref_type == REF_TYPE_PROFILE_POINT {
                set_profile_point(obj, index, p)
            } else {
                obj
            }
        },
        Some(RefResultView::Line(l)) => {
            if ref_type == REF_TYPE_PROFILE_LINE {
                set_profile_line(obj, index, l)
            } else {
                obj
            }
        },
        Some(RefResultView::Plane(p)) => {
            if ref_type == REF_TYPE_PROFILE_PLANE {
                set_profile_plane(obj, index, p)
            } else {
                obj
            }
        },
        Some(RefResultView::BBox(b)) => {
            if ref_type == REF_TYPE_AXIS_ALIGNED_BBOX {
                set_bbox(obj, b)
            } else {
                obj
            }
        },
        Some(RefResultView::Empty) => obj,
        Some(RefResultView::Property(_)) => obj,
        None => clear_owned_slots(obj, ref_type, index),
    }
}

/// The object with its profile point at `index` replaced, when the slot
/// exists.
pub open spec fn set_profile_point(obj: ObjectView, index: u64, p: Point3Msg) -> ObjectView {
    match obj.results {
        Some(results) => match results.profile {
            Some(profile) => {
                if index < profile.points.len() {
                    ObjectView {
                        results: Some(
                            crate::msg::ResultsView {
                                profile: Some(
                                    crate::msg::ProfileView {
                                        points: profile.points.update(
                                            index as int,
                                            OptionPoint3Msg { pt: Some(p) },
                                        ),
                                        ..profile
                                    },
                                ),
                                ..results
                            },
                        ),
                        ..obj
                    }
                } else {
                    obj
                }
            },
            None => obj,
        },
        None => obj,
    }
}

/// The object with its profile line at `index` replaced, when the slot
/// exists.
pub open spec fn set_profile_line(obj: ObjectView, index: u64, l: LineMsg) -> ObjectView {
    match obj.results {
        Some(results) => match results.profile {
            Some(profile) => {
                if index < profile.lines.len() {
                    ObjectView {
                        results: Some(
                            crate::msg::ResultsView {
                                profile: Some(
                                    crate::msg::ProfileView {
                                        lines: profile.lines.update(
                                            index as int,
                                            OptionLineMsg { line: Some(l) },
                                        ),
                                        ..profile
                                    },
                                ),
                                ..results
                            },
                        ),
                        ..obj
                    }
                } else {
                    obj
                }
            },
            None => obj,
        },
        None => obj,
    }
}

/// The object with its profile plane at `index` replaced, when the slot
/// exists.
pub open spec fn set_profile_plane(obj: ObjectView, index: u64, p: PlaneMsg) -> ObjectView {
    match obj.results {
        Some(results) => match results.profile {
            Some(profile) => {
                if index < profile.planes.len() {
                    ObjectView {
                        results: Some(
                            crate::msg::ResultsView {
                                profile: Some(
                                    crate::msg::ProfileView {
                                        planes: profile.planes.update(
                                            index as int,
                                            OptionPlaneMsg { plane: Some(p) },
                                        ),
                                        ..profile
                                    },
                                ),
                                ..results
                            },
                        ),
                        ..obj
                    }
                } else {
                    obj
                }
            },
            None => obj,
        },
        None => obj,
    }
}

/// The object with its bounding box replaced, when it has results.
pub open spec fn set_bbox(obj: ObjectView, b: AxisAlignedBBoxMsg) -> ObjectView {
    match obj.results {
        Some(results) => ObjectView {
            results: Some(crate::msg::ResultsView { bbox: Some(b), ..results }),
            ..obj
        },
        None => obj,
    }
}

/// The object with every dependency slot owned by `(ref_type, index)` turned
/// into a tombstone: the dangling prune.  Slot positions and count are kept.
pub open spec fn clear_owned_slots(obj: ObjectView, ref_type: i32, index: u64) -> ObjectView {
    match obj.dependencies {
        Some(deps) => ObjectView {
            dependencies: Some(
                Seq::new(
                    deps.len(),
                    |i: int|
                        if slot_owned_by(deps[i], ref_type, index) {
                            None
                        } else {
                            deps[i]
                        },
                ),
            ),
            ..obj
        },
        None => obj,
    }
}

/// Whether a dependency slot's owner end names `(ref_type, index)`.
pub open spec fn slot_owned_by(slot: Option<ReferenceView>, ref_type: i32, index: u64) -> bool {
    match slot {
        Some(r) => match r.owner {
            Some(owner) => owner.ref_type == ref_type && owner.index == index,
            None => false,
        },
        None => false,
    }
}


/// The first map entry keyed `k` stands at `j`.
pub open spec fn first_key_match(
    m: Seq<(Seq<char>, Option<ObjectView>)>,
    k: Seq<char>,
    j: int,
) -> bool {
    &&& 0 <= j < m.len()
    &&& m[j].0 == k
    &&& forall|w: int| 0 <= w < j ==> m[w].0 != k
}

/// The value under `k` in the insertion-ordered object map: present or not,
/// and possibly a deleted object (nothing).
pub open spec fn map_lookup(
    m: Seq<(Seq<char>, Option<ObjectView>)>,
    k: Seq<char>,
) -> Option<Option<ObjectView>> {
    if exists|j: int| first_key_match(m, k, j) {
        Some(m[choose|j: int| first_key_match(m, k, j)].1)
    } else {
        None
    }
}

/// The datum a reference's other end supplies, read from the map.
pub open spec fn ref_result_spec(
    m: Seq<(Seq<char>, Option<ObjectView>)>,
    rid: RefIdView,
) -> Option<RefResultView> {
    match map_lookup(m, rid.id) {
        Some(Some(obj)) => result_of(obj, rid.ref_type, rid.index),
        _ => None,
    }
}

/// The map after one reference propagates: the other end's datum lands in
/// the owner's slot, or — dangling — prunes the owner's reference.  A self
/// reference or an absent endpoint changes nothing.
pub open spec fn apply_reference(
    m: Seq<(Seq<char>, Option<ObjectView>)>,
    refv: ReferenceView,
) -> Seq<(Seq<char>, Option<ObjectView>)> {
    match (refv.owner, refv.other) {
        (Some(owner), Some(other)) => {
            if owner.id == other.id {
                m
            } else {
                let result = ref_result_spec(m, other);
                if exists|j: int| first_key_match(m, owner.id, j) {
                    let j = choose|j: int| first_key_match(m, owner.id, j);
                    match m[j].1 {
                        Some(obj) => m.update(
                            j,
                            (m[j].0, Some(apply_result(obj, owner.ref_type, owner.index, result))),
                        ),
                        None => m,
                    }
                } else {
                    m
                }
            }
        },
        _ => m,
    }
}

/// The map after every reference propagates, in order, one pass.
pub open spec fn apply_references(
    m: Seq<(Seq<char>, Option<ObjectView>)>,
    refs: Seq<ReferenceView>,
) -> Seq<(Seq<char>, Option<ObjectView>)>
    decreases refs.len(),
{
    if refs.len() == 0 {
        m
    } else {
        apply_references(apply_reference(m, refs.first()), refs.drop_first())
    }
}

/// Finds the first map entry keyed by `id`.
fn map_find(objs: &Vec<(String, Option<ObjectMsg>)>, id: &String) -> (r: Option<usize>)
    ensures
        match r {
            Some(j) => first_key_match(objs.deep_view(), id@, j as int),
            None => forall|j: int| 0 <= j < objs.deep_view().len() ==> objs.deep_view()[j].0 != id@,
        },
{
    let mut j: usize = 0;
    while j < objs.len()
        invariant
            j <= objs.len(),
            forall|w: int| 0 <= w < j ==> objs.deep_view()[w].0 != id@,
        decreases objs.len() - j,
    {
        if objs[j].0 == *id {
            proof {
                assert(objs.deep_view()[j as int].0 == id@);
            }
            return Some(j);
        }
        j += 1;
    }
    None
}

/// Reads the datum of one referable id from the map.
pub fn get_ref_result(objs: &Vec<(String, Option<ObjectMsg>)>, index: &RefIdMsg) -> (r: Option<
    RefResultMsg,
>)
    ensures
        match r {
            Some(v) => ref_result_spec(objs.deep_view(), index@) == Some(v@),
            None => ref_result_spec(objs.deep_view(), index@) is None,
        },
{
    match map_find(objs, &index.id) {
        Some(j) => {
            proof {
                let w = choose|w: int| first_key_match(objs.deep_view(), index@.id, w);
                assert(w == j) by {
                    if w < j {
                        assert(objs.deep_view()[w].0 != index@.id);
                    } else if w > j {
                        assert(objs.deep_view()[j as int].0 != index@.id);
                    }
                }
            }
            match &objs[j].1 {
                Some(obj) => obj_result(obj, index.ref_type, index.index),
                None => None,
            }
        },
        None => None,
    }
}

/// Reads the datum of kind `ref_type` at `index` from one object's results.
pub fn obj_result(obj: &ObjectMsg, ref_type: i32, index: u64) -> (r: Option<RefResultMsg>)
    ensures
        match r {
            Some(v) => result_of(obj@, ref_type, index) == Some(v@),
            None => result_of(obj@, ref_type, index) is None,
        },
{
    if ref_type == REF_TYPE_DRAWABLE || ref_type == REF_TYPE_EXISTENCE {
        return Some(RefResultMsg::Empty);
    }
    if ref_type == REF_TYPE_PROFILE_POINT {
        if let Some(results) = &obj.results {
            if let Some(profile) = &results.profile {
                if index < profile.points.len() as u64 {
                    if let Some(pt) = &profile.points[index as usize].pt {
                        return Some(RefResultMsg::Point(*pt));
                    }
                }
            }
        }
        return None;
    }
    if ref_type == REF_TYPE_PROFILE_LINE {
        if let Some(results) = &obj.results {
            if let Some(profile) = &results.profile {
                if index < profile.lines.len() as u64 {
                    if let Some(line) = &profile.lines[index as usize].line {
                        return Some(RefResultMsg::Line(*line));
                    }
                }
            }
        }
        return None;
    }
    if ref_type == REF_TYPE_PROFILE_PLANE {
        if let Some(results) = &obj.results {
            if let Some(profile) = &results.profile {
                if index < profile.planes.len() as u64 {
                    if let Some(plane) = &profile.planes[index as usize].plane {
                        return Some(RefResultMsg::Plane(*plane));
                    }
                }
            }
        }
        return None;
    }
    if ref_type == REF_TYPE_AXIS_ALIGNED_BBOX {
        if let Some(results) = &obj.results {
            if let Some(bbox) = &results.bbox {
                return Some(RefResultMsg::BBox(*bbox));
            }
        }
        return None;
    }
    if ref_type == REF_TYPE_PROPERTY {
        if let Some(results) = &obj.results {
            if let Some(prop) = &results.properties {
                return Some(RefResultMsg::Property(prop.prop_json.clone()));
            }
        }
        return None;
    }
    None
}

/// Lands one datum in (or clears it from) one object's result slot; see
/// [`apply_result`].
pub fn set_associated_result(
    obj: &mut ObjectMsg,
    ref_type: i32,
    index: u64,
    result: Option<RefResultMsg>,
)
    ensures
        final(obj)@ == apply_result(old(obj)@, ref_type, index, result.deep_view()),
{
    match result {
        Some(RefResultMsg::Point(p)) => {
            if ref_type == REF_TYPE_PROFILE_POINT {
                if let Some(results) = &mut obj.results {
                    if let Some(profile) = &mut results.profile {
                        if index < profile.points.len() as u64 {
                            profile.points.set(index as usize, OptionPoint3Msg { pt: Some(p) });
                        }
                    }
                }
                proof {
                    assert(obj@ =~= apply_result(old(obj)@, ref_type, index, result.deep_view()));
                }
            }
        },
        Some(RefResultMsg::Line(l)) => {
            if ref_type == REF_TYPE_PROFILE_LINE {
                if let Some(results) = &mut obj.results {
                    if let Some(profile) = &mut results.profile {
                        if index < profile.lines.len() as u64 {
                            profile.lines.set(index as usize, OptionLineMsg { line: Some(l) });
                        }
                    }
                }
                proof {
                    assert(obj@ =~= apply_result(old(obj)@, ref_type, index, result.deep_view()));
                }
            }
        },
        Some(RefResultMsg::Plane(p)) => {
            if ref_type == REF_TYPE_PROFILE_PLANE {
                if let Some(results) = &mut obj.results {
                    if let Some(profile) = &mut results.profile {
                        if index < profile.planes.len() as u64 {
                            profile.planes.set(index as usize, OptionPlaneMsg { plane: Some(p) });
                        }
                    }
                }
                proof {
                    assert(obj@ =~= apply_result(old(obj)@, ref_type, index, result.deep_view()));
                }
            }
        },
        Some(RefResultMsg::BBox(b)) => {
            if ref_type == REF_TYPE_AXIS_ALIGNED_BBOX {
                if let Some(results) = &mut obj.results {
                    results.bbox = Some(b);
                }
                proof {
                    assert(obj@ =~= apply_result(old(obj)@, ref_type, index, result.deep_view()));
                }
            }
        },
        Some(RefResultMsg::Empty) => {},
        Some(RefResultMsg::Property(_)) => {},
        None => {
            if let Some(deps) = &mut obj.dependencies {
                let ghost pre = deps.references.deep_view();
                let mut k: usize = 0;
                while k < deps.references.len()
                    invariant
                        k <= deps.references.len(),
                        deps.references.deep_view().len() == pre.len(),
                        forall|w: int|
                            k <= w < pre.len() ==> deps.references.deep_view()[w] == pre[w],
                        forall|w: int|
                            0 <= w < k ==> deps.references.deep_view()[w] == (
                            if slot_owned_by(pre[w], ref_type, index) {
                                None
                            } else {
                                pre[w]
                            }),
                    decreases deps.references.len() - k,
                {
                    let ghost before = deps.references.deep_view();
                    let owned = match &deps.references[k].reference {
                        Some(r) => match &r.owner {
                            Some(owner) => owner.ref_type == ref_type && owner.index == index,
                            None => false,
                        },
                        None => false,
                    };
                    proof {
                        assert(owned == slot_owned_by(pre[k as int], ref_type, index));
                    }
                    if owned {
                        deps.references.set(
                            k,
                            crate::msg::OptionReferenceMsg { reference: None },
                        );
                        proof {
                            assert(deps.references.deep_view() =~= before.update(
                                k as int,
                                None,
                            ));
                        }
                    }
                    k += 1;
                }
            }
            proof {
                assert(obj@ =~= clear_owned_slots(old(obj)@, ref_type, index));
            }
        },
    }
}

/// Propagates one reference through the map; see [`apply_reference`].
pub fn update_reference(objs: &mut Vec<(String, Option<ObjectMsg>)>, refer: &ReferenceMsg)
    ensures
        final(objs).deep_view() == apply_reference(old(objs).deep_view(), refer@),
{
    let (owner, other) = match (&refer.owner, &refer.other) {
        (Some(owner), Some(other)) => (owner, other),
        _ => {
            return ;
        },
    };
    if owner.id == other.id {
        return ;
    }
    let result = get_ref_result(objs, other);
    let ghost pre = objs.deep_view();
    match map_find(objs, &owner.id) {
        Some(j) => {
            proof {
                let w = choose|w: int| first_key_match(pre, owner@.id, w);
                assert(w == j) by {
                    if w < j {
                        assert(pre[w].0 != owner@.id);
                    } else if w > j {
                        assert(pre[j as int].0 != owner@.id);
                    }
                }
            }
            let mut pair = objs.remove(j);
            match &mut pair.1 {
                Some(obj) => {
                    set_associated_result(obj, owner.ref_type, owner.index, result);
                    objs.insert(j, pair);
                    proof {
                        assert(objs.deep_view() =~= apply_reference(pre, refer@));
                    }
                },
                None => {
                    objs.insert(j, pair);
                    proof {
                        assert(objs.deep_view() =~= pre);
                        assert(objs.deep_view() =~= apply_reference(pre, refer@));
                    }
                },
            }
        },
        None => {
            proof {
                assert(objs.deep_view() =~= apply_reference(pre, refer@));
            }
        },
    }
}

/// Propagates every reference, in order, one pass; cycles are tolerated but
/// not chased to a fixed point.
pub fn update_all(objs: &mut Vec<(String, Option<ObjectMsg>)>, refs: &Vec<ReferenceMsg>)
    ensures
        final(objs).deep_view() == apply_references(old(objs).deep_view(), refs.deep_view()),
{
    let ghost target = apply_references(objs.deep_view(), refs.deep_view());
    let ghost rd = refs.deep_view();
    let mut i: usize = 0;
    proof {
        assert(rd.skip(0) =~= rd);
    }
    while i < refs.len()
        invariant
            i <= refs.len(),
            rd == refs.deep_view(),
            target == apply_references(objs.deep_view(), rd.skip(i as int)),
        decreases refs.len() - i,
    {
        proof {
            assert(rd.skip(i as int).first() == rd[i as int]);
            assert(rd.skip(i as int).drop_first() =~= rd.skip(i + 1));
        }
        update_reference(objs, &refs[i]);
        i += 1;
    }
    proof {
        assert(rd.skip(refs@.len() as int).len() == 0);
    }
}



/// Positional stability between two dependency lists: same length, and every
/// slot either keeps its binding or becomes a tombstone — an index once
/// bound is never rebound to something else in one propagation pass.
pub open spec fn deps_stable(
    before: Option<Seq<Option<ReferenceView>>>,
    after: Option<Seq<Option<ReferenceView>>>,
) -> bool {
    match (before, after) {
        (Some(b), Some(a)) => {
            &&& a.len() == b.len()
            &&& forall|i: int| 0 <= i < b.len() ==> (a[i] == b[i] || #[trigger] a[i] is None)
        },
        (None, None) => true,
        _ => false,
    }
}

/// One landed datum never disturbs an object's identity, payload, or the
/// positions of its dependency slots.
pub proof fn lemma_apply_result_stable(
    obj: ObjectView,
    ref_type: i32,
    index: u64,
    result: Option<RefResultView>,
)
    ensures
        ({
            let after = apply_result(obj, ref_type, index, result);
            &&& after.id == obj.id
            &&& after.obj_data == obj.obj_data
            &&& deps_stable(obj.dependencies, after.dependencies)
        }),
{
    let after = apply_result(obj, ref_type, index, result);
    match obj.dependencies {
        Some(b) => {
            assert(after.dependencies is Some);
        },
        None => {},
    }
}

/// One propagated reference keeps the map's keys, order and presence, and
/// leaves every object's identity, payload and slot positions stable.
pub proof fn lemma_apply_reference_stable(
    m: Seq<(Seq<char>, Option<ObjectView>)>,
    refv: ReferenceView,
)
    ensures
        ({
            let after = apply_reference(m, refv);
            &&& after.len() == m.len()
            &&& forall|k: int| 0 <= k < m.len() ==> (#[trigger] after[k]).0 == m[k].0
            &&& forall|k: int|
                0 <= k < m.len() ==> ((#[trigger] after[k]).1 is Some == m[k].1 is Some)
            &&& forall|k: int|
                0 <= k < m.len() && m[k].1 is Some ==> {
                    let before_obj = m[k].1.unwrap();
                    let after_obj = (#[trigger] after[k]).1.unwrap();
                    &&& after_obj.id == before_obj.id
                    &&& after_obj.obj_data == before_obj.obj_data
                    &&& deps_stable(before_obj.dependencies, after_obj.dependencies)
                }
        }),
{
    let after = apply_reference(m, refv);
    match (refv.owner, refv.other) {
        (Some(owner), Some(other)) => {
            if owner.id != other.id && (exists|j: int| first_key_match(m, owner.id, j)) {
                let j = choose|j: int| first_key_match(m, owner.id, j);
                match m[j].1 {
                    Some(obj) => {
                        lemma_apply_result_stable(
                            obj,
                            owner.ref_type,
                            owner.index,
                            ref_result_spec(m, other),
                        );
                        assert forall|k: int| 0 <= k < m.len() && m[k].1 is Some implies {
                            let before_obj = m[k].1.unwrap();
                            let after_obj = (#[trigger] after[k]).1.unwrap();
                            &&& after_obj.id == before_obj.id
                            &&& after_obj.obj_data == before_obj.obj_data
                            &&& deps_stable(before_obj.dependencies, after_obj.dependencies)
                        } by {
                            if k != j {
                                assert(after[k] == m[k]);
                            }
                        }
                    },
                    None => {},
                }
            }
        },
        _ => {},
    }
}

/// Positional stability composes across steps.
pub proof fn lemma_deps_stable_trans(
    a: Option<Seq<Option<ReferenceView>>>,
    b: Option<Seq<Option<ReferenceView>>>,
    c: Option<Seq<Option<ReferenceView>>>,
)
    requires
        deps_stable(a, b),
        deps_stable(b, c),
    ensures
        deps_stable(a, c),
{
}

/// Positional stability of the whole pass: propagation never changes the
/// batch's keys, order or presence, and no object's dependency list shrinks
/// or rebinds a slot — a once-bound index only ever keeps its binding or
/// turns into a tombstone.
pub proof fn lemma_update_preserves_positions(
    m: Seq<(Seq<char>, Option<ObjectView>)>,
    refs: Seq<ReferenceView>,
)
    ensures
        ({
            let after = apply_references(m, refs);
            &&& after.len() == m.len()
            &&& forall|k: int| 0 <= k < m.len() ==> (#[trigger] after[k]).0 == m[k].0
            &&& forall|k: int|
                0 <= k < m.len() ==> ((#[trigger] after[k]).1 is Some == m[k].1 is Some)
            &&& forall|k: int|
                0 <= k < m.len() && m[k].1 is Some ==> {
                    let before_obj = m[k].1.unwrap();
                    let after_obj = (#[trigger] after[k]).1.unwrap();
                    &&& after_obj.id == before_obj.id
                    &&& after_obj.obj_data == before_obj.obj_data
                    &&& deps_stable(before_obj.dependencies, after_obj.dependencies)
                }
        }),
    decreases refs.len(),
{
    if refs.len() == 0 {
        let after = apply_references(m, refs);
        assert(after == m);
        assert forall|k: int| 0 <= k < m.len() && m[k].1 is Some implies {
            let before_obj = m[k].1.unwrap();
            let after_obj = (#[trigger] after[k]).1.unwrap();
            &&& after_obj.id == before_obj.id
            &&& after_obj.obj_data == before_obj.obj_data
            &&& deps_stable(before_obj.dependencies, after_obj.dependencies)
        } by {
            match m[k].1.unwrap().dependencies {
                Some(_) => {},
                None => {},
            }
        }
    } else {
        let mid = apply_reference(m, refs.first());
        lemma_apply_reference_stable(m, refs.first());
        lemma_update_preserves_positions(mid, refs.drop_first());
        let after = apply_references(m, refs);
        assert(after == apply_references(mid, refs.drop_first()));
        assert forall|k: int| 0 <= k < m.len() && m[k].1 is Some implies {
            let before_obj = m[k].1.unwrap();
            let after_obj = (#[trigger] after[k]).1.unwrap();
            &&& after_obj.id == before_obj.id
            &&& after_obj.obj_data == before_obj.obj_data
            &&& deps_stable(before_obj.dependencies, after_obj.dependencies)
        } by {
            lemma_deps_stable_trans(
                m[k].1.unwrap().dependencies,
                mid[k].1.unwrap().dependencies,
                after[k].1.unwrap().dependencies,
            );
        }
    }
}

/// The dangling prune: when a reference's other end is missing, deleted or
/// supplies no datum, propagation turns every dependency slot the owner end
/// holds at that position into a tombstone — never a broken binding.
pub proof fn lemma_dangling_prune(
    m: Seq<(Seq<char>, Option<ObjectView>)>,
    refv: ReferenceView,
    j: int,
)
    requires
        refv.owner is Some,
        refv.other is Some,
        refv.owner.unwrap().id != refv.other.unwrap().id,
        ref_result_spec(m, refv.other.unwrap()) is None,
        first_key_match(m, refv.owner.unwrap().id, j),
        m[j].1 is Some,
    ensures
        ({
            let after = apply_reference(m, refv);
            let owner = refv.owner.unwrap();
            let obj = after[j].1.unwrap();
            &&& after[j].1 is Some
            &&& match (m[j].1.unwrap().dependencies, obj.dependencies) {
                (Some(before), Some(now)) => {
                    &&& now.len() == before.len()
                    &&& forall|i: int|
                        0 <= i < now.len() && slot_owned_by(
                            before[i],
                            owner.ref_type,
                            owner.index,
                        ) ==> #[trigger] now[i] is None
                },
                (None, None) => true,
                _ => false,
            }
        }),
{
    let owner = refv.owner.unwrap();
    let w = choose|w: int| first_key_match(m, owner.id, w);
    assert(w == j) by {
        if w < j {
            assert(m[w].0 != owner.id);
        } else if w > j {
            assert(m[j].0 != owner.id);
        }
    }
    let obj = m[j].1.unwrap();
    assert(apply_result(obj, owner.ref_type, owner.index, ref_result_spec(m, refv.other.unwrap()))
        == clear_owned_slots(obj, owner.ref_type, owner.index));
}


} // verus!
