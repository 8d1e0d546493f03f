//! The pure decisions of the per-type object definitions: which reference
//! slots an object publishes, and the self-delete rule of a viewport.
//!
//! The catalog's geometry (prisms, swing arcs, 2D views) is floating point
//! and lives outside the library; what stands here is the positional wiring
//! of references — which slot binds which piece of information to which
//! other — and the one representation decision that needs no geometry at
//! all.

use vstd::prelude::*;

use crate::msg::{OptionReferenceMsg, RefIdMsg, RefIdView, ReferenceMsg, ReferenceView};
use crate::rep_cache::UpdateOutputMsg;
use crate::update::{
    REF_TYPE_AXIS_ALIGNED_BBOX, REF_TYPE_EXISTENCE, REF_TYPE_PROFILE_LINE,
    REF_TYPE_PROFILE_POINT, REF_TYPE_PROFILE_PLANE,
};

verus! {

/// A wall's referable wiring: its two baseline points, each possibly bound
/// to another object's datum, and its openings — positional, a missing or
/// unbound opening keeping its slot.
pub struct WallModel {
    pub id: String,
    pub first_refer: Option<RefIdMsg>,
    pub second_refer: Option<RefIdMsg>,
    pub openings: Vec<Option<Option<RefIdMsg>>>,
}

/// Mathematical view of a wall's wiring.
#[verifier::ext_equal]
pub ghost struct WallModelView {
    pub id: Seq<char>,
    pub first_refer: Option<RefIdView>,
    pub second_refer: Option<RefIdView>,
    pub openings: Seq<Option<Option<RefIdView>>>,
}

impl View for WallModel {
    type V = WallModelView;

    open spec fn view(&self) -> WallModelView {
        WallModelView {
            id: self.id@,
            first_refer: self.first_refer.deep_view(),
            second_refer: self.second_refer.deep_view(),
            openings: self.openings.deep_view(),
        }
    }
}

impl DeepView for WallModel {
    type V = WallModelView;

    open spec fn deep_view(&self) -> WallModelView {
        self.view()
    }
}

/// One of the wall's own referable data.
pub open spec fn wall_rid(id: Seq<char>, ref_type: i32, index: u64) -> RefIdView {
    RefIdView { id, ref_type, index }
}

/// A bound reference slot.
pub open spec fn bound_slot(owner: RefIdView, other: RefIdView) -> Option<ReferenceView> {
    Some(ReferenceView { owner: Some(owner), other: Some(other) })
}

/// The reference slots a wall publishes: slots 0 and 1 carry the baseline
/// points' outward bindings (tombstones when unbound), slots 2 to 5 the
/// fixed intra-object edges deriving the bounding box and the baseline from
/// the two points, and one slot per opening after that.
pub open spec fn wall_refs_spec(w: WallModelView) -> Seq<Option<ReferenceView>> {
    let pt_0 = wall_rid(w.id, REF_TYPE_PROFILE_POINT, 0);
    let pt_1 = wall_rid(w.id, REF_TYPE_PROFILE_POINT, 1);
    let bbox = wall_rid(w.id, REF_TYPE_AXIS_ALIGNED_BBOX, 0);
    let line = wall_rid(w.id, REF_TYPE_PROFILE_LINE, 0);
    let fixed = seq![
        match w.first_refer {
            Some(other) => bound_slot(pt_0, other),
            None => None,
        },
        match w.second_refer {
            Some(other) => bound_slot(pt_1, other),
            None => None,
        },
        bound_slot(bbox, pt_0),
        bound_slot(bbox, pt_1),
        bound_slot(line, pt_0),
        bound_slot(line, pt_1),
    ];
    fixed + Seq::new(
        w.openings.len(),
        |i: int|
            match w.openings[i] {
                Some(Some(other)) => bound_slot(
                    wall_rid(w.id, REF_TYPE_PROFILE_PLANE, i as u64),
                    other,
                ),
                _ => None,
            },
    )
}

/// Publishes a wall's reference slots; see [`wall_refs_spec`].
pub fn wall_refs(w: &WallModel) -> (r: Vec<OptionReferenceMsg>)
    requires
        w.openings@.len() <= u64::MAX,
    ensures
        r@.len() == 6 + w.openings@.len(),
        r.deep_view() == wall_refs_spec(w@),
{
    let pt_0 = RefIdMsg { id: w.id.clone(), ref_type: REF_TYPE_PROFILE_POINT, index: 0 };
    let pt_1 = RefIdMsg { id: w.id.clone(), ref_type: REF_TYPE_PROFILE_POINT, index: 1 };
    let bbox = RefIdMsg { id: w.id.clone(), ref_type: REF_TYPE_AXIS_ALIGNED_BBOX, index: 0 };
    let line = RefIdMsg { id: w.id.clone(), ref_type: REF_TYPE_PROFILE_LINE, index: 0 };
    let mut results: Vec<OptionReferenceMsg> = Vec::new();
    match &w.first_refer {
        Some(other) => {
            results.push(
                OptionReferenceMsg {
                    reference: Some(
                        ReferenceMsg { owner: Some(pt_0.clone()), other: Some(other.clone()) },
                    ),
                },
            );
        },
        None => {
            results.push(OptionReferenceMsg { reference: None });
        },
    }
    match &w.second_refer {
        Some(other) => {
            results.push(
                OptionReferenceMsg {
                    reference: Some(
                        ReferenceMsg { owner: Some(pt_1.clone()), other: Some(other.clone()) },
                    ),
                },
            );
        },
        None => {
            results.push(OptionReferenceMsg { reference: None });
        },
    }
    results.push(
        OptionReferenceMsg {
            reference: Some(
                ReferenceMsg { owner: Some(bbox.clone()), other: Some(pt_0.clone()) },
            ),
        },
    );
    results.push(
        OptionReferenceMsg {
            reference: Some(ReferenceMsg { owner: Some(bbox), other: Some(pt_1.clone()) }),
        },
    );
    results.push(
        OptionReferenceMsg {
            reference: Some(ReferenceMsg { owner: Some(line.clone()), other: Some(pt_0) }),
        },
    );
    results.push(
        OptionReferenceMsg {
            reference: Some(ReferenceMsg { owner: Some(line), other: Some(pt_1) }),
        },
    );
    proof {
        assert forall|k: int| 0 <= k < 6 implies results.deep_view()[k] == wall_refs_spec(
            w@,
        )[k] by {}
    }
    let mut index: usize = 0;
    while index < w.openings.len()
        invariant
            index <= w.openings@.len(),
            w.openings@.len() <= u64::MAX,
            results@.len() == 6 + index,
            forall|k: int|
                0 <= k < 6 + index ==> #[trigger] results.deep_view()[k] == wall_refs_spec(
                    w@,
                )[k],
        decreases w.openings@.len() - index,
    {
        let ghost before = results.deep_view();
        let slot = match &w.openings[index] {
            Some(Some(other)) => OptionReferenceMsg {
                reference: Some(
                    ReferenceMsg {
                        owner: Some(
                            RefIdMsg {
                                id: w.id.clone(),
                                ref_type: REF_TYPE_PROFILE_PLANE,
                                index: index as u64,
                            },
                        ),
                        other: Some(other.clone()),
                    },
                ),
            },
            _ => OptionReferenceMsg { reference: None },
        };
        let ghost slot_view = slot@;
        results.push(slot);
        proof {
            assert(results.deep_view() =~= before.push(slot_view));
            assert(slot_view == wall_refs_spec(w@)[6 + index]);
        }
        index += 1;
    }
    proof {
        assert(results.deep_view() =~= wall_refs_spec(w@));
    }
    results
}

/// A viewport's decision state: the sheet it shows, if it still has one, and
/// its placement on that sheet (opaque coordinates).
pub struct ViewportModel {
    pub id: String,
    pub sheet: Option<String>,
    pub origin: (crate::msg::Coord, crate::msg::Coord),
}

/// Mathematical view of a viewport's decision state.
#[verifier::ext_equal]
pub ghost struct ViewportModelView {
    pub id: Seq<char>,
    pub sheet: Option<Seq<char>>,
    pub origin: (crate::msg::Coord, crate::msg::Coord),
}

impl View for ViewportModel {
    type V = ViewportModelView;

    open spec fn view(&self) -> ViewportModelView {
        ViewportModelView { id: self.id@, sheet: self.sheet.deep_view(), origin: self.origin }
    }
}

impl DeepView for ViewportModel {
    type V = ViewportModelView;

    open spec fn deep_view(&self) -> ViewportModelView {
        self.view()
    }
}

/// A viewport's representation: it deletes itself exactly when its sheet
/// reference is gone; otherwise it renders as an opaque blob naming the
/// sheet.
pub fn viewport_update(v: &ViewportModel) -> (r: UpdateOutputMsg)
    ensures
        (r matches UpdateOutputMsg::Delete) <==> v.sheet is None,
        v.sheet matches Some(sheet) ==> (r matches UpdateOutputMsg::OtherJson(data)
            && data@ == "{\"type\":\"Viewport\",\"sheet\":\""@ + sheet@ + "\"}"@),
{
    match &v.sheet {
        Some(sheet) => {
            let mut data = String::from_str("{\"type\":\"Viewport\",\"sheet\":\"");
            data.append(sheet.as_str());
            data.append("\"}");
            UpdateOutputMsg::OtherJson(data)
        },
        None => UpdateOutputMsg::Delete,
    }
}

/// The reference slots a viewport publishes: one slot binding its existence
/// to its sheet's, a tombstone once the sheet is gone.
pub fn viewport_refs(v: &ViewportModel) -> (r: Vec<OptionReferenceMsg>)
    ensures
        r@.len() == 1,
        r.deep_view()[0] == match v@.sheet {
            Some(sheet) => bound_slot(
                wall_rid(v@.id, REF_TYPE_EXISTENCE, 0),
                wall_rid(sheet, REF_TYPE_EXISTENCE, 0),
            ),
            None => None::<ReferenceView>,
        },
{
    let slot = match &v.sheet {
        Some(sheet) => OptionReferenceMsg {
            reference: Some(
                ReferenceMsg {
                    owner: Some(
                        RefIdMsg { id: v.id.clone(), ref_type: REF_TYPE_EXISTENCE, index: 0 },
                    ),
                    other: Some(
                        RefIdMsg { id: sheet.clone(), ref_type: REF_TYPE_EXISTENCE, index: 0 },
                    ),
                },
            ),
        },
        None => OptionReferenceMsg { reference: None },
    };
    let mut r: Vec<OptionReferenceMsg> = Vec::new();
    let ghost slot_view = slot@;
    r.push(slot);
    proof {
        assert(r.deep_view() =~= seq![slot_view]);
    }
    r
}

} // verus!
