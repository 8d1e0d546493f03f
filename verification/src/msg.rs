//! The data model: changes, objects, references and results.
//!
//! A document is a set of objects.  Each change to an object travels as a
//! [`ChangeMsg`]: who made it, what it does (add, modify or delete), and where
//! it came from (a fresh user action, or the replay of an undo/redo event).
//! An object carries a positional list of optional references — the edges of
//! the dependency graph — plus opaque payload bytes and derived results.
//!
//! Every message type has a mathematical view (`@`), a ghost value over `Seq`
//! and `Option`, and all contracts in this crate are stated over those views.
//!
//! Geometric coordinates are carried as opaque 64-bit scalar encodings
//! ([`Coord`]); the engine never interprets them, it only moves them between
//! result slots.  The geometry layer that produces and consumes them lives
//! outside this crate.

use vstd::prelude::*;

verus! {


/// A geometric coordinate, carried as an opaque 64-bit encoding.
/// The engine copies coordinates between result slots but never computes on them.
pub type Coord = u64;

/// A point in space, as three opaque coordinates.
#[derive(Debug, Copy, PartialEq, Eq, Structural)]
pub struct Point3Msg {
    pub x: Coord,
    pub y: Coord,
    pub z: Coord,
}

/// An optional point; a result slot that may be unset.
#[derive(Debug, Copy, PartialEq, Eq, Structural)]
pub struct OptionPoint3Msg {
    pub pt: Option<Point3Msg>,
}

impl OptionPoint3Msg {
    /// Wraps an optional point into its message form.
    pub fn new(pt: Option<Point3Msg>) -> (r: OptionPoint3Msg)
        ensures
            r.pt == pt,
    {
        OptionPoint3Msg { pt }
    }
}

/// A line through two points.
#[derive(Debug, Copy, PartialEq, Eq, Structural)]
pub struct LineMsg {
    pub pt_1: Option<Point3Msg>,
    pub pt_2: Option<Point3Msg>,
}

/// An optional line result slot.
#[derive(Debug, Copy, PartialEq, Eq, Structural)]
pub struct OptionLineMsg {
    pub line: Option<LineMsg>,
}

/// A plane through three points.
#[derive(Debug, Copy, PartialEq, Eq, Structural)]
pub struct PlaneMsg {
    pub pt_1: Option<Point3Msg>,
    pub pt_2: Option<Point3Msg>,
    pub pt_3: Option<Point3Msg>,
}

/// An optional plane result slot.
#[derive(Debug, Copy, PartialEq, Eq, Structural)]
pub struct OptionPlaneMsg {
    pub plane: Option<PlaneMsg>,
}

/// An axis-aligned bounding box, as two corner points.
#[derive(Debug, Copy, PartialEq, Eq, Structural)]
pub struct AxisAlignedBBoxMsg {
    pub bottom_left: Option<Point3Msg>,
    pub top_right: Option<Point3Msg>,
}

/// A marker for messages that carry no payload.
#[derive(Debug, Copy, PartialEq, Eq, Structural)]
pub struct EmptyMsg {}

/// The referable geometric results of an object: points, lines and planes,
/// each list positional.
#[derive(Debug, PartialEq)]
pub struct ProfileMsg {
    pub points: Vec<OptionPoint3Msg>,
    pub lines: Vec<OptionLineMsg>,
    pub planes: Vec<OptionPlaneMsg>,
}

/// Mathematical view of a [`ProfileMsg`].
#[verifier::ext_equal]
pub ghost struct ProfileView {
    pub points: Seq<OptionPoint3Msg>,
    pub lines: Seq<OptionLineMsg>,
    pub planes: Seq<OptionPlaneMsg>,
}

impl View for ProfileMsg {
    type V = ProfileView;

    open spec fn view(&self) -> ProfileView {
        ProfileView { points: self.points@, lines: self.lines@, planes: self.planes@ }
    }
}

impl DeepView for ProfileMsg {
    type V = ProfileView;

    open spec fn deep_view(&self) -> ProfileView {
        self.view()
    }
}

impl Clone for ProfileMsg {
    fn clone(&self) -> (res: Self)
        ensures
            res@ == self@,
    {
        let points = self.points.clone();
        let lines = self.lines.clone();
        let planes = self.planes.clone();
        proof {
            assert(points@ =~= self.points@);
            assert(lines@ =~= self.lines@);
            assert(planes@ =~= self.planes@);
        }
        ProfileMsg { points, lines, planes }
    }
}

/// An opaque JSON-encoded property tree.
#[derive(Debug, PartialEq)]
pub struct PropertiesMsg {
    pub prop_json: String,
}

impl View for PropertiesMsg {
    type V = Seq<char>;

    open spec fn view(&self) -> Seq<char> {
        self.prop_json@
    }
}

impl DeepView for PropertiesMsg {
    type V = Seq<char>;

    open spec fn deep_view(&self) -> Seq<char> {
        self.view()
    }
}

impl Clone for PropertiesMsg {
    fn clone(&self) -> (res: Self)
        ensures
            res@ == self@,
    {
        PropertiesMsg { prop_json: self.prop_json.clone() }
    }
}

/// The derived results of an object, regenerable from its payload.
#[derive(Debug, PartialEq)]
pub struct ResultsMsg {
    pub visible: bool,
    pub profile: Option<ProfileMsg>,
    pub bbox: Option<AxisAlignedBBoxMsg>,
    pub properties: Option<PropertiesMsg>,
}

/// Mathematical view of a [`ResultsMsg`].
#[verifier::ext_equal]
pub ghost struct ResultsView {
    pub visible: bool,
    pub profile: Option<ProfileView>,
    pub bbox: Option<AxisAlignedBBoxMsg>,
    pub properties: Option<Seq<char>>,
}

impl View for ResultsMsg {
    type V = ResultsView;

    open spec fn view(&self) -> ResultsView {
        ResultsView {
            visible: self.visible,
            profile: self.profile.deep_view(),
            bbox: self.bbox,
            properties: self.properties.deep_view(),
        }
    }
}

impl DeepView for ResultsMsg {
    type V = ResultsView;

    open spec fn deep_view(&self) -> ResultsView {
        self.view()
    }
}

impl Clone for ResultsMsg {
    fn clone(&self) -> (res: Self)
        ensures
            res@ == self@,
    {
        ResultsMsg {
            visible: self.visible,
            profile: match &self.profile {
                Some(profile) => Some(profile.clone()),
                None => None,
            },
            bbox: self.bbox,
            properties: match &self.properties {
                Some(properties) => Some(properties.clone()),
                None => None,
            },
        }
    }
}

/// Names one piece of referable information on one object: the object, the
/// kind of information, and the index within that kind.
#[derive(Debug)]
pub struct RefIdMsg {
    pub id: String,
    pub ref_type: i32,
    pub index: u64,
}

/// Mathematical view of a [`RefIdMsg`].
#[verifier::ext_equal]
pub ghost struct RefIdView {
    pub id: Seq<char>,
    pub ref_type: i32,
    pub index: u64,
}

impl View for RefIdMsg {
    type V = RefIdView;

    open spec fn view(&self) -> RefIdView {
        RefIdView { id: self.id@, ref_type: self.ref_type, index: self.index }
    }
}

impl DeepView for RefIdMsg {
    type V = RefIdView;

    open spec fn deep_view(&self) -> RefIdView {
        self.view()
    }
}

impl PartialEq for RefIdMsg {
    fn eq(&self, other: &RefIdMsg) -> (r: bool) {
        self.id == other.id && self.ref_type == other.ref_type && self.index == other.index
    }
}

impl vstd::std_specs::cmp::PartialEqSpecImpl for RefIdMsg {
    open spec fn obeys_eq_spec() -> bool {
        true
    }

    open spec fn eq_spec(&self, other: &RefIdMsg) -> bool {
        self@ == other@
    }
}

impl Eq for RefIdMsg {}

impl Clone for RefIdMsg {
    fn clone(&self) -> (res: Self)
        ensures
            res@ == self@,
    {
        RefIdMsg { id: self.id.clone(), ref_type: self.ref_type, index: self.index }
    }
}

/// A directed dependency edge: `owner` subscribes to changes of `other`.
#[derive(Debug)]
pub struct ReferenceMsg {
    pub owner: Option<RefIdMsg>,
    pub other: Option<RefIdMsg>,
}

/// Mathematical view of a [`ReferenceMsg`].
#[verifier::ext_equal]
pub ghost struct ReferenceView {
    pub owner: Option<RefIdView>,
    pub other: Option<RefIdView>,
}

impl View for ReferenceMsg {
    type V = ReferenceView;

    open spec fn view(&self) -> ReferenceView {
        ReferenceView { owner: self.owner.deep_view(), other: self.other.deep_view() }
    }
}

impl DeepView for ReferenceMsg {
    type V = ReferenceView;

    open spec fn deep_view(&self) -> ReferenceView {
        self.view()
    }
}

impl Clone for ReferenceMsg {
    fn clone(&self) -> (res: Self)
        ensures
            res@ == self@,
    {
        ReferenceMsg {
            owner: match &self.owner {
                Some(owner) => Some(owner.clone()),
                None => None,
            },
            other: match &self.other {
                Some(other) => Some(other.clone()),
                None => None,
            },
        }
    }
}

impl PartialEq for ReferenceMsg {
    fn eq(&self, other: &ReferenceMsg) -> (r: bool) {
        let owners_match = match (&self.owner, &other.owner) {
            (Some(x), Some(y)) => x == y,
            (None, None) => true,
            _ => false,
        };
        let others_match = match (&self.other, &other.other) {
            (Some(x), Some(y)) => x == y,
            (None, None) => true,
            _ => false,
        };
        owners_match && others_match
    }
}

impl vstd::std_specs::cmp::PartialEqSpecImpl for ReferenceMsg {
    open spec fn obeys_eq_spec() -> bool {
        true
    }

    open spec fn eq_spec(&self, other: &ReferenceMsg) -> bool {
        self@ == other@
    }
}

impl Eq for ReferenceMsg {}

impl ReferenceMsg {
    /// Whether this reference connects the same endpoints as `other`.
    pub fn same_edge(&self, other: &ReferenceMsg) -> (r: bool)
        ensures
            r == (self@ == other@),
    {
        let owners_match = match (&self.owner, &other.owner) {
            (Some(x), Some(y)) => x == y,
            (None, None) => true,
            _ => false,
        };
        let others_match = match (&self.other, &other.other) {
            (Some(x), Some(y)) => x == y,
            (None, None) => true,
            _ => false,
        };
        owners_match && others_match
    }
}

/// A positional reference slot; an unset slot is a tombstone whose position
/// must be preserved.
#[derive(Debug, PartialEq)]
pub struct OptionReferenceMsg {
    pub reference: Option<ReferenceMsg>,
}

impl View for OptionReferenceMsg {
    type V = Option<ReferenceView>;

    open spec fn view(&self) -> Option<ReferenceView> {
        self.reference.deep_view()
    }
}

impl DeepView for OptionReferenceMsg {
    type V = Option<ReferenceView>;

    open spec fn deep_view(&self) -> Option<ReferenceView> {
        self.view()
    }
}

impl Clone for OptionReferenceMsg {
    fn clone(&self) -> (res: Self)
        ensures
            res@ == self@,
    {
        OptionReferenceMsg {
            reference: match &self.reference {
                Some(reference) => Some(reference.clone()),
                None => None,
            },
        }
    }
}

/// The positional list of reference slots of one object.
#[derive(Debug, PartialEq)]
pub struct DependenciesMsg {
    pub references: Vec<OptionReferenceMsg>,
}

impl View for DependenciesMsg {
    type V = Seq<Option<ReferenceView>>;

    open spec fn view(&self) -> Seq<Option<ReferenceView>> {
        self.references.deep_view()
    }
}

impl DeepView for DependenciesMsg {
    type V = Seq<Option<ReferenceView>>;

    open spec fn deep_view(&self) -> Seq<Option<ReferenceView>> {
        self.view()
    }
}

impl Clone for DependenciesMsg {
    fn clone(&self) -> (res: Self)
        ensures
            res@ == self@,
    {
        let references = self.references.clone();
        proof {
            assert forall|i: int|
                0 <= i < self.references@.len() implies references.deep_view()[i]
                == self.references.deep_view()[i] by {
                assert(cloned::<OptionReferenceMsg>(self.references[i], references[i]));
            }
            assert(references.deep_view() =~= self.references.deep_view());
        }
        DependenciesMsg { references }
    }
}

/// The full state of an object as carried by a change.
#[derive(Debug, PartialEq)]
pub struct ObjectMsg {
    pub id: String,
    pub dependencies: Option<DependenciesMsg>,
    pub obj_data: Vec<u8>,
    pub results: Option<ResultsMsg>,
}

/// Mathematical view of an [`ObjectMsg`].
#[verifier::ext_equal]
pub ghost struct ObjectView {
    pub id: Seq<char>,
    pub dependencies: Option<Seq<Option<ReferenceView>>>,
    pub obj_data: Seq<u8>,
    pub results: Option<ResultsView>,
}

impl View for ObjectMsg {
    type V = ObjectView;

    open spec fn view(&self) -> ObjectView {
        ObjectView {
            id: self.id@,
            dependencies: self.dependencies.deep_view(),
            obj_data: self.obj_data@,
            results: self.results.deep_view(),
        }
    }
}

impl DeepView for ObjectMsg {
    type V = ObjectView;

    open spec fn deep_view(&self) -> ObjectView {
        self.view()
    }
}

impl Clone for ObjectMsg {
    fn clone(&self) -> (res: Self)
        ensures
            res@ == self@,
    {
        let obj_data = self.obj_data.clone();
        proof {
            assert(obj_data@ =~= self.obj_data@);
        }
        ObjectMsg {
            id: self.id.clone(),
            dependencies: match &self.dependencies {
                Some(dependencies) => Some(dependencies.clone()),
                None => None,
            },
            obj_data,
            results: match &self.results {
                Some(results) => Some(results.clone()),
                None => None,
            },
        }
    }
}

/// Names the object a delete applies to.
#[derive(Debug, PartialEq)]
pub struct DeleteMsg {
    pub id: String,
}

impl View for DeleteMsg {
    type V = Seq<char>;

    open spec fn view(&self) -> Seq<char> {
        self.id@
    }
}

impl DeepView for DeleteMsg {
    type V = Seq<char>;

    open spec fn deep_view(&self) -> Seq<char> {
        self.view()
    }
}

impl Clone for DeleteMsg {
    fn clone(&self) -> (res: Self)
        ensures
            res@ == self@,
    {
        DeleteMsg { id: self.id.clone() }
    }
}

/// What a change does: add a new object, modify an existing one, or delete one.
#[derive(Debug, PartialEq)]
pub enum ChangeType {
    Add(ObjectMsg),
    Modify(ObjectMsg),
    Delete(DeleteMsg),
}

/// Mathematical view of a [`ChangeType`].
#[verifier::ext_equal]
pub ghost enum ChangeTypeView {
    Add(ObjectView),
    Modify(ObjectView),
    Delete(Seq<char>),
}

impl View for ChangeType {
    type V = ChangeTypeView;

    open spec fn view(&self) -> ChangeTypeView {
        match self {
            ChangeType::Add(obj) => ChangeTypeView::Add(obj@),
            ChangeType::Modify(obj) => ChangeTypeView::Modify(obj@),
            ChangeType::Delete(del) => ChangeTypeView::Delete(del@),
        }
    }
}

impl DeepView for ChangeType {
    type V = ChangeTypeView;

    open spec fn deep_view(&self) -> ChangeTypeView {
        self.view()
    }
}

impl Clone for ChangeType {
    fn clone(&self) -> (res: Self)
        ensures
            res@ == self@,
    {
        match self {
            ChangeType::Add(obj) => ChangeType::Add(obj.clone()),
            ChangeType::Modify(obj) => ChangeType::Modify(obj.clone()),
            ChangeType::Delete(del) => ChangeType::Delete(del.clone()),
        }
    }
}

/// Where a change came from: a fresh user action, or the replay of a recorded
/// undo or redo event (named by its event id).  The undo store routes entries
/// between its stacks by this tag.
#[derive(Debug, PartialEq)]
pub enum ChangeSource {
    UserAction(EmptyMsg),
    Undo(String),
    Redo(String),
}

/// Mathematical view of a [`ChangeSource`].
#[verifier::ext_equal]
pub ghost enum ChangeSourceView {
    UserAction,
    Undo(Seq<char>),
    Redo(Seq<char>),
}

impl View for ChangeSource {
    type V = ChangeSourceView;

    open spec fn view(&self) -> ChangeSourceView {
        match self {
            ChangeSource::UserAction(empty) => ChangeSourceView::UserAction,
            ChangeSource::Undo(event) => ChangeSourceView::Undo(event@),
            ChangeSource::Redo(event) => ChangeSourceView::Redo(event@),
        }
    }
}

impl DeepView for ChangeSource {
    type V = ChangeSourceView;

    open spec fn deep_view(&self) -> ChangeSourceView {
        self.view()
    }
}

impl Clone for ChangeSource {
    fn clone(&self) -> (res: Self)
        ensures
            res@ == self@,
    {
        match self {
            ChangeSource::UserAction(empty) => ChangeSource::UserAction(*empty),
            ChangeSource::Undo(event) => ChangeSource::Undo(event.clone()),
            ChangeSource::Redo(event) => ChangeSource::Redo(event.clone()),
        }
    }
}

/// One change to one object, as appended to a file's log.
#[derive(Debug, PartialEq)]
pub struct ChangeMsg {
    pub user: String,
    pub change_type: Option<ChangeType>,
    pub change_source: Option<ChangeSource>,
}

/// Mathematical view of a [`ChangeMsg`].
#[verifier::ext_equal]
pub ghost struct ChangeView {
    pub user: Seq<char>,
    pub change_type: Option<ChangeTypeView>,
    pub change_source: Option<ChangeSourceView>,
}

impl View for ChangeMsg {
    type V = ChangeView;

    open spec fn view(&self) -> ChangeView {
        ChangeView {
            user: self.user@,
            change_type: self.change_type.deep_view(),
            change_source: self.change_source.deep_view(),
        }
    }
}

impl DeepView for ChangeMsg {
    type V = ChangeView;

    open spec fn deep_view(&self) -> ChangeView {
        self.view()
    }
}

impl Clone for ChangeMsg {
    fn clone(&self) -> (res: Self)
        ensures
            res@ == self@,
    {
        ChangeMsg {
            user: self.user.clone(),
            change_type: match &self.change_type {
                Some(change_type) => Some(change_type.clone()),
                None => None,
            },
            change_source: match &self.change_source {
                Some(change_source) => Some(change_source.clone()),
                None => None,
            },
        }
    }
}

/// A change that may be absent, as returned by point-in-time lookups.
#[derive(Debug, PartialEq)]
pub struct OptionChangeMsg {
    pub change: Option<ChangeMsg>,
}

impl View for OptionChangeMsg {
    type V = Option<ChangeView>;

    open spec fn view(&self) -> Option<ChangeView> {
        self.change.deep_view()
    }
}

impl DeepView for OptionChangeMsg {
    type V = Option<ChangeView>;

    open spec fn deep_view(&self) -> Option<ChangeView> {
        self.view()
    }
}

impl Clone for OptionChangeMsg {
    fn clone(&self) -> (res: Self)
        ensures
            res@ == self@,
    {
        OptionChangeMsg {
            change: match &self.change {
                Some(change) => Some(change.clone()),
                None => None,
            },
        }
    }
}

impl ObjectMsg {
    /// The profile point of this object at `index`, if any.
    pub open spec fn spec_profile_pt(&self, index: int) -> Option<Point3Msg> {
        match self.results {
            Some(results) => match results.profile {
                Some(profile) => {
                    if 0 <= index < profile.points@.len() {
                        profile.points@[index].pt
                    } else {
                        None
                    }
                },
                None => None,
            },
            None => None,
        }
    }

    /// Looks up the profile point at `index`.
    pub fn get_profile_pt(&self, index: usize) -> (r: Option<&Point3Msg>)
        ensures
            match r {
                Some(pt) => self.spec_profile_pt(index as int) == Some(*pt),
                None => self.spec_profile_pt(index as int) is None,
            },
    {
        let mut result: Option<&Point3Msg> = None;
        if let Some(results) = &self.results {
            if let Some(profile) = &results.profile {
                if index < profile.points.len() {
                    if let Some(pt) = &profile.points[index].pt {
                        result = Some(pt);
                    }
                }
            }
        }
        result
    }

    /// The profile line of this object at `index`, if any.
    pub open spec fn spec_profile_line(&self, index: int) -> Option<LineMsg> {
        match self.results {
            Some(results) => match results.profile {
                Some(profile) => {
                    if 0 <= index < profile.lines@.len() {
                        profile.lines@[index].line
                    } else {
                        None
                    }
                },
                None => None,
            },
            None => None,
        }
    }

    /// Looks up the profile line at `index`.
    pub fn get_profile_line(&self, index: usize) -> (r: Option<&LineMsg>)
        ensures
            match r {
                Some(line) => self.spec_profile_line(index as int) == Some(*line),
                None => self.spec_profile_line(index as int) is None,
            },
    {
        let mut result: Option<&LineMsg> = None;
        if let Some(results) = &self.results {
            if let Some(profile) = &results.profile {
                if index < profile.lines.len() {
                    if let Some(line) = &profile.lines[index].line {
                        result = Some(line);
                    }
                }
            }
        }
        result
    }

    /// The profile plane of this object at `index`, if any.
    pub open spec fn spec_profile_plane(&self, index: int) -> Option<PlaneMsg> {
        match self.results {
            Some(results) => match results.profile {
                Some(profile) => {
                    if 0 <= index < profile.planes@.len() {
                        profile.planes@[index].plane
                    } else {
                        None
                    }
                },
                None => None,
            },
            None => None,
        }
    }

    /// Looks up the profile plane at `index`.
    pub fn get_profile_plane(&self, index: usize) -> (r: Option<&PlaneMsg>)
        ensures
            match r {
                Some(plane) => self.spec_profile_plane(index as int) == Some(*plane),
                None => self.spec_profile_plane(index as int) is None,
            },
    {
        let mut result: Option<&PlaneMsg> = None;
        if let Some(results) = &self.results {
            if let Some(profile) = &results.profile {
                if index < profile.planes.len() {
                    if let Some(plane) = &profile.planes[index].plane {
                        result = Some(plane);
                    }
                }
            }
        }
        result
    }

    /// The reference slot of this object at `index`, flattened.
    pub open spec fn spec_reference(&self, index: int) -> Option<ReferenceView> {
        match self.dependencies {
            Some(deps) => {
                if 0 <= index < deps.references@.len() {
                    deps.references@[index]@
                } else {
                    None
                }
            },
            None => None,
        }
    }

    /// Looks up the reference at `index`.
    pub fn get_reference(&self, index: usize) -> (r: Option<&ReferenceMsg>)
        ensures
            match r {
                Some(reference) => self.spec_reference(index as int) == Some(reference@),
                None => self.spec_reference(index as int) is None,
            },
    {
        let mut result: Option<&ReferenceMsg> = None;
        if let Some(deps) = &self.dependencies {
            if index < deps.references.len() {
                if let Some(reference) = &deps.references[index].reference {
                    result = Some(reference);
                }
            }
        }
        result
    }

    /// The bounding box of this object, if any.
    pub open spec fn spec_bbox(&self) -> Option<AxisAlignedBBoxMsg> {
        match self.results {
            Some(results) => results.bbox,
            None => None,
        }
    }

    /// Looks up the bounding box.
    pub fn get_bbox(&self) -> (r: Option<&AxisAlignedBBoxMsg>)
        ensures
            match r {
                Some(bbox) => self.spec_bbox() == Some(*bbox),
                None => self.spec_bbox() is None,
            },
    {
        let mut result: Option<&AxisAlignedBBoxMsg> = None;
        if let Some(results) = &self.results {
            if let Some(bbox) = &results.bbox {
                result = Some(bbox);
            }
        }
        result
    }

    /// Borrows the bounding box for in-place update.  A mutable borrow inside
    /// an `Option` cannot be given a contract, so unlike the read-only lookup
    /// this demands that the box is present.
    pub fn get_bbox_mut(&mut self) -> (r: &mut AxisAlignedBBoxMsg)
        requires
            old(self).spec_bbox() is Some,
        ensures
            Some(*r) == old(self).spec_bbox(),
            final(self).spec_bbox() == Some(*final(r)),
            final(self).id == old(self).id,
            final(self).dependencies == old(self).dependencies,
            final(self).obj_data == old(self).obj_data,
            match (final(self).results, old(self).results) {
                (Some(new_results), Some(old_results)) => {
                    &&& new_results.visible == old_results.visible
                    &&& new_results.profile == old_results.profile
                    &&& new_results.properties == old_results.properties
                },
                _ => false,
            },
    {
        match &mut self.results {
            Some(results) => match &mut results.bbox {
                Some(bbox) => bbox,
                None => unreached(),
            },
            None => unreached(),
        }
    }
}

/// The object a change applies to: the id carried by its add, modify or
/// delete payload.
pub open spec fn change_target(c: ChangeView) -> Option<Seq<char>> {
    match c.change_type {
        Some(ChangeTypeView::Add(obj)) => Some(obj.id),
        Some(ChangeTypeView::Modify(obj)) => Some(obj.id),
        Some(ChangeTypeView::Delete(id)) => Some(id),
        None => None,
    }
}

/// Builds a fresh user-action change that adds `obj`.
pub fn add(user: &str, obj: ObjectMsg) -> (r: ChangeMsg)
    ensures
        r@ == (ChangeView {
            user: user@,
            change_type: Some(ChangeTypeView::Add(obj@)),
            change_source: Some(ChangeSourceView::UserAction),
        }),
{
    ChangeMsg {
        user: String::from_str(user),
        change_type: Some(ChangeType::Add(obj)),
        change_source: Some(ChangeSource::UserAction(EmptyMsg {  })),
    }
}

/// Builds a fresh user-action change that modifies `obj`.
pub fn modify(user: &str, obj: ObjectMsg) -> (r: ChangeMsg)
    ensures
        r@ == (ChangeView {
            user: user@,
            change_type: Some(ChangeTypeView::Modify(obj@)),
            change_source: Some(ChangeSourceView::UserAction),
        }),
{
    ChangeMsg {
        user: String::from_str(user),
        change_type: Some(ChangeType::Modify(obj)),
        change_source: Some(ChangeSource::UserAction(EmptyMsg {  })),
    }
}

/// Builds a fresh user-action change that deletes the object named `obj_id`.
pub fn delete(user: &str, obj_id: String) -> (r: ChangeMsg)
    ensures
        r@ == (ChangeView {
            user: user@,
            change_type: Some(ChangeTypeView::Delete(obj_id@)),
            change_source: Some(ChangeSourceView::UserAction),
        }),
{
    ChangeMsg {
        user: String::from_str(user),
        change_type: Some(ChangeType::Delete(DeleteMsg { id: obj_id })),
        change_source: Some(ChangeSource::UserAction(EmptyMsg {  })),
    }
}

impl Clone for Point3Msg {
    fn clone(&self) -> (res: Self)
        ensures
            res == *self,
    {
        *self
    }
}

impl Clone for OptionPoint3Msg {
    fn clone(&self) -> (res: Self)
        ensures
            res == *self,
    {
        *self
    }
}

impl Clone for LineMsg {
    fn clone(&self) -> (res: Self)
        ensures
            res == *self,
    {
        *self
    }
}

impl Clone for OptionLineMsg {
    fn clone(&self) -> (res: Self)
        ensures
            res == *self,
    {
        *self
    }
}

impl Clone for PlaneMsg {
    fn clone(&self) -> (res: Self)
        ensures
            res == *self,
    {
        *self
    }
}

impl Clone for OptionPlaneMsg {
    fn clone(&self) -> (res: Self)
        ensures
            res == *self,
    {
        *self
    }
}

impl Clone for AxisAlignedBBoxMsg {
    fn clone(&self) -> (res: Self)
        ensures
            res == *self,
    {
        *self
    }
}

impl Clone for EmptyMsg {
    fn clone(&self) -> (res: Self)
        ensures
            res == *self,
    {
        *self
    }
}


/// Errors of message conversion.
#[derive(Debug)]
pub enum MsgError {
    /// The change named no object: its change type was unset.
    NoChangeType,
}

/// A change in working form, as the update pass consumes it: the object
/// carried in full, or the id to delete.
#[derive(Debug, PartialEq)]
pub enum Change {
    Add { obj: ObjectMsg },
    Modify { obj: ObjectMsg },
    Delete { id: String },
}

impl View for Change {
    type V = ChangeTypeView;

    open spec fn view(&self) -> ChangeTypeView {
        match self {
            Change::Add { obj } => ChangeTypeView::Add(obj@),
            Change::Modify { obj } => ChangeTypeView::Modify(obj@),
            Change::Delete { id } => ChangeTypeView::Delete(id@),
        }
    }
}

impl DeepView for Change {
    type V = ChangeTypeView;

    open spec fn deep_view(&self) -> ChangeTypeView {
        self.view()
    }
}

/// Converts one change message into working form; a change without a type is
/// malformed.
pub fn from_change_msg(msg: &ChangeMsg) -> (r: Result<Change, MsgError>)
    ensures
        match r {
            Ok(c) => msg@.change_type == Some(c@),
            Err(e) => e matches MsgError::NoChangeType && msg@.change_type is None,
        },
{
    match &msg.change_type {
        Some(ChangeType::Add(object)) => Ok(Change::Add { obj: object.clone() }),
        Some(ChangeType::Modify(object)) => Ok(Change::Modify { obj: object.clone() }),
        Some(ChangeType::Delete(del)) => Ok(Change::Delete { id: del.id.clone() }),
        None => Err(MsgError::NoChangeType),
    }
}

/// Converts a batch of change messages into working form; the first change
/// without a type fails the whole batch.
pub fn from_change_msgs(msgs: &Vec<ChangeMsg>) -> (r: Result<Vec<Change>, MsgError>)
    ensures
        match r {
            Ok(results) => {
                &&& results@.len() == msgs@.len()
                &&& forall|i: int|
                    0 <= i < msgs.deep_view().len() ==> msgs.deep_view()[i].change_type == Some(
                        #[trigger] results.deep_view()[i],
                    )
            },
            Err(e) => {
                &&& e matches MsgError::NoChangeType
                &&& exists|i: int|
                    0 <= i < msgs.deep_view().len() && (#[trigger] msgs.deep_view()[i]).change_type
                        is None
            },
        },
{
    let mut results: Vec<Change> = Vec::new();
    let mut i: usize = 0;
    while i < msgs.len()
        invariant
            i <= msgs.len(),
            results@.len() == i,
            forall|j: int|
                0 <= j < i ==> msgs.deep_view()[j].change_type == Some(
                    #[trigger] results.deep_view()[j],
                ),
        decreases msgs.len() - i,
    {
        let ghost before = results.deep_view();
        match from_change_msg(&msgs[i]) {
            Ok(c) => {
                let ghost cv = c@;
                results.push(c);
                proof {
                    assert(results.deep_view() =~= before.push(cv));
                }
            },
            Err(e) => {
                proof {
                    assert(msgs.deep_view()[i as int].change_type is None);
                }
                return Err(e);
            },
        }
        i += 1;
    }
    Ok(results)
}

/// Declares serde_json's value type so that parsed property trees can be
/// carried; the engine treats a parsed value as opaque.
#[verifier::external_type_specification]
#[verifier::external_body]
pub struct ExJsonValue(serde_json::Value);

/// Declares serde_json's error type, returned when a property blob fails to
/// parse.
#[verifier::external_type_specification]
#[verifier::external_body]
pub struct ExJsonError(serde_json::Error);

/// Whether a string is well-formed JSON, as serde_json's parser decides it;
/// the answer depends on the characters alone.
pub uninterp spec fn json_ok(s: Seq<char>) -> bool;

/// Relies on serde_json::from_str::<Value>: parses a JSON document, and its
/// success depends on the input characters alone (named by [`json_ok`]).
#[verifier::external_body]
fn parse_json(s: &str) -> (r: Result<serde_json::Value, serde_json::Error>)
    ensures
        r is Ok <==> json_ok(s@),
{
    serde_json::from_str(s)
}

impl ObjectMsg {
    /// The property blob of this object, if any.
    pub open spec fn spec_prop_json(&self) -> Option<Seq<char>> {
        match self.results {
            Some(results) => match results.properties {
                Some(prop) => Some(prop.prop_json@),
                None => None,
            },
            None => None,
        }
    }

    /// Parses the object's property tree: nothing when the object carries no
    /// properties, the parsed value when the blob is well-formed JSON, and
    /// the parser's error when it is not.
    pub fn get_properties(&self) -> (r: Result<
        Option<serde_json::Value>,
        serde_json::Error,
    >)
        ensures
            match r {
                Ok(v) => match v {
                    Some(_) => self.spec_prop_json() is Some && json_ok(
                        self.spec_prop_json().unwrap(),
                    ),
                    None => self.spec_prop_json() is None,
                },
                Err(_) => self.spec_prop_json() is Some && !json_ok(
                    self.spec_prop_json().unwrap(),
                ),
            },
    {
        let mut result: Option<serde_json::Value> = None;
        if let Some(results) = &self.results {
            if let Some(prop_msg) = &results.properties {
                match parse_json(prop_msg.prop_json.as_str()) {
                    Ok(json) => {
                        result = Some(json);
                    },
                    Err(e) => {
                        return Err(e);
                    },
                }
            }
        }
        Ok(result)
    }
}


} // verus!
