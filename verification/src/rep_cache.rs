//! The representation cache: per file and object, the latest client-visible
//! representation, and the extraction step that turns a committed change
//! into a representation job.
//!
//! Representations are opaque to the engine: a mesh's scalars, like every
//! coordinate, travel as 64-bit encodings that only the geometry layer
//! interprets.

use vstd::prelude::*;

use crate::msg::{change_target, ChangeMsg, ChangeType, Coord, Point3Msg};

verus! {

/// Errors of the representation cache.
#[derive(Debug)]
pub enum RepCacheError {
    /// No representation stored for the object.
    ObjNotFound(String),
    /// The change named no object: its change type was unset.
    NoChangeType,
}

/// A triangle mesh: flat positions, triangle indices, and a metadata blob.
#[derive(Debug, PartialEq)]
pub struct MeshDataMsg {
    pub positions: Vec<Coord>,
    pub indices: Vec<u64>,
    pub meta_json: String,
}

/// Mathematical view of a mesh.
#[verifier::ext_equal]
pub ghost struct MeshDataView {
    pub positions: Seq<Coord>,
    pub indices: Seq<u64>,
    pub meta_json: Seq<char>,
}

impl View for MeshDataMsg {
    type V = MeshDataView;

    open spec fn view(&self) -> MeshDataView {
        MeshDataView {
            positions: self.positions@,
            indices: self.indices@,
            meta_json: self.meta_json@,
        }
    }
}

impl DeepView for MeshDataMsg {
    type V = MeshDataView;

    open spec fn deep_view(&self) -> MeshDataView {
        self.view()
    }
}

impl Clone for MeshDataMsg {
    fn clone(&self) -> (res: Self)
        ensures
            res@ == self@,
    {
        let positions = self.positions.clone();
        let indices = self.indices.clone();
        proof {
            assert(positions@ =~= self.positions@);
            assert(indices@ =~= self.indices@);
        }
        MeshDataMsg { positions, indices, meta_json: self.meta_json.clone() }
    }
}

/// An instance of a shared definition: a transform (an opaque scalar
/// matrix), a bounding box, and a source reference.
#[derive(Debug, PartialEq)]
pub struct InstanceDataMsg {
    pub transform: Vec<Coord>,
    pub bottom_left: Option<Point3Msg>,
    pub top_right: Option<Point3Msg>,
    pub source: String,
    pub meta_json: String,
}

/// Mathematical view of an instance.
#[verifier::ext_equal]
pub ghost struct InstanceDataView {
    pub transform: Seq<Coord>,
    pub bottom_left: Option<Point3Msg>,
    pub top_right: Option<Point3Msg>,
    pub source: Seq<char>,
    pub meta_json: Seq<char>,
}

impl View for InstanceDataMsg {
    type V = InstanceDataView;

    open spec fn view(&self) -> InstanceDataView {
        InstanceDataView {
            transform: self.transform@,
            bottom_left: self.bottom_left,
            top_right: self.top_right,
            source: self.source@,
            meta_json: self.meta_json@,
        }
    }
}

impl DeepView for InstanceDataMsg {
    type V = InstanceDataView;

    open spec fn deep_view(&self) -> InstanceDataView {
        self.view()
    }
}

impl Clone for InstanceDataMsg {
    fn clone(&self) -> (res: Self)
        ensures
            res@ == self@,
    {
        let transform = self.transform.clone();
        proof {
            assert(transform@ =~= self.transform@);
        }
        InstanceDataMsg {
            transform,
            bottom_left: self.bottom_left,
            top_right: self.top_right,
            source: self.source.clone(),
            meta_json: self.meta_json.clone(),
        }
    }
}

/// A client-visible representation: nothing, a delete sentinel, a mesh, a
/// file reference, an instance, or an opaque JSON blob.
#[derive(Debug, PartialEq)]
pub enum UpdateOutputMsg {
    Empty,
    Delete,
    Mesh(MeshDataMsg),
    FileRef(String),
    Instance(InstanceDataMsg),
    OtherJson(String),
}

/// Mathematical view of a representation.
#[verifier::ext_equal]
pub ghost enum UpdateOutputView {
    Empty,
    Delete,
    Mesh(MeshDataView),
    FileRef(Seq<char>),
    Instance(InstanceDataView),
    OtherJson(Seq<char>),
}

impl View for UpdateOutputMsg {
    type V = UpdateOutputView;

    open spec fn view(&self) -> UpdateOutputView {
        match self {
            UpdateOutputMsg::Empty => UpdateOutputView::Empty,
            UpdateOutputMsg::Delete => UpdateOutputView::Delete,
            UpdateOutputMsg::Mesh(m) => UpdateOutputView::Mesh(m@),
            UpdateOutputMsg::FileRef(f) => UpdateOutputView::FileRef(f@),
            UpdateOutputMsg::Instance(i) => UpdateOutputView::Instance(i@),
            UpdateOutputMsg::OtherJson(s) => UpdateOutputView::OtherJson(s@),
        }
    }
}

impl DeepView for UpdateOutputMsg {
    type V = UpdateOutputView;

    open spec fn deep_view(&self) -> UpdateOutputView {
        self.view()
    }
}

impl Clone for UpdateOutputMsg {
    fn clone(&self) -> (res: Self)
        ensures
            res@ == self@,
    {
        match self {
            UpdateOutputMsg::Empty => UpdateOutputMsg::Empty,
            UpdateOutputMsg::Delete => UpdateOutputMsg::Delete,
            UpdateOutputMsg::Mesh(m) => UpdateOutputMsg::Mesh(m.clone()),
            UpdateOutputMsg::FileRef(f) => UpdateOutputMsg::FileRef(f.clone()),
            UpdateOutputMsg::Instance(i) => UpdateOutputMsg::Instance(i.clone()),
            UpdateOutputMsg::OtherJson(s) => UpdateOutputMsg::OtherJson(s.clone()),
        }
    }
}

/// One published representation update: which object of which file, for
/// which user, and the new output.
#[derive(Debug, PartialEq)]
pub struct UpdateChangeMsg {
    pub file: String,
    pub user: String,
    pub obj_id: String,
    pub update: Option<UpdateOutputMsg>,
}

/// Mathematical view of a representation update.
#[verifier::ext_equal]
pub ghost struct UpdateChangeView {
    pub file: Seq<char>,
    pub user: Seq<char>,
    pub obj_id: Seq<char>,
    pub update: Option<UpdateOutputView>,
}

impl View for UpdateChangeMsg {
    type V = UpdateChangeView;

    open spec fn view(&self) -> UpdateChangeView {
        UpdateChangeView {
            file: self.file@,
            user: self.user@,
            obj_id: self.obj_id@,
            update: self.update.deep_view(),
        }
    }
}

impl DeepView for UpdateChangeMsg {
    type V = UpdateChangeView;

    open spec fn deep_view(&self) -> UpdateChangeView {
        self.view()
    }
}

impl Clone for UpdateChangeMsg {
    fn clone(&self) -> (res: Self)
        ensures
            res@ == self@,
    {
        UpdateChangeMsg {
            file: self.file.clone(),
            user: self.user.clone(),
            obj_id: self.obj_id.clone(),
            update: match &self.update {
                Some(u) => Some(u.clone()),
                None => None,
            },
        }
    }
}

/// Extracts the representation job a committed change calls for: the object
/// and the user; an error when the change has no type.
pub fn representation_target(change: &ChangeMsg) -> (r: Result<(String, String), RepCacheError>)
    ensures
        match r {
            Ok(p) => change_target(change@) == Some(p.0@) && p.1@ == change@.user,
            Err(e) => e matches RepCacheError::NoChangeType && change_target(change@) is None,
        },
{
    let obj_id = match &change.change_type {
        Some(ChangeType::Add(object)) => object.id.clone(),
        Some(ChangeType::Modify(object)) => object.id.clone(),
        Some(ChangeType::Delete(del)) => del.id.clone(),
        None => {
            return Err(RepCacheError::NoChangeType);
        },
    };
    Ok((obj_id, change.user.clone()))
}

/// One stored representation, newest first per key.
pub struct RepRow {
    pub file: String,
    pub obj_id: String,
    pub rep: UpdateChangeMsg,
}

/// Mathematical view of one stored representation.
#[verifier::ext_equal]
pub ghost struct RepRowView {
    pub file: Seq<char>,
    pub obj_id: Seq<char>,
    pub rep: UpdateChangeView,
}

impl View for RepRow {
    type V = RepRowView;

    open spec fn view(&self) -> RepRowView {
        RepRowView { file: self.file@, obj_id: self.obj_id@, rep: self.rep@ }
    }
}

impl DeepView for RepRow {
    type V = RepRowView;

    open spec fn deep_view(&self) -> RepRowView {
        self.view()
    }
}

/// The newest stored representation of `obj` in `file`.
pub open spec fn first_rep(rows: Seq<RepRowView>, file: Seq<char>, obj: Seq<char>) -> Option<
    UpdateChangeView,
>
    decreases rows.len(),
{
    if rows.len() == 0 {
        None
    } else if rows.first().file == file && rows.first().obj_id == obj {
        Some(rows.first().rep)
    } else {
        first_rep(rows.drop_first(), file, obj)
    }
}

/// The representation cache over every file.
pub struct RepCache {
    rows: Vec<RepRow>,
}

impl RepCache {
    /// The stored representation of `obj` in `file`, if any.
    pub closed spec fn rep_of(self, file: Seq<char>, obj: Seq<char>) -> Option<UpdateChangeView> {
        first_rep(self.rows.deep_view(), file, obj)
    }

    /// An empty cache.
    pub fn new() -> (r: RepCache)
        ensures
            forall|f: Seq<char>, o: Seq<char>| #[trigger] r.rep_of(f, o) is None,
    {
        let r = RepCache { rows: Vec::new() };
        proof {
            assert(r.rows.deep_view() =~= Seq::<RepRowView>::empty());
        }
        r
    }

    /// Stores a published representation under the object it names,
    /// shadowing any older one.
    pub fn update_object_rep_cache(&mut self, file: &str, rep: UpdateChangeMsg)
        ensures
            final(self).rep_of(file@, rep@.obj_id) == Some(rep@),
            forall|f: Seq<char>, o: Seq<char>|
                !(f == file@ && o == rep@.obj_id) ==> #[trigger] final(self).rep_of(f, o) == old(
                    self,
                ).rep_of(f, o),
    {
        let obj_id = rep.obj_id.clone();
        let row = RepRow { file: String::from_str(file), obj_id, rep };
        let ghost rowv = row@;
        let ghost pre = self.rows.deep_view();
        self.rows.insert(0, row);
        proof {
            assert(self.rows.deep_view() =~= seq![rowv] + pre);
            assert((seq![rowv] + pre).drop_first() =~= pre);
        }
    }

    /// Reads the stored representation of one object, or an error naming it
    /// when none is stored.
    pub fn get_object_rep(&self, file: &str, key: &str) -> (r: Result<
        UpdateChangeMsg,
        RepCacheError,
    >)
        ensures
            match r {
                Ok(rep) => self.rep_of(file@, key@) == Some(rep@),
                Err(e) => {
                    &&& e matches RepCacheError::ObjNotFound(k) && k@ == key@
                    &&& self.rep_of(file@, key@) is None
                },
            },
    {
        let file_string = String::from_str(file);
        let key_string = String::from_str(key);
        let ghost d = self.rows.deep_view();
        let mut i: usize = 0;
        proof {
            assert(d.skip(0) =~= d);
        }
        while i < self.rows.len()
            invariant
                i <= self.rows.len(),
                d == self.rows.deep_view(),
                file_string@ == file@,
                key_string@ == key@,
                first_rep(d, file@, key@) == first_rep(d.skip(i as int), file@, key@),
            decreases self.rows.len() - i,
        {
            proof {
                assert(d.skip(i as int) =~= seq![d[i as int]] + d.skip(i + 1));
                assert((seq![d[i as int]] + d.skip(i + 1)).drop_first() =~= d.skip(i + 1));
            }
            if self.rows[i].file == file_string && self.rows[i].obj_id == key_string {
                return Ok(self.rows[i].rep.clone());
            }
            i += 1;
        }
        proof {
            assert(d.skip(self.rows@.len() as int) =~= Seq::<RepRowView>::empty());
        }
        Err(RepCacheError::ObjNotFound(key_string))
    }
}

} // verus!
