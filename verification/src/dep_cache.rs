//! The versioned dependency cache: for every referable piece of information
//! (a [`RefIdMsg`]), the set of its subscribers as of any past offset.
//!
//! Each write prepends a snapshot `(offset, subscriber set)`; a query at
//! offset `q` answers with the newest snapshot at or below `q`, or the empty
//! set when none exists yet.  The cache also stores, per object, the
//! dependency list it last saw, so that the next change can be diffed
//! positionally against it.

use vstd::prelude::*;

use crate::msg::{
    ChangeMsg, ChangeType, ChangeTypeView, ChangeView, DependenciesMsg, OptionReferenceMsg,
    RefIdMsg, RefIdView, ReferenceMsg, ReferenceView,
};
use crate::object_cache::lemma_filter_cons;

verus! {


/// How one positional reference slot changed between two versions of an
/// object's dependency list.
#[derive(Debug, Clone, Copy, PartialEq, Eq, Structural)]
pub enum DepChange {
    Add,
    Modify,
    Delete,
}

/// One subscriber-set snapshot: the subscribers of `ref_id` in `file` as of
/// `offset`.
pub struct SubsRow {
    pub file: String,
    pub ref_id: RefIdMsg,
    pub offset: i64,
    pub subs: Vec<RefIdMsg>,
}

/// Mathematical view of a snapshot.
pub ghost struct SubsRowView {
    pub file: Seq<char>,
    pub ref_id: RefIdView,
    pub offset: i64,
    pub subs: Seq<RefIdView>,
}

impl View for SubsRow {
    type V = SubsRowView;

    open spec fn view(&self) -> SubsRowView {
        SubsRowView {
            file: self.file@,
            ref_id: self.ref_id@,
            offset: self.offset,
            subs: self.subs.deep_view(),
        }
    }
}

impl DeepView for SubsRow {
    type V = SubsRowView;

    open spec fn deep_view(&self) -> SubsRowView {
        self.view()
    }
}

/// The dependency list an object carried when last seen, with the offset of
/// that sighting.
pub struct RefsRow {
    pub file: String,
    pub obj_id: String,
    pub offset: i64,
    pub deps: DependenciesMsg,
}

/// Mathematical view of a stored dependency list.
pub ghost struct RefsRowView {
    pub file: Seq<char>,
    pub obj_id: Seq<char>,
    pub offset: i64,
    pub deps: Seq<Option<ReferenceView>>,
}

impl View for RefsRow {
    type V = RefsRowView;

    open spec fn view(&self) -> RefsRowView {
        RefsRowView {
            file: self.file@,
            obj_id: self.obj_id@,
            offset: self.offset,
            deps: self.deps@,
        }
    }
}

impl DeepView for RefsRow {
    type V = RefsRowView;

    open spec fn deep_view(&self) -> RefsRowView {
        self.view()
    }
}

/// Selects the snapshots of one ref id in one file.
pub open spec fn subs_pred(file: Seq<char>, ref_id: RefIdView) -> spec_fn(SubsRowView) -> bool {
    |r: SubsRowView| r.file == file && r.ref_id == ref_id
}

/// The subscriber set as of offset `q`: the newest snapshot at or below `q`,
/// or the empty set when there is none.
pub open spec fn subs_at(snaps: Seq<SubsRowView>, q: i64) -> Seq<RefIdView>
    decreases snaps.len(),
{
    if snaps.len() == 0 {
        Seq::empty()
    } else if snaps.first().offset <= q {
        snaps.first().subs
    } else {
        subs_at(snaps.drop_first(), q)
    }
}

/// The newest stored dependency list of `obj` in `file`.
pub open spec fn first_refs(rows: Seq<RefsRowView>, file: Seq<char>, obj: Seq<char>) -> Option<
    (i64, Seq<Option<ReferenceView>>),
>
    decreases rows.len(),
{
    if rows.len() == 0 {
        None
    } else if rows.first().file == file && rows.first().obj_id == obj {
        Some((rows.first().offset, rows.first().deps))
    } else {
        first_refs(rows.drop_first(), file, obj)
    }
}

/// A positional reference slot, with absence beyond the end of the list.
pub open spec fn slot_at(refs: Seq<Option<ReferenceView>>, i: int) -> Option<ReferenceView> {
    if 0 <= i < refs.len() {
        refs[i]
    } else {
        None
    }
}

/// The positional diff of two dependency lists at index `i`: a slot that
/// appears is an add, one that stays bound is a modify, one that disappears
/// is a delete of the old reference.
pub open spec fn diff_at(
    new: Seq<Option<ReferenceView>>,
    old: Seq<Option<ReferenceView>>,
    i: int,
) -> Option<(ReferenceView, DepChange)> {
    match (slot_at(new, i), slot_at(old, i)) {
        (Some(new_ref), Some(_)) => Some((new_ref, DepChange::Modify)),
        (Some(new_ref), None) => Some((new_ref, DepChange::Add)),
        (None, Some(old_ref)) => Some((old_ref, DepChange::Delete)),
        (None, None) => None,
    }
}

/// The larger of two lengths.
pub open spec fn max_len(a: nat, b: nat) -> nat {
    if a >= b {
        a
    } else {
        b
    }
}

/// Diffs two dependency lists position by position, as far as the longer one
/// reaches.
pub fn get_ref_diffs(new_refs: &Vec<OptionReferenceMsg>, old_refs: &Vec<OptionReferenceMsg>) -> (r:
    Vec<Option<(ReferenceMsg, DepChange)>>)
    ensures
        r@.len() == max_len(new_refs@.len(), old_refs@.len()),
        forall|i: int|
            0 <= i < r@.len() ==> match #[trigger] r@[i] {
                Some(p) => diff_at(new_refs.deep_view(), old_refs.deep_view(), i) == Some(
                    (p.0@, p.1),
                ),
                None => diff_at(new_refs.deep_view(), old_refs.deep_view(), i) is None,
            },
{
    let length = if new_refs.len() >= old_refs.len() {
        new_refs.len()
    } else {
        old_refs.len()
    };
    let mut results: Vec<Option<(ReferenceMsg, DepChange)>> = Vec::new();
    let mut i: usize = 0;
    while i < length
        invariant
            i <= length,
            length == max_len(new_refs@.len(), old_refs@.len()),
            results@.len() == i,
            forall|j: int|
                0 <= j < i ==> match #[trigger] results@[j] {
                    Some(p) => diff_at(new_refs.deep_view(), old_refs.deep_view(), j) == Some(
                        (p.0@, p.1),
                    ),
                    None => diff_at(new_refs.deep_view(), old_refs.deep_view(), j) is None,
                },
        decreases length - i,
    {
        let new_ref_opt: Option<&ReferenceMsg> = if i < new_refs.len() {
            match &new_refs[i].reference {
                Some(reference) => Some(reference),
                None => None,
            }
        } else {
            None
        };
        let old_ref_opt: Option<&ReferenceMsg> = if i < old_refs.len() {
            match &old_refs[i].reference {
                Some(reference) => Some(reference),
                None => None,
            }
        } else {
            None
        };
        let change_opt: Option<(ReferenceMsg, DepChange)> = match new_ref_opt {
            Some(refer) => match old_ref_opt {
                Some(_) => Some((refer.clone(), DepChange::Modify)),
                None => Some((refer.clone(), DepChange::Add)),
            },
            None => match old_ref_opt {
                Some(old_refer) => Some((old_refer.clone(), DepChange::Delete)),
                None => None,
            },
        };
        results.push(change_opt);
        i += 1;
    }
    results
}

/// The dependency cache over every file.
pub struct DepCache {
    subs: Vec<SubsRow>,
    refs: Vec<RefsRow>,
}

impl DepCache {
    /// The snapshots of `ref_id` in `file`, newest first.
    pub closed spec fn snaps(self, file: Seq<char>, ref_id: RefIdView) -> Seq<SubsRowView> {
        self.subs.deep_view().filter(subs_pred(file, ref_id))
    }

    /// The subscriber set of `ref_id` in `file` as of offset `q`.
    pub open spec fn subscribers(self, file: Seq<char>, ref_id: RefIdView, q: i64) -> Seq<
        RefIdView,
    > {
        subs_at(self.snaps(file, ref_id), q)
    }

    /// The newest stored dependency list of `obj` in `file`.
    pub closed spec fn obj_refs(self, file: Seq<char>, obj: Seq<char>) -> Option<
        (i64, Seq<Option<ReferenceView>>),
    > {
        first_refs(self.refs.deep_view(), file, obj)
    }

    /// An empty cache: no snapshots, no stored dependency lists.
    pub fn new() -> (r: DepCache)
        ensures
            forall|f: Seq<char>, rid: RefIdView| #[trigger] r.snaps(f, rid) == Seq::<
                SubsRowView,
            >::empty(),
            forall|f: Seq<char>, o: Seq<char>| #[trigger] r.obj_refs(f, o) is None,
    {
        let r = DepCache { subs: Vec::new(), refs: Vec::new() };
        proof {
            assert(r.subs.deep_view() =~= Seq::<SubsRowView>::empty());
            assert(r.refs.deep_view() =~= Seq::<RefsRowView>::empty());
            assert forall|f: Seq<char>, rid: RefIdView| #[trigger] r.snaps(f, rid) == Seq::<
                SubsRowView,
            >::empty() by {
                reveal(Seq::filter);
            }
        }
        r
    }

    /// Prepends a subscriber-set snapshot for `ref_id` at `offset`.
    /// Queries at or above `offset` now see the new set; queries below it are
    /// untouched.
    pub fn update_ref_id_subscribers(
        &mut self,
        file: &str,
        ref_id: &RefIdMsg,
        offset: i64,
        subs: Vec<RefIdMsg>,
    )
        ensures
            ({
                let row = SubsRowView {
                    file: file@,
                    ref_id: ref_id@,
                    offset,
                    subs: subs.deep_view(),
                };
                &&& final(self).snaps(file@, ref_id@) == seq![row] + old(self).snaps(
                    file@,
                    ref_id@,
                )
                &&& forall|f: Seq<char>, rid: RefIdView|
                    !(f == file@ && rid == ref_id@) ==> #[trigger] final(self).snaps(f, rid) == old(
                        self,
                    ).snaps(f, rid)
                &&& forall|q: i64|
                    offset <= q ==> #[trigger] final(self).subscribers(file@, ref_id@, q)
                        == subs.deep_view()
                &&& forall|q: i64|
                    q < offset ==> #[trigger] final(self).subscribers(file@, ref_id@, q) == old(
                        self,
                    ).subscribers(file@, ref_id@, q)
            }),
            forall|f: Seq<char>, o: Seq<char>| #[trigger] final(self).obj_refs(f, o) == old(
                self,
            ).obj_refs(f, o),
    {
        let row = SubsRow { file: String::from_str(file), ref_id: ref_id.clone(), offset, subs };
        let ghost rowv = row@;
        let ghost pre = self.subs.deep_view();
        self.subs.insert(0, row);
        proof {
            assert(self.subs.deep_view() =~= seq![rowv] + pre);
            lemma_filter_cons(rowv, pre, subs_pred(file@, ref_id@));
            assert forall|f: Seq<char>, rid: RefIdView| !(f == file@ && rid == ref_id@) implies #[trigger] self.snaps(
                f,
                rid,
            ) == old(self).snaps(f, rid) by {
                lemma_filter_cons(rowv, pre, subs_pred(f, rid));
            }
            let cons = self.snaps(file@, ref_id@);
            assert(cons.drop_first() =~= old(self).snaps(file@, ref_id@));
            assert(cons.first() == rowv);
        }
    }

    /// Reads the subscriber set of `ref_id` in `file` as of `before_or_equal`.
    pub fn get_ref_id_subs(&self, file: &str, ref_id: &RefIdMsg, before_or_equal: i64) -> (r: Vec<
        RefIdMsg,
    >)
        ensures
            r.deep_view() == self.subscribers(file@, ref_id@, before_or_equal),
    {
        let file_string = String::from_str(file);
        let ghost d = self.subs.deep_view();
        let ghost pred = subs_pred(file@, ref_id@);
        let mut i: usize = 0;
        proof {
            assert(d.skip(0) =~= d);
        }
        while i < self.subs.len()
            invariant
                i <= self.subs.len(),
                d == self.subs.deep_view(),
                pred == subs_pred(file_string@, ref_id@),
                file_string@ == file@,
                subs_at(d.filter(pred), before_or_equal) == subs_at(
                    d.skip(i as int).filter(pred),
                    before_or_equal,
                ),
            decreases self.subs.len() - i,
        {
            let row = &self.subs[i];
            let ghost rowv = d[i as int];
            proof {
                assert(d.skip(i as int) =~= seq![rowv] + d.skip(i + 1));
                lemma_filter_cons(rowv, d.skip(i + 1), pred);
                assert((seq![rowv] + d.skip(i + 1).filter(pred)).drop_first() =~= d.skip(
                    i + 1,
                ).filter(pred));
            }
            if row.file == file_string && row.ref_id == *ref_id && row.offset <= before_or_equal {
                let result = row.subs.clone();
                proof {
                    assert forall|k: int|
                        0 <= k < row.subs@.len() implies result.deep_view()[k]
                        == row.subs.deep_view()[k] by {
                        assert(cloned::<RefIdMsg>(row.subs[k], result[k]));
                    }
                    assert(result.deep_view() =~= row.subs.deep_view());
                }
                return result;
            }
            i += 1;
        }
        proof {
            assert(d.skip(self.subs.len() as int) =~= Seq::<SubsRowView>::empty());
            reveal(Seq::filter);
        }
        Vec::new()
    }

    /// Stores the dependency list `obj` carried at `offset`, shadowing any
    /// older one.
    pub fn store_obj_refs(
        &mut self,
        file: &str,
        obj_id: &str,
        refs: &DependenciesMsg,
        offset: i64,
    )
        ensures
            final(self).obj_refs(file@, obj_id@) == Some((offset, refs@)),
            forall|f: Seq<char>, o: Seq<char>|
                !(f == file@ && o == obj_id@) ==> #[trigger] final(self).obj_refs(f, o) == old(
                    self,
                ).obj_refs(f, o),
            forall|f: Seq<char>, rid: RefIdView| #[trigger] final(self).snaps(f, rid) == old(
                self,
            ).snaps(f, rid),
            forall|f: Seq<char>, rid: RefIdView, q: i64| #[trigger] final(self).subscribers(
                f,
                rid,
                q,
            ) == old(self).subscribers(f, rid, q),
    {
        let row = RefsRow {
            file: String::from_str(file),
            obj_id: String::from_str(obj_id),
            offset,
            deps: refs.clone(),
        };
        let ghost rowv = row@;
        let ghost pre = self.refs.deep_view();
        self.refs.insert(0, row);
        proof {
            assert(self.refs.deep_view() =~= seq![rowv] + pre);
            assert((seq![rowv] + pre).drop_first() =~= pre);
        }
    }

    /// Reads the stored dependency list of `obj` in `file`, with the offset
    /// it was stored at.
    pub fn get_obj_refs(&self, file: &str, obj_id: &str) -> (r: Option<(i64, DependenciesMsg)>)
        ensures
            match r {
                Some(p) => self.obj_refs(file@, obj_id@) == Some((p.0, p.1@)),
                None => self.obj_refs(file@, obj_id@) is None,
            },
    {
        let file_string = String::from_str(file);
        let obj_string = String::from_str(obj_id);
        let ghost d = self.refs.deep_view();
        let mut i: usize = 0;
        proof {
            assert(d.skip(0) =~= d);
        }
        while i < self.refs.len()
            invariant
                i <= self.refs.len(),
                d == self.refs.deep_view(),
                file_string@ == file@,
                obj_string@ == obj_id@,
                first_refs(d, file@, obj_id@) == first_refs(d.skip(i as int), file@, obj_id@),
            decreases self.refs.len() - i,
        {
            proof {
                assert(d.skip(i as int) =~= seq![d[i as int]] + d.skip(i + 1));
                assert((seq![d[i as int]] + d.skip(i + 1)).drop_first() =~= d.skip(i + 1));
            }
            let row = &self.refs[i];
            if row.file == file_string && row.obj_id == obj_string {
                return Some((row.offset, row.deps.clone()));
            }
            i += 1;
        }
        proof {
            assert(d.skip(self.refs.len() as int) =~= Seq::<RefsRowView>::empty());
        }
        None
    }
}


/// Whether the accumulator of pending subscriber-set updates holds an entry
/// for `k`.
pub open spec fn acc_has(acc: Seq<(RefIdView, Seq<RefIdView>)>, k: RefIdView) -> bool {
    exists|i: int| 0 <= i < acc.len() && acc[i].0 == k
}

/// The pending subscriber set of `k` in the accumulator.
pub open spec fn acc_get(acc: Seq<(RefIdView, Seq<RefIdView>)>, k: RefIdView) -> Seq<RefIdView> {
    acc[choose|i: int| 0 <= i < acc.len() && acc[i].0 == k].1
}

/// Whether the accumulator holds each key at most once.
pub open spec fn acc_keys_distinct(acc: Seq<(RefIdView, Seq<RefIdView>)>) -> bool {
    forall|i: int, j: int| 0 <= i < j < acc.len() ==> acc[i].0 != acc[j].0
}

/// The accumulator read as a map from ref id to pending subscriber set.
pub open spec fn acc_model(acc: Seq<(RefIdView, Seq<RefIdView>)>) -> Map<RefIdView, Set<RefIdView>> {
    Map::new(|k: RefIdView| acc_has(acc, k), |k: RefIdView| acc_get(acc, k).to_set())
}

/// One diff applied to the pending map: the owner enters (or leaves) the
/// subscriber set of the other end, starting from the set stored in the
/// cache as of `offset` when the key is touched for the first time.
pub open spec fn step_sub(
    pre: DepCache,
    file: Seq<char>,
    offset: i64,
    m: Map<RefIdView, Set<RefIdView>>,
    refv: ReferenceView,
    change: DepChange,
) -> Map<RefIdView, Set<RefIdView>> {
    match (refv.owner, refv.other) {
        (Some(owner), Some(other)) => {
            let base = if m.dom().contains(other) {
                m[other]
            } else {
                pre.subscribers(file, other, offset).to_set()
            };
            let updated = match change {
                DepChange::Delete => base.remove(owner),
                _ => base.insert(owner),
            };
            m.insert(other, updated)
        },
        _ => m,
    }
}

/// A sequence of diffs applied to the pending map, first to last.
pub open spec fn fold_diffs(
    pre: DepCache,
    file: Seq<char>,
    offset: i64,
    diffs: Seq<Option<(ReferenceView, DepChange)>>,
    m: Map<RefIdView, Set<RefIdView>>,
) -> Map<RefIdView, Set<RefIdView>>
    decreases diffs.len(),
{
    if diffs.len() == 0 {
        m
    } else {
        let m1 = match diffs.first() {
            Some(p) => step_sub(pre, file, offset, m, p.0, p.1),
            None => m,
        };
        fold_diffs(pre, file, offset, diffs.drop_first(), m1)
    }
}

/// Membership in a sequence with one element appended.
pub proof fn lemma_contains_push<A>(s: Seq<A>, x: A, y: A)
    ensures
        s.push(x).contains(y) == (s.contains(y) || y == x),
{
    if s.contains(y) {
        let w = choose|w: int| 0 <= w < s.len() && s[w] == y;
        assert(s.push(x)[w] == y);
    }
    if y == x {
        assert(s.push(x)[s.len() as int] == y);
    }
    if s.push(x).contains(y) && y != x {
        let w = choose|w: int| 0 <= w < s.push(x).len() && s.push(x)[w] == y;
        assert(s[w] == y);
    }
}

/// Appending one more diff folds it onto the result of the rest.
pub proof fn lemma_fold_snoc(
    pre: DepCache,
    file: Seq<char>,
    offset: i64,
    diffs: Seq<Option<(ReferenceView, DepChange)>>,
    x: Option<(ReferenceView, DepChange)>,
    m: Map<RefIdView, Set<RefIdView>>,
)
    ensures
        fold_diffs(pre, file, offset, diffs.push(x), m) == match x {
            Some(p) => step_sub(pre, file, offset, fold_diffs(pre, file, offset, diffs, m), p.0, p.1),
            None => fold_diffs(pre, file, offset, diffs, m),
        },
    decreases diffs.len(),
{
    if diffs.len() == 0 {
        let pushed = diffs.push(x);
        assert(pushed.first() == x);
        let m1 = match pushed.first() {
            Some(p) => step_sub(pre, file, offset, m, p.0, p.1),
            None => m,
        };
        assert(fold_diffs(pre, file, offset, diffs, m) == m);
        assert(pushed.drop_first() =~= Seq::<Option<(ReferenceView, DepChange)>>::empty());
        assert(fold_diffs(pre, file, offset, pushed, m) == fold_diffs(
            pre,
            file,
            offset,
            pushed.drop_first(),
            m1,
        ));
        assert(fold_diffs(pre, file, offset, pushed.drop_first(), m1) == m1);
    } else {
        let m1 = match diffs.first() {
            Some(p) => step_sub(pre, file, offset, m, p.0, p.1),
            None => m,
        };
        assert(diffs.push(x).first() == diffs.first());
        assert(diffs.push(x).drop_first() =~= diffs.drop_first().push(x));
        lemma_fold_snoc(pre, file, offset, diffs.drop_first(), x, m1);
    }
}

/// The positional diffs of two dependency lists, as far as the longer one
/// reaches.
pub open spec fn diffs_of(
    new: Seq<Option<ReferenceView>>,
    old: Seq<Option<ReferenceView>>,
) -> Seq<Option<(ReferenceView, DepChange)>> {
    Seq::new(max_len(new.len(), old.len()), |i: int| diff_at(new, old, i))
}

/// The cache looks the same at every coordinate.
pub open spec fn dep_cache_unchanged(pre: DepCache, post: DepCache) -> bool {
    &&& forall|f: Seq<char>, rid: RefIdView, q: i64| #[trigger] post.subscribers(f, rid, q)
        == pre.subscribers(f, rid, q)
    &&& forall|f: Seq<char>, o: Seq<char>| #[trigger] post.obj_refs(f, o) == pre.obj_refs(f, o)
}

/// What one diffed dependency-list update does to the subscriber index of
/// `file` at `offset`: touched ref ids answer queries at or after `offset`
/// with the folded set, everything else is untouched.
pub open spec fn applied_diffs(
    pre: DepCache,
    post: DepCache,
    file: Seq<char>,
    offset: i64,
    diffs: Seq<Option<(ReferenceView, DepChange)>>,
) -> bool {
    let m = fold_diffs(pre, file, offset, diffs, Map::empty());
    &&& forall|rid: RefIdView, q: i64|
        m.dom().contains(rid) && offset <= q ==> #[trigger] post.subscribers(file, rid, q).to_set()
            == m[rid]
    &&& forall|rid: RefIdView, q: i64|
        m.dom().contains(rid) && q < offset ==> #[trigger] post.subscribers(file, rid, q)
            == pre.subscribers(file, rid, q)
    &&& forall|rid: RefIdView, q: i64|
        !m.dom().contains(rid) ==> #[trigger] post.subscribers(file, rid, q) == pre.subscribers(
            file,
            rid,
            q,
        )
    &&& forall|f2: Seq<char>, rid: RefIdView, q: i64|
        f2 != file ==> #[trigger] post.subscribers(f2, rid, q) == pre.subscribers(f2, rid, q)
}

/// Puts `item` into the subscriber list if it is not there yet.
fn subs_insert(list: &mut Vec<RefIdMsg>, item: &RefIdMsg)
    ensures
        forall|x: RefIdView| #[trigger] final(list).deep_view().contains(x) == (x == item@ || old(
            list,
        ).deep_view().contains(x)),
{
    let ghost pre = list.deep_view();
    let mut i: usize = 0;
    while i < list.len()
        invariant
            i <= list.len(),
            pre == list.deep_view(),
            forall|j: int| 0 <= j < i ==> pre[j] != item@,
        decreases list.len() - i,
    {
        if list[i] == *item {
            proof {
                assert(pre[i as int] == item@);
                assert forall|x: RefIdView| #[trigger] pre.contains(x) == (x == item@
                    || pre.contains(x)) by {
                    if x == item@ {
                        assert(pre.contains(x));
                    }
                }
            }
            return ;
        }
        i += 1;
    }
    list.push(item.clone());
    proof {
        let post = list.deep_view();
        assert(post =~= pre.push(item@));
        assert forall|x: RefIdView| #[trigger] post.contains(x) == (x == item@ || pre.contains(
            x,
        )) by {
            lemma_contains_push(pre, item@, x);
        }
    }
}

/// Takes every occurrence of `item` out of the subscriber list.
fn subs_remove(list: &mut Vec<RefIdMsg>, item: &RefIdMsg)
    ensures
        forall|x: RefIdView| #[trigger] final(list).deep_view().contains(x) == (x != item@ && old(
            list,
        ).deep_view().contains(x)),
{
    let ghost pre = list.deep_view();
    let mut out: Vec<RefIdMsg> = Vec::new();
    let mut i: usize = 0;
    while i < list.len()
        invariant
            i <= list.len(),
            pre == list.deep_view(),
            forall|x: RefIdView| #[trigger] out.deep_view().contains(x) == (x != item@
                && pre.take(i as int).contains(x)),
        decreases list.len() - i,
    {
        let ghost out_pre = out.deep_view();
        let keep = !(list[i] == *item);
        if keep {
            out.push(list[i].clone());
        }
        proof {
            let out_post = out.deep_view();
            let this = pre[i as int];
            assert(pre.take(i + 1) =~= pre.take(i as int).push(this));
            if keep {
                assert(out_post =~= out_pre.push(this));
            }
            assert forall|x: RefIdView| #[trigger] out_post.contains(x) == (x != item@ && pre.take(
                i + 1,
            ).contains(x)) by {
                lemma_contains_push(pre.take(i as int), this, x);
                if keep {
                    lemma_contains_push(out_pre, this, x);
                }
            }
        }
        i += 1;
    }
    proof {
        assert(pre.take(list.len() as int) =~= pre);
    }
    *list = out;
}

impl DepCache {
    /// Folds one reference diff into the accumulator of pending subscriber
    /// sets, loading the base set from this cache on first touch.
    pub fn populate_changed_subs(
        &self,
        file: &str,
        offset: i64,
        refer: &ReferenceMsg,
        change_type: DepChange,
        changed: &mut Vec<(RefIdMsg, Vec<RefIdMsg>)>,
    )
        requires
            acc_keys_distinct(old(changed).deep_view()),
        ensures
            acc_keys_distinct(final(changed).deep_view()),
            acc_model(final(changed).deep_view()) == step_sub(
                *self,
                file@,
                offset,
                acc_model(old(changed).deep_view()),
                refer@,
                change_type,
            ),
    {
        let (owner, other) = match (&refer.owner, &refer.other) {
            (Some(owner), Some(other)) => (owner, other),
            _ => {
                proof {
                    assert(acc_model(changed.deep_view()) =~= step_sub(
                        *self,
                        file@,
                        offset,
                        acc_model(changed.deep_view()),
                        refer@,
                        change_type,
                    ));
                }
                return ;
            },
        };
        let ghost pre = changed.deep_view();
        // Find the accumulator entry for `other`, loading it on first touch.
        let mut idx: usize = 0;
        let mut found = false;
        while idx < changed.len()
            invariant_except_break
                idx <= changed.len(),
                !found,
                pre == changed.deep_view(),
                forall|j: int| 0 <= j < idx ==> pre[j].0 != other@,
            ensures
                pre == changed.deep_view(),
                found ==> idx < changed.len() && pre[idx as int].0 == other@,
                !found ==> idx == pre.len(),
                !found ==> forall|j: int| 0 <= j < pre.len() ==> pre[j].0 != other@,
            decreases changed.len() - idx,
        {
            if changed[idx].0 == *other {
                found = true;
                break ;
            }
            idx += 1;
        }
        if !found {
            let subs = self.get_ref_id_subs(file, other, offset);
            changed.push((other.clone(), subs));
            proof {
                let post = changed.deep_view();
                assert(post =~= pre.push(
                    (other@, self.subscribers(file@, other@, offset)),
                ));
            }
        }
        let ghost loaded = changed.deep_view();
        proof {
            assert(idx < changed.len() && loaded[idx as int].0 == other@);
            assert(acc_keys_distinct(loaded)) by {
                if !found {
                    assert forall|i2: int, j2: int|
                        0 <= i2 < j2 < loaded.len() implies loaded[i2].0 != loaded[j2].0 by {
                        if j2 == loaded.len() - 1 {
                            assert(loaded[i2].0 == pre[i2].0);
                        }
                    }
                }
            }
        }
        // Take the entry out, rewrite its set, and put it back in place.
        let mut pair = changed.remove(idx);
        match change_type {
            DepChange::Add | DepChange::Modify => subs_insert(&mut pair.1, owner),
            DepChange::Delete => subs_remove(&mut pair.1, owner),
        }
        let ghost new_list = pair.1.deep_view();
        changed.insert(idx, pair);
        proof {
            let post = changed.deep_view();
            assert(post =~= loaded.update(idx as int, (other@, new_list)));
            assert forall|i2: int, j2: int|
                0 <= i2 < j2 < post.len() implies post[i2].0 != post[j2].0 by {
                assert(post[i2].0 == loaded[i2].0);
                assert(post[j2].0 == loaded[j2].0);
            }
            let m_old = acc_model(pre);
            let m_new = acc_model(post);
            let base = if m_old.dom().contains(other@) {
                m_old[other@]
            } else {
                self.subscribers(file@, other@, offset).to_set()
            };
            let updated = match change_type {
                DepChange::Delete => base.remove(owner@),
                _ => base.insert(owner@),
            };
            // The entry taken as the base is the unique one for `other`.
            assert(loaded[idx as int].1.to_set() == base) by {
                if found {
                    assert(acc_has(pre, other@));
                    let w = choose|i2: int| 0 <= i2 < pre.len() && pre[i2].0 == other@;
                    assert(w == idx);
                } else {
                    assert(!acc_has(pre, other@)) by {
                        if acc_has(pre, other@) {
                            let w = choose|i2: int|
                                0 <= i2 < pre.len() && pre[i2].0 == other@;
                            assert(loaded[w].0 == other@);
                        }
                    }
                    assert(loaded[idx as int].1 == self.subscribers(file@, other@, offset));
                }
            }
            // Membership of the rewritten list matches the set operation.
            assert(new_list.to_set() =~= updated) by {
                assert forall|x: RefIdView| new_list.to_set().contains(x) == updated.contains(
                    x,
                ) by {
                    assert(new_list.contains(x) == new_list.to_set().contains(x));
                    assert(loaded[idx as int].1.contains(x) == loaded[idx as int].1.to_set()
                        .contains(x));
                }
            }
            assert(m_new =~= step_sub(*self, file@, offset, m_old, refer@, change_type)) by {
                let target = step_sub(*self, file@, offset, m_old, refer@, change_type);
                assert forall|k: RefIdView| m_new.dom().contains(k) == target.dom().contains(
                    k,
                ) by {
                    if k == other@ {
                        assert(post[idx as int].0 == k);
                        assert(acc_has(post, k));
                    } else {
                        assert(acc_has(post, k) == acc_has(pre, k)) by {
                            if acc_has(post, k) {
                                let w = choose|w: int| 0 <= w < post.len() && post[w].0 == k;
                                if found {
                                    assert(pre[w].0 == k);
                                } else {
                                    assert(w != loaded.len() - 1);
                                    assert(pre[w].0 == k);
                                }
                            }
                            if acc_has(pre, k) {
                                let w = choose|w: int| 0 <= w < pre.len() && pre[w].0 == k;
                                assert(post[w].0 == k);
                            }
                        }
                    }
                }
                assert forall|k: RefIdView|
                    m_new.dom().contains(k) && target.dom().contains(k) implies m_new[k]
                    == target[k] by {
                    let w = choose|w: int| 0 <= w < post.len() && post[w].0 == k;
                    assert(acc_get(post, k) == post[w].1);
                    if k == other@ {
                        assert(w == idx);
                    } else {
                        assert(w != idx);
                        assert(pre[w] == post[w] || (!found && loaded[w] == post[w]
                            && w < pre.len() && pre[w] == loaded[w]));
                        assert(acc_has(pre, k));
                        let v = choose|v: int| 0 <= v < pre.len() && pre[v].0 == k;
                        assert(v == w);
                        assert(acc_get(pre, k) == pre[v].1);
                    }
                }
            }
        }
    }
}



/// The cache after one consumed change: an add writes the object's list and
/// adds its owner ends as subscribers; a modify diffs against the stored
/// list; a delete turns every stored slot into a tombstone and withdraws its
/// subscriptions; a change without a type (or without a dependency list)
/// leaves the cache alone.
pub open spec fn dep_update_effect(
    pre: DepCache,
    post: DepCache,
    file: Seq<char>,
    offset: i64,
    c: ChangeView,
) -> bool {
    match c.change_type {
        Some(ChangeTypeView::Add(obj)) => match obj.dependencies {
            Some(d) => {
                &&& applied_diffs(pre, post, file, offset, diffs_of(d, Seq::empty()))
                &&& post.obj_refs(file, obj.id) == Some((offset, d))
                &&& forall|f: Seq<char>, o: Seq<char>|
                    !(f == file && o == obj.id) ==> #[trigger] post.obj_refs(f, o)
                        == pre.obj_refs(f, o)
            },
            None => dep_cache_unchanged(pre, post),
        },
        Some(ChangeTypeView::Modify(obj)) => match obj.dependencies {
            Some(d) => {
                let od = match pre.obj_refs(file, obj.id) {
                    Some(p) => p.1,
                    None => Seq::empty(),
                };
                &&& applied_diffs(pre, post, file, offset, diffs_of(d, od))
                &&& post.obj_refs(file, obj.id) == Some((offset, d))
                &&& forall|f: Seq<char>, o: Seq<char>|
                    !(f == file && o == obj.id) ==> #[trigger] post.obj_refs(f, o)
                        == pre.obj_refs(f, o)
            },
            None => dep_cache_unchanged(pre, post),
        },
        Some(ChangeTypeView::Delete(id)) => match pre.obj_refs(file, id) {
            Some(p) => {
                &&& applied_diffs(pre, post, file, offset, diffs_of(Seq::empty(), p.1))
                &&& match post.obj_refs(file, id) {
                    Some(t) => {
                        &&& t.0 == offset
                        &&& t.1.len() == p.1.len()
                        &&& forall|i: int| 0 <= i < t.1.len() ==> #[trigger] t.1[i] is None
                    },
                    None => false,
                }
                &&& forall|f: Seq<char>, o: Seq<char>|
                    !(f == file && o == id) ==> #[trigger] post.obj_refs(f, o) == pre.obj_refs(f, o)
            },
            None => dep_cache_unchanged(pre, post),
        },
        None => dep_cache_unchanged(pre, post),
    }
}

impl DepCache {
    /// Writes every pending subscriber set as a snapshot at `offset`.
    fn write_changed_subs(&mut self, file: &str, offset: i64, changed: Vec<(RefIdMsg, Vec<RefIdMsg>)>)
        requires
            acc_keys_distinct(changed.deep_view()),
        ensures
            ({
                let acc = changed.deep_view();
                &&& forall|rid: RefIdView, q: i64|
                    acc_has(acc, rid) && offset <= q ==> #[trigger] final(self).subscribers(
                        file@,
                        rid,
                        q,
                    ) == acc_get(acc, rid)
                &&& forall|rid: RefIdView, q: i64|
                    acc_has(acc, rid) && q < offset ==> #[trigger] final(self).subscribers(
                        file@,
                        rid,
                        q,
                    ) == old(self).subscribers(file@, rid, q)
                &&& forall|rid: RefIdView, q: i64|
                    !acc_has(acc, rid) ==> #[trigger] final(self).subscribers(file@, rid, q) == old(
                        self,
                    ).subscribers(file@, rid, q)
                &&& forall|f2: Seq<char>, rid: RefIdView, q: i64|
                    f2 != file@ ==> #[trigger] final(self).subscribers(f2, rid, q) == old(
                        self,
                    ).subscribers(f2, rid, q)
                &&& forall|f: Seq<char>, o: Seq<char>| #[trigger] final(self).obj_refs(f, o)
                    == old(self).obj_refs(f, o)
            }),
    {
        let ghost acc = changed.deep_view();
        let mut k: usize = 0;
        while k < changed.len()
            invariant
                k <= changed.len(),
                acc == changed.deep_view(),
                acc_keys_distinct(acc),
                forall|rid: RefIdView, q: i64|
                    (exists|j: int| 0 <= j < k && acc[j].0 == rid) && offset <= q
                        ==> #[trigger] self.subscribers(file@, rid, q) == acc_get(acc, rid),
                forall|rid: RefIdView, q: i64|
                    (exists|j: int| 0 <= j < k && acc[j].0 == rid) && q < offset
                        ==> #[trigger] self.subscribers(file@, rid, q) == old(self).subscribers(
                        file@,
                        rid,
                        q,
                    ),
                forall|rid: RefIdView, q: i64|
                    !(exists|j: int| 0 <= j < k && acc[j].0 == rid)
                        ==> #[trigger] self.subscribers(file@, rid, q) == old(self).subscribers(
                        file@,
                        rid,
                        q,
                    ),
                forall|f2: Seq<char>, rid: RefIdView, q: i64|
                    f2 != file@ ==> #[trigger] self.subscribers(f2, rid, q) == old(
                        self,
                    ).subscribers(f2, rid, q),
                forall|f: Seq<char>, o: Seq<char>| #[trigger] self.obj_refs(f, o) == old(
                    self,
                ).obj_refs(f, o),
            decreases changed.len() - k,
        {
            let subs = changed[k].1.clone();
            proof {
                assert forall|w: int|
                    0 <= w < changed[k as int].1@.len() implies subs.deep_view()[w]
                    == changed[k as int].1.deep_view()[w] by {
                    assert(cloned::<RefIdMsg>(changed[k as int].1[w], subs[w]));
                }
                assert(subs.deep_view() =~= acc[k as int].1);
            }
            let ghost mid = *self;
            self.update_ref_id_subscribers(file, &changed[k].0, offset, subs);
            proof {
                let this_rid = acc[k as int].0;
                assert(acc_get(acc, this_rid) == acc[k as int].1) by {
                    assert(acc_has(acc, this_rid));
                    let w = choose|w: int| 0 <= w < acc.len() && acc[w].0 == this_rid;
                    assert(w == k);
                }
                assert forall|rid: RefIdView, q: i64|
                    (exists|j: int| 0 <= j < k + 1 && acc[j].0 == rid) && offset <= q
                        implies #[trigger] self.subscribers(file@, rid, q) == acc_get(
                    acc,
                    rid,
                ) by {
                    let j = choose|j: int| 0 <= j < k + 1 && acc[j].0 == rid;
                    if rid == this_rid {
                        assert(self.subscribers(file@, this_rid, q) == acc[k as int].1);
                    } else {
                        assert(j < k);
                        assert(exists|j2: int| 0 <= j2 < k && acc[j2].0 == rid);
                        assert(mid.subscribers(file@, rid, q) == acc_get(acc, rid));
                        assert(self.subscribers(file@, rid, q) == mid.subscribers(file@, rid, q));
                    }
                }
                assert forall|rid: RefIdView, q: i64|
                    (exists|j: int| 0 <= j < k + 1 && acc[j].0 == rid) && q < offset
                        implies #[trigger] self.subscribers(file@, rid, q) == old(
                    self,
                ).subscribers(file@, rid, q) by {
                    let j = choose|j: int| 0 <= j < k + 1 && acc[j].0 == rid;
                    if rid == this_rid {
                        assert(self.subscribers(file@, rid, q) == mid.subscribers(file@, rid, q));
                        assert(!(exists|j2: int| 0 <= j2 < k && acc[j2].0 == rid));
                        assert(mid.subscribers(file@, rid, q) == old(self).subscribers(
                            file@,
                            rid,
                            q,
                        ));
                    } else {
                        assert(j < k);
                        assert(exists|j2: int| 0 <= j2 < k && acc[j2].0 == rid);
                        assert(mid.subscribers(file@, rid, q) == old(self).subscribers(
                            file@,
                            rid,
                            q,
                        ));
                        assert(self.subscribers(file@, rid, q) == mid.subscribers(file@, rid, q));
                    }
                }
                assert forall|rid: RefIdView, q: i64|
                    !(exists|j: int| 0 <= j < k + 1 && acc[j].0 == rid)
                        implies #[trigger] self.subscribers(file@, rid, q) == old(
                    self,
                ).subscribers(file@, rid, q) by {
                    assert(rid != this_rid) by {
                        assert(acc[k as int].0 == this_rid);
                    }
                    assert(!(exists|j: int| 0 <= j < k && acc[j].0 == rid));
                    assert(mid.subscribers(file@, rid, q) == old(self).subscribers(file@, rid, q));
                    assert(self.subscribers(file@, rid, q) == mid.subscribers(file@, rid, q));
                }
                assert forall|f2: Seq<char>, rid: RefIdView, q: i64|
                    f2 != file@ implies #[trigger] self.subscribers(f2, rid, q) == old(
                    self,
                ).subscribers(f2, rid, q) by {
                    assert(self.snaps(f2, rid) == mid.snaps(f2, rid));
                    assert(mid.subscribers(f2, rid, q) == old(self).subscribers(f2, rid, q));
                }
            }
            k += 1;
        }
        proof {
            assert forall|rid: RefIdView| acc_has(acc, rid) implies exists|j: int|
                0 <= j < changed.len() && acc[j].0 == rid by {}
        }
    }

    /// Consumes an added object: stores its dependency list and subscribes
    /// each owner end to its other end.
    pub fn add_deps(&mut self, file: &str, obj_id: &str, deps: &DependenciesMsg, offset: i64)
        ensures
            applied_diffs(*old(self), *final(self), file@, offset, diffs_of(deps@, Seq::empty())),
            final(self).obj_refs(file@, obj_id@) == Some((offset, deps@)),
            forall|f: Seq<char>, o: Seq<char>|
                !(f == file@ && o == obj_id@) ==> #[trigger] final(self).obj_refs(f, o) == old(
                    self,
                ).obj_refs(f, o),
    {
        let ghost diffs = diffs_of(deps@, Seq::<Option<ReferenceView>>::empty());
        let mut changed: Vec<(RefIdMsg, Vec<RefIdMsg>)> = Vec::new();
        proof {
            assert(changed.deep_view() =~= Seq::<(RefIdView, Seq<RefIdView>)>::empty());
            assert(acc_model(changed.deep_view()) =~= Map::<RefIdView, Set<RefIdView>>::empty());
            assert(diffs.take(0) =~= Seq::<Option<(ReferenceView, DepChange)>>::empty());
        }
        let mut i: usize = 0;
        while i < deps.references.len()
            invariant
                i <= deps.references.len(),
                diffs == diffs_of(deps@, Seq::<Option<ReferenceView>>::empty()),
                diffs.len() == deps.references.len(),
                acc_keys_distinct(changed.deep_view()),
                acc_model(changed.deep_view()) == fold_diffs(
                    *self,
                    file@,
                    offset,
                    diffs.take(i as int),
                    Map::empty(),
                ),
                *self == *old(self),
            decreases deps.references.len() - i,
        {
            proof {
                assert(diffs.take(i + 1) =~= diffs.take(i as int).push(diffs[i as int]));
                lemma_fold_snoc(
                    *self,
                    file@,
                    offset,
                    diffs.take(i as int),
                    diffs[i as int],
                    Map::empty(),
                );
                assert(slot_at(deps@, i as int) == deps.references@[i as int]@);
            }
            if let Some(refer) = &deps.references[i].reference {
                self.populate_changed_subs(file, offset, refer, DepChange::Add, &mut changed);
                proof {
                    assert(diffs[i as int] == Some((refer@, DepChange::Add)));
                }
            } else {
                proof {
                    assert(diffs[i as int] is None);
                }
            }
            i += 1;
        }
        proof {
            assert(diffs.take(deps.references@.len() as int) =~= diffs);
        }
        self.store_obj_refs(file, obj_id, deps, offset);
        self.write_changed_subs(file, offset, changed);
    }

    /// Consumes a modified object: diffs its dependency list against the
    /// stored one (an unknown object counts as all-new), stores the new list
    /// and moves the subscriptions.
    pub fn modify_deps(&mut self, file: &str, obj_id: &str, deps: &DependenciesMsg, offset: i64)
        ensures
            ({
                let od = match old(self).obj_refs(file@, obj_id@) {
                    Some(p) => p.1,
                    None => Seq::empty(),
                };
                applied_diffs(*old(self), *final(self), file@, offset, diffs_of(deps@, od))
            }),
            final(self).obj_refs(file@, obj_id@) == Some((offset, deps@)),
            forall|f: Seq<char>, o: Seq<char>|
                !(f == file@ && o == obj_id@) ==> #[trigger] final(self).obj_refs(f, o) == old(
                    self,
                ).obj_refs(f, o),
    {
        match self.get_obj_refs(file, obj_id) {
            Some((_, old_deps)) => {
                let ghost od = old_deps@;
                let ghost diffs = diffs_of(deps@, od);
                let diff_vec = get_ref_diffs(&deps.references, &old_deps.references);
                let mut changed: Vec<(RefIdMsg, Vec<RefIdMsg>)> = Vec::new();
                proof {
                    assert(changed.deep_view() =~= Seq::<(RefIdView, Seq<RefIdView>)>::empty());
                    assert(acc_model(changed.deep_view()) =~= Map::<
                        RefIdView,
                        Set<RefIdView>,
                    >::empty());
                    assert(diffs.take(0) =~= Seq::<Option<(ReferenceView, DepChange)>>::empty());
                }
                let mut i: usize = 0;
                while i < diff_vec.len()
                    invariant
                        i <= diff_vec.len(),
                        diffs == diffs_of(deps@, od),
                        diffs.len() == diff_vec.len(),
                        forall|j: int|
                            0 <= j < diff_vec.len() ==> match #[trigger] diff_vec@[j] {
                                Some(p) => diffs[j] == Some((p.0@, p.1)),
                                None => diffs[j] is None,
                            },
                        acc_keys_distinct(changed.deep_view()),
                        acc_model(changed.deep_view()) == fold_diffs(
                            *self,
                            file@,
                            offset,
                            diffs.take(i as int),
                            Map::empty(),
                        ),
                        *self == *old(self),
                    decreases diff_vec.len() - i,
                {
                    proof {
                        assert(diffs.take(i + 1) =~= diffs.take(i as int).push(diffs[i as int]));
                        lemma_fold_snoc(
                            *self,
                            file@,
                            offset,
                            diffs.take(i as int),
                            diffs[i as int],
                            Map::empty(),
                        );
                    }
                    if let Some((refer, change_type)) = &diff_vec[i] {
                        self.populate_changed_subs(file, offset, refer, *change_type, &mut changed);
                    }
                    i += 1;
                }
                proof {
                    assert(diffs.take(diff_vec@.len() as int) =~= diffs);
                }
                self.store_obj_refs(file, obj_id, deps, offset);
                self.write_changed_subs(file, offset, changed);
            },
            None => {
                self.add_deps(file, obj_id, deps, offset);
            },
        }
    }

    /// Consumes a deleted object: withdraws every stored subscription and
    /// leaves a dependency list of tombstones of the same length, so that
    /// positions stay reserved.
    pub fn delete_deps(&mut self, file: &str, obj_id: &str, deps: &DependenciesMsg, offset: i64)
        ensures
            applied_diffs(*old(self), *final(self), file@, offset, diffs_of(Seq::empty(), deps@)),
            match final(self).obj_refs(file@, obj_id@) {
                Some(t) => {
                    &&& t.0 == offset
                    &&& t.1.len() == deps@.len()
                    &&& forall|i: int| 0 <= i < t.1.len() ==> #[trigger] t.1[i] is None
                },
                None => false,
            },
            forall|f: Seq<char>, o: Seq<char>|
                !(f == file@ && o == obj_id@) ==> #[trigger] final(self).obj_refs(f, o) == old(
                    self,
                ).obj_refs(f, o),
    {
        let ghost diffs = diffs_of(Seq::<Option<ReferenceView>>::empty(), deps@);
        let mut changed: Vec<(RefIdMsg, Vec<RefIdMsg>)> = Vec::new();
        proof {
            assert(changed.deep_view() =~= Seq::<(RefIdView, Seq<RefIdView>)>::empty());
            assert(acc_model(changed.deep_view()) =~= Map::<RefIdView, Set<RefIdView>>::empty());
            assert(diffs.take(0) =~= Seq::<Option<(ReferenceView, DepChange)>>::empty());
        }
        let mut i: usize = 0;
        while i < deps.references.len()
            invariant
                i <= deps.references.len(),
                diffs == diffs_of(Seq::<Option<ReferenceView>>::empty(), deps@),
                diffs.len() == deps.references.len(),
                acc_keys_distinct(changed.deep_view()),
                acc_model(changed.deep_view()) == fold_diffs(
                    *self,
                    file@,
                    offset,
                    diffs.take(i as int),
                    Map::empty(),
                ),
                *self == *old(self),
            decreases deps.references.len() - i,
        {
            proof {
                assert(diffs.take(i + 1) =~= diffs.take(i as int).push(diffs[i as int]));
                lemma_fold_snoc(
                    *self,
                    file@,
                    offset,
                    diffs.take(i as int),
                    diffs[i as int],
                    Map::empty(),
                );
                assert(slot_at(deps@, i as int) == deps.references@[i as int]@);
            }
            if let Some(refer) = &deps.references[i].reference {
                self.populate_changed_subs(file, offset, refer, DepChange::Delete, &mut changed);
                proof {
                    assert(diffs[i as int] == Some((refer@, DepChange::Delete)));
                }
            } else {
                proof {
                    assert(diffs[i as int] is None);
                }
            }
            i += 1;
        }
        proof {
            assert(diffs.take(deps.references@.len() as int) =~= diffs);
        }
        let mut tombstones: Vec<OptionReferenceMsg> = Vec::new();
        let mut j: usize = 0;
        while j < deps.references.len()
            invariant
                j <= deps.references.len(),
                tombstones@.len() == j,
                forall|w: int| 0 <= w < j ==> #[trigger] tombstones.deep_view()[w] is None,
            decreases deps.references.len() - j,
        {
            let ghost t_pre = tombstones.deep_view();
            tombstones.push(OptionReferenceMsg { reference: None });
            proof {
                assert(tombstones.deep_view() =~= t_pre.push(None));
            }
            j += 1;
        }
        let empty_deps = DependenciesMsg { references: tombstones };
        self.store_obj_refs(file, obj_id, &empty_deps, offset);
        self.write_changed_subs(file, offset, changed);
    }

    /// Consumes one committed change: routes it to the add, modify or delete
    /// handling above.
    pub fn update_deps(&mut self, file: &str, offset: i64, change: &ChangeMsg)
        ensures
            dep_update_effect(*old(self), *final(self), file@, offset, change@),
    {
        match &change.change_type {
            Some(ChangeType::Add(object)) => {
                if let Some(deps) = &object.dependencies {
                    self.add_deps(file, &object.id, deps, offset);
                }
            },
            Some(ChangeType::Modify(object)) => {
                if let Some(deps) = &object.dependencies {
                    self.modify_deps(file, &object.id, deps, offset);
                }
            },
            Some(ChangeType::Delete(del)) => {
                let prev = self.get_obj_refs(file, &del.id);
                if let Some((_, deps)) = prev {
                    self.delete_deps(file, &del.id, &deps, offset);
                }
            },
            None => {},
        }
    }
}

/// Every subscriber stored in any snapshot row, flattened into one sequence;
/// the finite universe that a traversal can visit.
pub open spec fn flat_subs(rows: Seq<SubsRowView>) -> Seq<RefIdView>
    decreases rows.len(),
{
    if rows.len() == 0 {
        Seq::empty()
    } else {
        rows.first().subs + flat_subs(rows.drop_first())
    }
}

/// A member of any row's subscriber list is in the flattened universe.
pub proof fn lemma_flat_subs_member(rows: Seq<SubsRowView>, k: int, x: RefIdView)
    requires
        0 <= k < rows.len(),
        rows[k].subs.contains(x),
    ensures
        flat_subs(rows).contains(x),
    decreases rows.len(),
{
    if k == 0 {
        let w = choose|w: int| 0 <= w < rows[0].subs.len() && rows[0].subs[w] == x;
        assert(flat_subs(rows)[w] == x);
    } else {
        lemma_flat_subs_member(rows.drop_first(), k - 1, x);
        let w = choose|w: int|
            0 <= w < flat_subs(rows.drop_first()).len() && flat_subs(rows.drop_first())[w] == x;
        assert(flat_subs(rows)[rows.first().subs.len() + w] == x);
    }
}

/// Every element of a filtered sequence is an element of the original.
pub proof fn lemma_filter_member<A>(s: Seq<A>, pred: spec_fn(A) -> bool, i: int)
    requires
        0 <= i < s.filter(pred).len(),
    ensures
        exists|j: int| 0 <= j < s.len() && s[j] == s.filter(pred)[i],
    decreases s.len(),
{
    reveal(Seq::filter);
    if s.len() > 0 {
        let sub = s.drop_last().filter(pred);
        if pred(s.last()) && i == sub.len() {
            assert(s[s.len() - 1] == s.filter(pred)[i]);
        } else {
            lemma_filter_member(s.drop_last(), pred, i);
            let j = choose|j: int| 0 <= j < s.drop_last().len() && s.drop_last()[j] == sub[i];
            assert(s[j] == s.filter(pred)[i]);
        }
    }
}

/// A non-empty answer of `subs_at` is the subscriber list of one snapshot.
pub proof fn lemma_subs_at_from_row(snaps: Seq<SubsRowView>, q: i64)
    requires
        subs_at(snaps, q).len() > 0,
    ensures
        exists|k: int| 0 <= k < snaps.len() && snaps[k].subs == subs_at(snaps, q),
    decreases snaps.len(),
{
    if snaps.len() == 0 {
    } else if snaps.first().offset <= q {
        assert(snaps[0].subs == subs_at(snaps, q));
    } else {
        lemma_subs_at_from_row(snaps.drop_first(), q);
        let k = choose|k: int|
            0 <= k < snaps.drop_first().len() && snaps.drop_first()[k].subs == subs_at(
                snaps.drop_first(),
                q,
            );
        assert(snaps[k + 1].subs == subs_at(snaps, q));
    }
}

/// A subscriber as of any offset is in the flattened universe of the cache.
pub proof fn lemma_subscriber_in_universe(
    cache: DepCache,
    file: Seq<char>,
    rid: RefIdView,
    q: i64,
    x: RefIdView,
)
    requires
        cache.subscribers(file, rid, q).contains(x),
    ensures
        flat_subs(cache.all_snaps()).contains(x),
{
    let snaps = cache.snaps(file, rid);
    lemma_subs_at_from_row(snaps, q);
    let k = choose|k: int| 0 <= k < snaps.len() && snaps[k].subs == subs_at(snaps, q);
    lemma_filter_member(cache.all_snaps(), subs_pred(file, rid), k);
    let j = choose|j: int| 0 <= j < cache.all_snaps().len() && cache.all_snaps()[j] == snaps[k];
    lemma_flat_subs_member(cache.all_snaps(), j, x);
}

/// A sequence without duplicates whose members all come from `u` is no
/// longer than `u`.
pub proof fn lemma_distinct_within_universe(s: Seq<RefIdView>, u: Seq<RefIdView>)
    requires
        s.no_duplicates(),
        forall|i: int| 0 <= i < s.len() ==> u.contains(#[trigger] s[i]),
    ensures
        s.len() <= u.len(),
{
    s.unique_seq_to_set();
    u.lemma_cardinality_of_set();
    assert(s.to_set().subset_of(u.to_set())) by {
        assert forall|x: RefIdView| s.to_set().contains(x) implies u.to_set().contains(x) by {
            assert(s.contains(x));
            assert(u.contains(x));
        }
    }
    vstd::set_lib::lemma_len_subset(s.to_set(), u.to_set());
}

/// A node counts as discovered when it is the root or the owner end of a
/// discovered edge.
pub open spec fn bfs_reached(root: RefIdView, edges: Seq<ReferenceView>, x: RefIdView) -> bool {
    x == root || exists|e: int| 0 <= e < edges.len() && #[trigger] edges[e].owner == Some(x)
}

/// One discovered edge records a real subscription: its owner end is a
/// subscriber of its other end as of `offset`.
pub open spec fn edge_sound(
    cache: DepCache,
    file: Seq<char>,
    offset: i64,
    edge: ReferenceView,
) -> bool {
    match (edge.owner, edge.other) {
        (Some(owner), Some(other)) => cache.subscribers(file, other, offset).contains(owner),
        _ => false,
    }
}

/// One edge of a sound traversal: a real subscription that enters a node
/// other than the root exactly once, hanging off a node discovered before it.
pub open spec fn bfs_edge_ok(
    cache: DepCache,
    file: Seq<char>,
    offset: i64,
    root: RefIdView,
    edges: Seq<ReferenceView>,
    e: int,
) -> bool {
    match (edges[e].owner, edges[e].other) {
        (Some(owner), Some(other)) => {
            &&& cache.subscribers(file, other, offset).contains(owner)
            &&& owner != root
            &&& forall|e2: int|
                0 <= e2 < edges.len() && e2 != e ==> #[trigger] edges[e2].owner != Some(owner)
            &&& (other == root || exists|e2: int|
                0 <= e2 < e && #[trigger] edges[e2].owner == Some(other))
        },
        _ => false,
    }
}

/// The edges of a sound traversal; see [`bfs_edge_ok`].
pub open spec fn bfs_edges_ok(
    cache: DepCache,
    file: Seq<char>,
    offset: i64,
    root: RefIdView,
    edges: Seq<ReferenceView>,
) -> bool {
    forall|e: int|
        0 <= e < edges.len() ==> #[trigger] bfs_edge_ok(cache, file, offset, root, edges, e)
}

/// A complete traversal: everything a discovered node publishes to is itself
/// discovered.
pub open spec fn bfs_closed(
    cache: DepCache,
    file: Seq<char>,
    offset: i64,
    root: RefIdView,
    edges: Seq<ReferenceView>,
) -> bool {
    forall|b: RefIdView, a: RefIdView|
        #![trigger cache.subscribers(file, b, offset).contains(a)]
        bfs_reached(root, edges, b) && cache.subscribers(file, b, offset).contains(a)
            ==> bfs_reached(root, edges, a)
}

/// Every queued node besides the root is the owner end of a discovered edge.
pub open spec fn nodes_have_edges(qd: Seq<RefIdView>, rd: Seq<ReferenceView>) -> bool {
    forall|i: int|
        #![trigger qd[i]]
        1 <= i < qd.len() ==> exists|e: int|
            0 <= e < rd.len() && #[trigger] rd[e].owner == Some(qd[i])
}

/// Every discovered edge enters a queued node other than the root.
pub open spec fn edges_have_nodes(qd: Seq<RefIdView>, rd: Seq<ReferenceView>) -> bool {
    forall|e: int|
        #![trigger rd[e]]
        0 <= e < rd.len() ==> exists|i: int|
            1 <= i < qd.len() && rd[e].owner == Some(#[trigger] qd[i])
}

/// Every subscriber of an already processed node is queued.
pub open spec fn processed_closed(
    cache: DepCache,
    file: Seq<char>,
    offset: i64,
    qd: Seq<RefIdView>,
    head: int,
) -> bool {
    forall|p: int, a: RefIdView|
        #![trigger cache.subscribers(file, qd[p], offset).contains(a)]
        0 <= p < head && cache.subscribers(file, qd[p], offset).contains(a) ==> qd.contains(a)
}

/// Every queued node besides the root lives in the finite universe `u`.
pub open spec fn queue_in_universe(qd: Seq<RefIdView>, u: Seq<RefIdView>) -> bool {
    forall|i: int| 1 <= i < qd.len() ==> u.contains(#[trigger] qd[i])
}

/// A node counts as discovered from a root set when it is one of the roots or
/// the owner end of a discovered edge.
pub open spec fn reached_any(
    roots: Seq<RefIdView>,
    edges: Seq<ReferenceView>,
    x: RefIdView,
) -> bool {
    roots.contains(x) || exists|e: int| 0 <= e < edges.len() && #[trigger] edges[e].owner == Some(x)
}

/// The union of traversals is closed: everything a discovered node publishes
/// to is itself discovered.
pub open spec fn union_closed(
    cache: DepCache,
    file: Seq<char>,
    offset: i64,
    roots: Seq<RefIdView>,
    edges: Seq<ReferenceView>,
) -> bool {
    forall|b: RefIdView, a: RefIdView|
        #![trigger cache.subscribers(file, b, offset).contains(a)]
        reached_any(roots, edges, b) && cache.subscribers(file, b, offset).contains(a)
            ==> reached_any(roots, edges, a)
}

/// Every edge is sound and no edge repeats.
pub open spec fn edges_sound_distinct(
    cache: DepCache,
    file: Seq<char>,
    offset: i64,
    edges: Seq<ReferenceView>,
) -> bool {
    &&& forall|e: int|
        0 <= e < edges.len() ==> #[trigger] edge_sound(cache, file, offset, edges[e])
    &&& forall|e: int, e2: int| 0 <= e < e2 < edges.len() ==> edges[e] != edges[e2]
}

/// One node's subscriber list folded into the traversal state, in stored
/// order: each subscriber not yet queued is appended to the queue and hangs
/// off `current` as a fresh edge; the rest are passed over.
pub open spec fn bfs_absorb(
    queue: Seq<RefIdView>,
    edges: Seq<ReferenceView>,
    current: RefIdView,
    subs: Seq<RefIdView>,
) -> (Seq<RefIdView>, Seq<ReferenceView>)
    decreases subs.len(),
{
    if subs.len() == 0 {
        (queue, edges)
    } else if queue.contains(subs.first()) {
        bfs_absorb(queue, edges, current, subs.drop_first())
    } else {
        bfs_absorb(
            queue.push(subs.first()),
            edges.push(ReferenceView { owner: Some(subs.first()), other: Some(current) }),
            current,
            subs.drop_first(),
        )
    }
}

/// The traversal state is fit to continue: the queue holds no node twice and
/// every queued node beyond the first came out of some stored subscriber
/// list.
pub open spec fn bfs_queue_ok(cache: DepCache, queue: Seq<RefIdView>, head: int) -> bool {
    &&& 0 <= head
    &&& queue.no_duplicates()
    &&& forall|i: int|
        1 <= i < queue.len() ==> flat_subs(cache.all_snaps()).contains(#[trigger] queue[i])
}

/// Folding one subscriber list grows the queue in place, keeps it duplicate
/// free, draws every new node from that list, and appends one edge per new
/// node.
pub proof fn lemma_absorb_shape(
    queue: Seq<RefIdView>,
    edges: Seq<ReferenceView>,
    current: RefIdView,
    subs: Seq<RefIdView>,
)
    requires
        queue.no_duplicates(),
    ensures
        ({
            let (q1, e1) = bfs_absorb(queue, edges, current, subs);
            &&& q1.len() >= queue.len()
            &&& forall|i: int| 0 <= i < queue.len() ==> q1[i] == queue[i]
            &&& q1.no_duplicates()
            &&& forall|i: int|
                queue.len() <= i < q1.len() ==> subs.contains(#[trigger] q1[i])
            &&& e1.len() >= edges.len()
            &&& forall|i: int| 0 <= i < edges.len() ==> e1[i] == edges[i]
        }),
    decreases subs.len(),
{
    if subs.len() == 0 {
    } else if queue.contains(subs.first()) {
        lemma_absorb_shape(queue, edges, current, subs.drop_first());
        let (q1, e1) = bfs_absorb(queue, edges, current, subs.drop_first());
        assert forall|i: int|
            queue.len() <= i < q1.len() implies subs.contains(#[trigger] q1[i]) by {
            assert(subs.drop_first().contains(q1[i]));
            let w = choose|w: int|
                0 <= w < subs.drop_first().len() && subs.drop_first()[w] == q1[i];
            assert(subs[w + 1] == q1[i]);
        }
    } else {
        let q_mid = queue.push(subs.first());
        let e_mid = edges.push(
            ReferenceView { owner: Some(subs.first()), other: Some(current) },
        );
        assert(q_mid.no_duplicates()) by {
            assert forall|i: int, j: int|
                0 <= i < j < q_mid.len() implies q_mid[i] != q_mid[j] by {
                if j == q_mid.len() - 1 {
                    assert(!queue.contains(subs.first()));
                    assert(q_mid[i] == queue[i]);
                }
            }
        }
        lemma_absorb_shape(q_mid, e_mid, current, subs.drop_first());
        let (q1, e1) = bfs_absorb(q_mid, e_mid, current, subs.drop_first());
        assert forall|i: int|
            queue.len() <= i < q1.len() implies subs.contains(#[trigger] q1[i]) by {
            if i == queue.len() {
                assert(q1[i] == q_mid[i]);
                assert(q_mid[i] == subs.first());
                assert(subs[0] == subs.first());
            } else {
                assert(subs.drop_first().contains(q1[i]));
                let w = choose|w: int|
                    0 <= w < subs.drop_first().len() && subs.drop_first()[w] == q1[i];
                assert(subs[w + 1] == q1[i]);
            }
        }
    }
}

/// The walk from a queue position: fold the current node's subscribers in,
/// then continue one position further, until the queue is exhausted.
pub open spec fn bfs_walk(
    cache: DepCache,
    file: Seq<char>,
    q: i64,
    queue: Seq<RefIdView>,
    head: int,
    edges: Seq<ReferenceView>,
) -> Seq<ReferenceView>
    decreases flat_subs(cache.all_snaps()).len() + 1 - queue.len(), queue.len() - head,
        when bfs_queue_ok(cache, queue, head) via bfs_walk_decreases
{
    if head >= queue.len() {
        edges
    } else {
        let subs = cache.subscribers(file, queue[head], q);
        let folded = bfs_absorb(queue, edges, queue[head], subs);
        bfs_walk(cache, file, q, folded.0, head + 1, folded.1)
    }
}

#[via_fn]
proof fn bfs_walk_decreases(
    cache: DepCache,
    file: Seq<char>,
    q: i64,
    queue: Seq<RefIdView>,
    head: int,
    edges: Seq<ReferenceView>,
) {
    let universe = flat_subs(cache.all_snaps());
    if head < queue.len() {
        let subs = cache.subscribers(file, queue[head], q);
        let folded = bfs_absorb(queue, edges, queue[head], subs);
        lemma_absorb_shape(queue, edges, queue[head], subs);
        assert forall|i: int|
            1 <= i < folded.0.len() implies universe.contains(#[trigger] folded.0[i]) by {
            if i < queue.len() {
                assert(folded.0[i] == queue[i]);
            } else {
                assert(subs.contains(folded.0[i]));
                lemma_subscriber_in_universe(cache, file, queue[head], q, folded.0[i]);
            }
        }
        assert(folded.0.len() <= universe.len() + 1) by {
            assert(folded.0.drop_first().no_duplicates()) by {
                assert forall|i: int, j: int|
                    0 <= i < j < folded.0.drop_first().len() implies folded.0.drop_first()[i]
                    != folded.0.drop_first()[j] by {
                    assert(folded.0.drop_first()[i] == folded.0[i + 1]);
                    assert(folded.0.drop_first()[j] == folded.0[j + 1]);
                }
            }
            assert forall|i: int|
                0 <= i < folded.0.drop_first().len() implies universe.contains(
                #[trigger] folded.0.drop_first()[i],
            ) by {
                assert(folded.0.drop_first()[i] == folded.0[i + 1]);
            }
            lemma_distinct_within_universe(folded.0.drop_first(), universe);
        }
    }
}

/// One traversal's edges folded into the union, in order, each kept only if
/// no equal edge is there yet.
pub open spec fn merge_edges(
    acc: Seq<ReferenceView>,
    edges: Seq<ReferenceView>,
) -> Seq<ReferenceView>
    decreases edges.len(),
{
    if edges.len() == 0 {
        acc
    } else if acc.contains(edges.first()) {
        merge_edges(acc, edges.drop_first())
    } else {
        merge_edges(acc.push(edges.first()), edges.drop_first())
    }
}

/// The union of one breadth-first walk per root, in root order, with
/// duplicate edges kept once.
pub open spec fn all_deps_from(
    cache: DepCache,
    file: Seq<char>,
    q: i64,
    roots: Seq<RefIdView>,
    acc: Seq<ReferenceView>,
) -> Seq<ReferenceView>
    decreases roots.len(),
{
    if roots.len() == 0 {
        acc
    } else {
        all_deps_from(
            cache,
            file,
            q,
            roots.drop_first(),
            merge_edges(
                acc,
                bfs_walk(cache, file, q, seq![roots.first()], 0, Seq::empty()),
            ),
        )
    }
}

/// Whether `x` is in the list, compared by contents.
fn ref_id_in(list: &Vec<RefIdMsg>, x: &RefIdMsg) -> (r: bool)
    ensures
        r == list.deep_view().contains(x@),
{
    let mut i: usize = 0;
    while i < list.len()
        invariant
            i <= list.len(),
            forall|j: int| 0 <= j < i ==> list.deep_view()[j] != x@,
        decreases list.len() - i,
    {
        if list[i] == *x {
            proof {
                assert(list.deep_view()[i as int] == x@);
            }
            return true;
        }
        i += 1;
    }
    false
}

impl DepCache {
    /// Every snapshot row in the cache.
    pub closed spec fn all_snaps(self) -> Seq<SubsRowView> {
        self.subs.deep_view()
    }

    /// Walks the subscriber graph of `file` as of `offset` breadth first from
    /// `ref_id` and returns exactly the edges of [`bfs_walk`], in discovery
    /// order: each points from a subscriber (`owner`) to the node whose
    /// subscriber fetch discovered it (`other`).  Self references cannot
    /// loop: a node is entered at most once.
    pub fn breadth_first_search(&self, file: &str, offset: i64, ref_id: &RefIdMsg) -> (r: Vec<
        ReferenceMsg,
    >)
        ensures
            r.deep_view() == bfs_walk(
                *self,
                file@,
                offset,
                seq![ref_id@],
                0,
                Seq::<ReferenceView>::empty(),
            ),
            bfs_edges_ok(*self, file@, offset, ref_id@, r.deep_view()),
            bfs_closed(*self, file@, offset, ref_id@, r.deep_view()),
    {
        let mut queue: Vec<RefIdMsg> = Vec::new();
        let mut result: Vec<ReferenceMsg> = Vec::new();
        queue.push(ref_id.clone());
        let mut head: usize = 0;
        let ghost universe = flat_subs(self.all_snaps());
        let ghost walk = bfs_walk(
            *self,
            file@,
            offset,
            seq![ref_id@],
            0,
            Seq::<ReferenceView>::empty(),
        );
        proof {
            assert(queue.deep_view() =~= seq![ref_id@]);
            assert(result.deep_view() =~= Seq::<ReferenceView>::empty());
            assert(bfs_queue_ok(*self, queue.deep_view(), 0));
        }
        while head < queue.len()
            invariant
                head <= queue.len(),
                1 <= queue.deep_view().len() <= universe.len() + 1,
                queue.deep_view()[0] == ref_id@,
                universe == flat_subs(self.all_snaps()),
                queue.deep_view().no_duplicates(),
                queue_in_universe(queue.deep_view(), universe),
                nodes_have_edges(queue.deep_view(), result.deep_view()),
                edges_have_nodes(queue.deep_view(), result.deep_view()),
                bfs_edges_ok(*self, file@, offset, ref_id@, result.deep_view()),
                processed_closed(*self, file@, offset, queue.deep_view(), head as int),
                walk == bfs_walk(
                    *self,
                    file@,
                    offset,
                    queue.deep_view(),
                    head as int,
                    result.deep_view(),
                ),
            decreases universe.len() + 1 - queue.deep_view().len(), queue.deep_view().len() - head,
        {
            let ghost q0 = queue.deep_view();
            let ghost r0 = result.deep_view();
            let current = queue[head].clone();
            let sub_set = self.get_ref_id_subs(file, &current, offset);
            let ghost subs = sub_set.deep_view();
            let mut s: usize = 0;
            proof {
                assert(subs.skip(0) =~= subs);
            }
            while s < sub_set.len()
                invariant
                    s <= sub_set.len(),
                    q0.len() <= queue.deep_view().len(),
                    head < queue.deep_view().len(),
                    bfs_absorb(q0, r0, current@, subs) == bfs_absorb(
                        queue.deep_view(),
                        result.deep_view(),
                        current@,
                        subs.skip(s as int),
                    ),
                    subs == sub_set.deep_view(),
                    subs == self.subscribers(file@, current@, offset),
                    current@ == queue.deep_view()[head as int],
                    1 <= queue.deep_view().len() <= universe.len() + 1,
                    queue.deep_view()[0] == ref_id@,
                    universe == flat_subs(self.all_snaps()),
                    queue.deep_view().no_duplicates(),
                    queue_in_universe(queue.deep_view(), universe),
                    nodes_have_edges(queue.deep_view(), result.deep_view()),
                    edges_have_nodes(queue.deep_view(), result.deep_view()),
                    bfs_edges_ok(*self, file@, offset, ref_id@, result.deep_view()),
                    processed_closed(*self, file@, offset, queue.deep_view(), head as int),
                    forall|w: int| 0 <= w < s ==> queue.deep_view().contains(#[trigger] subs[w]),
                decreases sub_set.len() - s,
            {
                let ghost qpre = queue.deep_view();
                let ghost rpre = result.deep_view();
                proof {
                    assert(subs.skip(s as int).first() == subs[s as int]);
                    assert(subs.skip(s as int).drop_first() =~= subs.skip(s + 1));
                }
                let sub = &sub_set[s];
                if !ref_id_in(&queue, sub) {
                    queue.push(sub.clone());
                    result.push(
                        ReferenceMsg { owner: Some(sub.clone()), other: Some(current.clone()) },
                    );
                    proof {
                        let qpost = queue.deep_view();
                        let rpost = result.deep_view();
                        assert(qpost =~= qpre.push(sub@));
                        assert(rpost =~= rpre.push(
                            ReferenceView { owner: Some(sub@), other: Some(current@) },
                        ));
                        assert(subs.contains(sub@)) by {
                            assert(subs[s as int] == sub@);
                        }
                        lemma_subscriber_in_universe(*self, file@, current@, offset, sub@);
                        assert(qpost.no_duplicates()) by {
                            assert forall|i: int, j: int|
                                0 <= i < j < qpost.len() implies qpost[i] != qpost[j] by {
                                if j == qpost.len() - 1 {
                                    assert(!qpre.contains(sub@));
                                    assert(qpre[i] == qpost[i]);
                                }
                            }
                        }
                        assert(queue_in_universe(qpost, universe)) by {
                            assert forall|i: int| 1 <= i < qpost.len() implies universe.contains(
                                #[trigger] qpost[i],
                            ) by {
                                if i < qpost.len() - 1 {
                                    assert(qpost[i] == qpre[i]);
                                }
                            }
                        }
                        assert(bfs_edges_ok(*self, file@, offset, ref_id@, rpost)) by {
                            assert forall|e: int|
                                0 <= e < rpost.len() implies #[trigger] bfs_edge_ok(
                                *self,
                                file@,
                                offset,
                                ref_id@,
                                rpost,
                                e,
                            ) by {
                                if e == rpost.len() - 1 {
                                    assert(rpost[e].owner == Some(sub@));
                                    assert(rpost[e].other == Some(current@));
                                    assert(self.subscribers(file@, current@, offset).contains(
                                        sub@,
                                    ));
                                    assert(sub@ != ref_id@) by {
                                        assert(!qpre.contains(sub@));
                                        assert(qpre[0] == ref_id@);
                                    }
                                    if head == 0 {
                                        assert(current@ == ref_id@);
                                    }
                                    assert forall|e2: int|
                                        0 <= e2 < rpost.len() && e2 != e implies #[trigger] rpost[e2].owner
                                        != Some(sub@) by {
                                        assert(rpost[e2] == rpre[e2]);
                                        let i = choose|i: int|
                                            1 <= i < qpre.len() && rpre[e2].owner == Some(
                                                #[trigger] qpre[i],
                                            );
                                        assert(!qpre.contains(sub@));
                                        assert(qpre[i] != sub@);
                                    }
                                    if head > 0 {
                                        assert(exists|e2: int|
                                            0 <= e2 < rpre.len() && #[trigger] rpre[e2].owner
                                                == Some(qpre[head as int])) by {
                                            assert(nodes_have_edges(qpre, rpre));
                                            assert(1 <= head < qpre.len());
                                        }
                                        let e2 = choose|e2: int|
                                            0 <= e2 < rpre.len() && #[trigger] rpre[e2].owner
                                                == Some(qpre[head as int]);
                                        assert(rpost[e2].owner == Some(current@));
                                    }
                                } else {
                                    assert(bfs_edge_ok(*self, file@, offset, ref_id@, rpre, e));
                                    assert(rpost[e] == rpre[e]);
                                    let other = rpre[e].other.unwrap();
                                    if other != ref_id@ {
                                        let d2 = choose|d2: int|
                                            0 <= d2 < e && #[trigger] rpre[d2].owner == Some(
                                                other,
                                            );
                                        assert(rpost[d2].owner == Some(other));
                                    }
                                    let ow = rpre[e].owner.unwrap();
                                    assert forall|e2: int|
                                        0 <= e2 < rpost.len() && e2 != e implies #[trigger] rpost[e2].owner
                                        != Some(ow) by {
                                        if e2 == rpost.len() - 1 {
                                            let i = choose|i: int|
                                                1 <= i < qpre.len() && rpre[e].owner == Some(
                                                    #[trigger] qpre[i],
                                                );
                                            assert(!qpre.contains(sub@));
                                            assert(qpre[i] != sub@);
                                            assert(rpost[e2].owner == Some(sub@));
                                        } else {
                                            assert(rpost[e2] == rpre[e2]);
                                        }
                                    }
                                }
                            }
                        }
                        assert(nodes_have_edges(qpost, rpost)) by {
                            assert forall|i: int|
                                #![trigger qpost[i]]
                                1 <= i < qpost.len() implies exists|e: int|
                                0 <= e < rpost.len() && #[trigger] rpost[e].owner == Some(
                                    qpost[i],
                                ) by {
                                if i == qpost.len() - 1 {
                                    assert(rpost[rpost.len() - 1].owner == Some(qpost[i]));
                                } else {
                                    assert(qpost[i] == qpre[i]);
                                    let e = choose|e: int|
                                        0 <= e < rpre.len() && #[trigger] rpre[e].owner == Some(
                                            qpre[i],
                                        );
                                    assert(rpost[e].owner == Some(qpost[i]));
                                }
                            }
                        }
                        assert(edges_have_nodes(qpost, rpost)) by {
                            assert forall|e: int|
                                #![trigger rpost[e]]
                                0 <= e < rpost.len() implies exists|i: int|
                                1 <= i < qpost.len() && rpost[e].owner == Some(
                                    #[trigger] qpost[i],
                                ) by {
                                if e == rpost.len() - 1 {
                                    assert(rpost[e].owner == Some(qpost[qpost.len() - 1]));
                                } else {
                                    assert(rpost[e] == rpre[e]);
                                    let i = choose|i: int|
                                        1 <= i < qpre.len() && rpre[e].owner == Some(
                                            #[trigger] qpre[i],
                                        );
                                    assert(rpost[e].owner == Some(qpost[i]));
                                }
                            }
                        }
                        assert(processed_closed(*self, file@, offset, qpost, head as int)) by {
                            assert forall|p: int, a: RefIdView|
                                #![trigger self.subscribers(file@, qpost[p], offset).contains(a)]
                                0 <= p < head && self.subscribers(file@, qpost[p], offset).contains(
                                    a,
                                ) implies qpost.contains(a) by {
                                assert(qpre[p] == qpost[p]);
                                assert(qpre.contains(a));
                                let w = choose|w: int| 0 <= w < qpre.len() && qpre[w] == a;
                                assert(qpost[w] == a);
                            }
                        }
                        assert forall|w: int|
                            0 <= w < s + 1 implies queue.deep_view().contains(
                            #[trigger] subs[w],
                        ) by {
                            if w == s {
                                assert(qpost[qpost.len() - 1] == subs[w]);
                            } else {
                                assert(qpre.contains(subs[w]));
                                let v = choose|v: int| 0 <= v < qpre.len() && qpre[v] == subs[w];
                                assert(qpost[v] == subs[w]);
                            }
                        }
                        assert(qpost.len() <= universe.len() + 1) by {
                            assert(qpost.drop_first().no_duplicates()) by {
                                assert forall|i: int, j: int|
                                    0 <= i < j < qpost.drop_first().len() implies qpost.drop_first()[i]
                                    != qpost.drop_first()[j] by {
                                    assert(qpost.drop_first()[i] == qpost[i + 1]);
                                    assert(qpost.drop_first()[j] == qpost[j + 1]);
                                }
                            }
                            assert forall|i: int|
                                0 <= i < qpost.drop_first().len() implies universe.contains(
                                #[trigger] qpost.drop_first()[i],
                            ) by {
                                assert(qpost.drop_first()[i] == qpost[i + 1]);
                            }
                            lemma_distinct_within_universe(qpost.drop_first(), universe);
                        }
                    }
                } else {
                    proof {
                        assert(subs[s as int] == sub@);
                        assert forall|w: int|
                            0 <= w < s + 1 implies queue.deep_view().contains(
                            #[trigger] subs[w],
                        ) by {}
                    }
                }
                s += 1;
            }
            proof {
                assert(subs.skip(sub_set@.len() as int).len() == 0);
                assert(bfs_absorb(q0, r0, current@, subs) == (
                    queue.deep_view(),
                    result.deep_view(),
                ));
                assert(bfs_queue_ok(*self, q0, head as int));
                assert(q0[head as int] == current@);
                assert(walk == bfs_walk(
                    *self,
                    file@,
                    offset,
                    queue.deep_view(),
                    head + 1,
                    result.deep_view(),
                ));
                let qd = queue.deep_view();
                assert(processed_closed(*self, file@, offset, qd, head + 1)) by {
                    assert forall|p: int, a: RefIdView|
                        #![trigger self.subscribers(file@, qd[p], offset).contains(a)]
                        0 <= p < head + 1 && self.subscribers(file@, qd[p], offset).contains(
                            a,
                        ) implies qd.contains(a) by {
                        if p == head {
                            assert(qd[p] == current@);
                            assert(subs.contains(a));
                            let w = choose|w: int| 0 <= w < subs.len() && subs[w] == a;
                        }
                    }
                }
            }
            head += 1;
        }
        proof {
            assert(bfs_queue_ok(*self, queue.deep_view(), head as int));
            assert(result.deep_view() == walk);
            let qd = queue.deep_view();
            let rd = result.deep_view();
            assert(bfs_closed(*self, file@, offset, ref_id@, rd)) by {
                assert forall|b: RefIdView, a: RefIdView|
                    #![trigger self.subscribers(file@, b, offset).contains(a)]
                    bfs_reached(ref_id@, rd, b) && self.subscribers(file@, b, offset).contains(
                        a,
                    ) implies bfs_reached(ref_id@, rd, a) by {
                    let p: int = if b == ref_id@ {
                        0
                    } else {
                        let e = choose|e: int|
                            0 <= e < rd.len() && #[trigger] rd[e].owner == Some(b);
                        choose|i: int| 1 <= i < qd.len() && rd[e].owner == Some(#[trigger] qd[i])
                    };
                    assert(qd[p] == b);
                    assert(self.subscribers(file@, qd[p], offset).contains(a));
                    assert(qd.contains(a));
                    let w = choose|w: int| 0 <= w < qd.len() && qd[w] == a;
                    if w > 0 {
                        let e = choose|e: int|
                            0 <= e < rd.len() && #[trigger] rd[e].owner == Some(qd[w]);
                        assert(rd[e].owner == Some(a));
                    }
                }
            }
        }
        result
    }

    /// The transitive closure of subscribers of the roots, as of `offset`:
    /// exactly the union of one breadth-first walk per root, in root order,
    /// with duplicate edges kept once (see [`all_deps_from`]).  Every
    /// returned edge is a real subscription and the discovered nodes are
    /// closed under subscription.
    pub fn get_all_deps(&self, file: &str, offset: i64, ref_ids: &Vec<RefIdMsg>) -> (r: Vec<
        ReferenceMsg,
    >)
        ensures
            r.deep_view() == all_deps_from(
                *self,
                file@,
                offset,
                ref_ids.deep_view(),
                Seq::<ReferenceView>::empty(),
            ),
            edges_sound_distinct(*self, file@, offset, r.deep_view()),
            union_closed(*self, file@, offset, ref_ids.deep_view(), r.deep_view()),
    {
        let mut results: Vec<ReferenceMsg> = Vec::new();
        let mut k: usize = 0;
        let ghost whole = all_deps_from(
            *self,
            file@,
            offset,
            ref_ids.deep_view(),
            Seq::<ReferenceView>::empty(),
        );
        proof {
            assert(results.deep_view() =~= Seq::<ReferenceView>::empty());
            assert(ref_ids.deep_view().skip(0) =~= ref_ids.deep_view());
            assert(union_closed(
                *self,
                file@,
                offset,
                ref_ids.deep_view().take(0),
                results.deep_view(),
            )) by {
                assert(ref_ids.deep_view().take(0) =~= Seq::<RefIdView>::empty());
                assert forall|b: RefIdView, a: RefIdView|
                    #![trigger self.subscribers(file@, b, offset).contains(a)]
                    reached_any(ref_ids.deep_view().take(0), results.deep_view(), b)
                        && self.subscribers(file@, b, offset).contains(a) implies reached_any(
                    ref_ids.deep_view().take(0),
                    results.deep_view(),
                    a,
                ) by {}
            }
        }
        while k < ref_ids.len()
            invariant
                k <= ref_ids.len(),
                whole == all_deps_from(
                    *self,
                    file@,
                    offset,
                    ref_ids.deep_view().skip(k as int),
                    results.deep_view(),
                ),
                edges_sound_distinct(*self, file@, offset, results.deep_view()),
                union_closed(
                    *self,
                    file@,
                    offset,
                    ref_ids.deep_view().take(k as int),
                    results.deep_view(),
                ),
            decreases ref_ids.len() - k,
        {
            let edges = self.breadth_first_search(file, offset, &ref_ids[k]);
            let ghost pre = results.deep_view();
            let ghost ed = edges.deep_view();
            let ghost root = ref_ids.deep_view()[k as int];
            proof {
                assert(ref_ids.deep_view().skip(k as int).first() == root);
                assert(ref_ids.deep_view().skip(k as int).drop_first() =~= ref_ids.deep_view()
                    .skip(k + 1));
                assert(ed == bfs_walk(
                    *self,
                    file@,
                    offset,
                    seq![root],
                    0,
                    Seq::<ReferenceView>::empty(),
                ));
                assert(ed.skip(0) =~= ed);
            }
            let mut w: usize = 0;
            while w < edges.len()
                invariant
                    w <= edges.len(),
                    ed == edges.deep_view(),
                    k < ref_ids.len(),
                    root == ref_ids.deep_view()[k as int],
                    bfs_edges_ok(*self, file@, offset, root, ed),
                    bfs_closed(*self, file@, offset, root, ed),
                    edges_sound_distinct(*self, file@, offset, results.deep_view()),
                    union_closed(
                        *self,
                        file@,
                        offset,
                        ref_ids.deep_view().take(k as int),
                        pre,
                    ),
                    forall|e: int| 0 <= e < pre.len() ==> results.deep_view()[e] == #[trigger] pre[e],
                    pre.len() <= results.deep_view().len(),
                    forall|e: int|
                        0 <= e < w ==> results.deep_view().contains(#[trigger] ed[e]),
                    forall|e: int|
                        pre.len() <= e < results.deep_view().len() ==> ed.contains(
                            #[trigger] results.deep_view()[e],
                        ),
                    merge_edges(pre, ed) == merge_edges(
                        results.deep_view(),
                        ed.skip(w as int),
                    ),
                decreases edges.len() - w,
            {
                let ghost rs_pre = results.deep_view();
                proof {
                    assert(ed.skip(w as int).first() == ed[w as int]);
                    assert(ed.skip(w as int).drop_first() =~= ed.skip(w + 1));
                }
                let mut exists_already = false;
                let mut v: usize = 0;
                while v < results.len()
                    invariant_except_break
                        v <= results.len(),
                        !exists_already,
                        rs_pre == results.deep_view(),
                        w < edges.len(),
                        ed == edges.deep_view(),
                        forall|u: int| 0 <= u < v ==> rs_pre[u] != ed[w as int],
                    ensures
                        rs_pre == results.deep_view(),
                        exists_already ==> rs_pre.contains(ed[w as int]),
                        !exists_already ==> forall|u: int|
                            0 <= u < rs_pre.len() ==> rs_pre[u] != ed[w as int],
                    decreases results.len() - v,
                {
                    if results[v].same_edge(&edges[w]) {
                        exists_already = true;
                        proof {
                            assert(rs_pre[v as int] == ed[w as int]);
                            assert(rs_pre.contains(ed[w as int]));
                        }
                        break ;
                    }
                    v += 1;
                }
                if !exists_already {
                    results.push(edges[w].clone());
                    proof {
                        assert(results.deep_view() =~= rs_pre.push(ed[w as int]));
                        assert(bfs_edge_ok(*self, file@, offset, root, ed, w as int));
                        let rs_post = results.deep_view();
                        assert forall|e: int, e2: int|
                            0 <= e < e2 < rs_post.len() implies rs_post[e] != rs_post[e2] by {
                            if e2 == rs_post.len() - 1 {
                                assert(rs_pre[e] == rs_post[e]);
                            }
                        }
                        assert forall|e: int|
                            0 <= e < rs_post.len() implies #[trigger] edge_sound(
                            *self,
                            file@,
                            offset,
                            rs_post[e],
                        ) by {
                            if e < rs_post.len() - 1 {
                                assert(rs_post[e] == rs_pre[e]);
                            }
                        }
                    }
                }
                proof {
                    let rs_post = results.deep_view();
                    assert(exists_already == rs_pre.contains(ed[w as int])) by {
                        if !exists_already && rs_pre.contains(ed[w as int]) {
                            let u = choose|u: int|
                                0 <= u < rs_pre.len() && rs_pre[u] == ed[w as int];
                        }
                    }
                    assert(rs_post.contains(ed[w as int])) by {
                        if exists_already {
                        } else {
                            assert(rs_post[rs_post.len() - 1] == ed[w as int]);
                        }
                    }
                    assert forall|e: int|
                        0 <= e < w + 1 implies rs_post.contains(#[trigger] ed[e]) by {
                        if e < w {
                            assert(rs_pre.contains(ed[e]));
                            let u = choose|u: int| 0 <= u < rs_pre.len() && rs_pre[u] == ed[e];
                            assert(rs_post[u] == ed[e]);
                        }
                    }
                }
                w += 1;
            }
            proof {
                assert(ed.skip(edges@.len() as int).len() == 0);
                assert(merge_edges(pre, ed) == results.deep_view());
                assert(whole == all_deps_from(
                    *self,
                    file@,
                    offset,
                    ref_ids.deep_view().skip(k + 1),
                    results.deep_view(),
                ));
                let rs = results.deep_view();
                let roots_now = ref_ids.deep_view().take(k + 1);
                let roots_pre = ref_ids.deep_view().take(k as int);
                assert(roots_now =~= roots_pre.push(root));
                assert(union_closed(*self, file@, offset, roots_now, rs)) by {
                    assert forall|b: RefIdView, a: RefIdView|
                        #![trigger self.subscribers(file@, b, offset).contains(a)]
                        reached_any(roots_now, rs, b) && self.subscribers(
                            file@,
                            b,
                            offset,
                        ).contains(a) implies reached_any(roots_now, rs, a) by {
                        // Where was b discovered?  Either by an earlier root
                        // (then its subscribers were discovered then), or by
                        // this traversal (then its subscribers are in `ed`).
                        let in_this = bfs_reached(root, ed, b);
                        let in_pre = reached_any(roots_pre, pre, b);
                        assert(in_this || in_pre) by {
                            if roots_now.contains(b) {
                                let i = choose|i: int|
                                    0 <= i < roots_now.len() && roots_now[i] == b;
                                if i < k {
                                    assert(roots_pre[i] == b);
                                    assert(roots_pre.contains(b));
                                } else {
                                    assert(b == root);
                                }
                            } else {
                                let e = choose|e: int|
                                    0 <= e < rs.len() && #[trigger] rs[e].owner == Some(b);
                                if e < pre.len() {
                                    assert(pre[e] == rs[e]);
                                } else {
                                    assert(ed.contains(rs[e]));
                                    let x = choose|x: int| 0 <= x < ed.len() && ed[x] == rs[e];
                                    assert(ed[x].owner == Some(b));
                                }
                            }
                        }
                        if in_this {
                            assert(bfs_reached(root, ed, a));
                            if a == root {
                                assert(roots_now[roots_now.len() - 1] == a);
                                assert(roots_now.contains(a));
                            } else {
                                let e = choose|e: int|
                                    0 <= e < ed.len() && #[trigger] ed[e].owner == Some(a);
                                assert(rs.contains(ed[e]));
                                let u = choose|u: int| 0 <= u < rs.len() && rs[u] == ed[e];
                                assert(rs[u].owner == Some(a));
                            }
                        } else {
                            assert(reached_any(roots_pre, pre, a));
                            if roots_pre.contains(a) {
                                let i = choose|i: int|
                                    0 <= i < roots_pre.len() && roots_pre[i] == a;
                                assert(roots_now[i] == a);
                                assert(roots_now.contains(a));
                            } else {
                                let e = choose|e: int|
                                    0 <= e < pre.len() && #[trigger] pre[e].owner == Some(a);
                                assert(rs[e].owner == Some(a));
                            }
                        }
                    }
                }
            }
            k += 1;
        }
        proof {
            assert(ref_ids.deep_view().take(ref_ids.deep_view().len() as int) =~= ref_ids.deep_view());
            assert(ref_ids.deep_view().skip(ref_ids.deep_view().len() as int).len() == 0);
            assert(results.deep_view() == whole);
        }
        results
    }
}



/// Snapshot monotonicity: between two query offsets with no snapshot written
/// strictly between them, the subscriber set reads the same.  Together with
/// the write contract — a snapshot at `offset` answers every query at or
/// after `offset` with its set and leaves earlier queries alone — the set at
/// a later offset is the set at an earlier one with exactly the intervening
/// diffs applied.
pub proof fn lemma_snapshot_monotonicity(snaps: Seq<SubsRowView>, a: i64, b: i64)
    requires
        a <= b,
        forall|k: int|
            0 <= k < snaps.len() ==> ((#[trigger] snaps[k]).offset <= a || snaps[k].offset > b),
    ensures
        subs_at(snaps, a) == subs_at(snaps, b),
    decreases snaps.len(),
{
    if snaps.len() == 0 {
    } else {
        assert(snaps[0].offset <= a || snaps[0].offset > b);
        if snaps.first().offset <= a {
        } else {
            assert forall|k: int|
                0 <= k < snaps.drop_first().len() implies ((#[trigger] snaps.drop_first()[k]).offset
                <= a || snaps.drop_first()[k].offset > b) by {
                assert(snaps.drop_first()[k] == snaps[k + 1]);
            }
            lemma_snapshot_monotonicity(snaps.drop_first(), a, b);
        }
    }
}


} // verus!
