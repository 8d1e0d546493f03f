//! The object cache: per file and object, the history of changes, newest
//! first, together with the latest offset seen for each file and the set of
//! currently alive objects.
//!
//! The cache consumes the log entries of a file in order and answers
//! point-in-time queries: the state of an object at any offset is the entry
//! with the greatest offset not exceeding the queried one.

use vstd::prelude::*;

use crate::msg::{
    change_target, ChangeMsg, ChangeType, ChangeTypeView, ChangeView, OptionChangeMsg,
};

verus! {

/// Errors of the object cache.
#[derive(Debug)]
pub enum ObjError {
    /// No entry for the object (or file) at the requested coordinates.
    ObjNotFound(String),
    /// The change named no object: its change type was unset.
    NoChangeType,
}

/// One recorded change: which file and object it belongs to, the offset the
/// log assigned, and the change itself.
pub struct HistoryRow {
    pub file: String,
    pub obj_id: String,
    pub offset: i64,
    pub change: ChangeMsg,
}

/// Mathematical view of one recorded change.
pub ghost struct HistoryRowView {
    pub file: Seq<char>,
    pub obj_id: Seq<char>,
    pub offset: i64,
    pub change: ChangeView,
}

impl View for HistoryRow {
    type V = HistoryRowView;

    open spec fn view(&self) -> HistoryRowView {
        HistoryRowView {
            file: self.file@,
            obj_id: self.obj_id@,
            offset: self.offset,
            change: self.change@,
        }
    }
}

impl DeepView for HistoryRow {
    type V = HistoryRowView;

    open spec fn deep_view(&self) -> HistoryRowView {
        self.view()
    }
}

/// The latest offset recorded for a file; newer records shadow older ones.
pub struct OffsetRow {
    pub file: String,
    pub offset: i64,
}

/// Mathematical view of an offset record.
pub ghost struct OffsetRowView {
    pub file: Seq<char>,
    pub offset: i64,
}

impl View for OffsetRow {
    type V = OffsetRowView;

    open spec fn view(&self) -> OffsetRowView {
        OffsetRowView { file: self.file@, offset: self.offset }
    }
}

impl DeepView for OffsetRow {
    type V = OffsetRowView;

    open spec fn deep_view(&self) -> OffsetRowView {
        self.view()
    }
}

/// Membership of one object in the alive set of one file.
pub struct AliveRow {
    pub file: String,
    pub obj_id: String,
}

/// Mathematical view of an alive-set row.
pub ghost struct AliveRowView {
    pub file: Seq<char>,
    pub obj_id: Seq<char>,
}

impl View for AliveRow {
    type V = AliveRowView;

    open spec fn view(&self) -> AliveRowView {
        AliveRowView { file: self.file@, obj_id: self.obj_id@ }
    }
}

impl DeepView for AliveRow {
    type V = AliveRowView;

    open spec fn deep_view(&self) -> AliveRowView {
        self.view()
    }
}

/// Selects the rows of one object in one file.
pub open spec fn key_pred(file: Seq<char>, obj: Seq<char>) -> spec_fn(HistoryRowView) -> bool {
    |r: HistoryRowView| r.file == file && r.obj_id == obj
}

/// The point-in-time read: the first entry, scanning newest first, whose
/// offset does not exceed `q`.
pub open spec fn lookup_at(entries: Seq<HistoryRowView>, q: i64) -> Option<ChangeView>
    decreases entries.len(),
{
    if entries.len() == 0 {
        None
    } else if entries.first().offset <= q {
        Some(entries.first().change)
    } else {
        lookup_at(entries.drop_first(), q)
    }
}

/// The latest offset recorded for `file`, scanning newest first.
pub open spec fn first_offset(rows: Seq<OffsetRowView>, file: Seq<char>) -> Option<i64>
    decreases rows.len(),
{
    if rows.len() == 0 {
        None
    } else if rows.first().file == file {
        Some(rows.first().offset)
    } else {
        first_offset(rows.drop_first(), file)
    }
}

/// Filtering a sequence with one more element in front keeps or drops that
/// element and leaves the rest of the filtered sequence unchanged.
pub proof fn lemma_filter_cons<A>(x: A, s: Seq<A>, pred: spec_fn(A) -> bool)
    ensures
        (seq![x] + s).filter(pred) == if pred(x) {
            seq![x] + s.filter(pred)
        } else {
            s.filter(pred)
        },
{
    Seq::filter_distributes_over_add(seq![x], s, pred);
    reveal_with_fuel(Seq::filter, 3);
    let single = seq![x];
    let empty = Seq::<A>::empty();
    assert(single.drop_last() =~= empty);
    assert(empty.filter(pred) =~= empty);
    assert(single.last() == x);
    if pred(x) {
        assert(single.filter(pred) =~= empty.filter(pred).push(x));
        assert(single.filter(pred) =~= single);
        assert(single + s.filter(pred) == single.filter(pred) + s.filter(pred));
    } else {
        assert(single.filter(pred) =~= empty.filter(pred));
        assert(Seq::<A>::empty() + s.filter(pred) =~= s.filter(pred));
    }
}

/// A query for the state of one object at one offset.
#[derive(Debug, Clone)]
pub struct ObjectAtOffset {
    pub offset: i64,
    pub obj_id: String,
}

/// Input of a batched point-in-time read.
#[derive(Debug, Clone)]
pub struct GetObjectsInput {
    pub file: String,
    pub obj_ids: Vec<ObjectAtOffset>,
}

/// Input of a latest-offset query.
#[derive(Debug, Clone)]
pub struct GetLatestOffsetInput {
    pub file: String,
}

/// The object cache over every file.
pub struct ObjectCache {
    rows: Vec<HistoryRow>,
    offsets: Vec<OffsetRow>,
    alive: Vec<AliveRow>,
}

impl ObjectCache {
    /// The history of `obj` in `file`: its recorded changes, newest first.
    pub closed spec fn history(self, file: Seq<char>, obj: Seq<char>) -> Seq<HistoryRowView> {
        self.rows.deep_view().filter(key_pred(file, obj))
    }

    /// The latest offset recorded for `file`, if any entry was consumed.
    pub closed spec fn latest_offset(self, file: Seq<char>) -> Option<i64> {
        first_offset(self.offsets.deep_view(), file)
    }

    /// Whether `obj` is in the alive set of `file`.
    pub closed spec fn spec_alive(self, file: Seq<char>, obj: Seq<char>) -> bool {
        exists|i: int|
            0 <= i < self.alive.deep_view().len() && self.alive.deep_view()[i] == (AliveRowView {
                file,
                obj_id: obj,
            })
    }

    /// Internal well-formedness: the alive set holds no duplicate rows.
    pub closed spec fn inv(self) -> bool {
        forall|i: int, j: int|
            0 <= i < j < self.alive.deep_view().len() ==> self.alive.deep_view()[i]
                != self.alive.deep_view()[j]
    }

    /// An empty cache: no history, no offsets, nothing alive.
    pub fn new() -> (r: ObjectCache)
        ensures
            r.inv(),
            forall|f: Seq<char>, o: Seq<char>| #[trigger] r.history(f, o) == Seq::<
                HistoryRowView,
            >::empty(),
            forall|f: Seq<char>| #[trigger] r.latest_offset(f) is None,
            forall|f: Seq<char>, o: Seq<char>| !#[trigger] r.spec_alive(f, o),
    {
        let r = ObjectCache { rows: Vec::new(), offsets: Vec::new(), alive: Vec::new() };
        proof {
            assert(r.rows.deep_view() =~= Seq::<HistoryRowView>::empty());
            assert(r.offsets.deep_view() =~= Seq::<OffsetRowView>::empty());
            assert(r.alive.deep_view() =~= Seq::<AliveRowView>::empty());
            assert forall|f: Seq<char>, o: Seq<char>| #[trigger] r.history(f, o) == Seq::<
                HistoryRowView,
            >::empty() by {
                reveal(Seq::filter);
            }
        }
        r
    }

    /// Records one log entry: prepends it to the object's history, advances
    /// the file's latest offset, and updates the alive set (an add inserts,
    /// a delete removes, a modify leaves it alone).  Rejects a change whose
    /// change type is unset.
    pub fn update_object_cache(&mut self, file: &str, offset: i64, change: ChangeMsg) -> (r: Result<
        (),
        ObjError,
    >)
        requires
            old(self).inv(),
        ensures
            final(self).inv(),
            match r {
                Ok(()) => {
                    &&& change_target(change@) is Some
                    &&& {
                        let target = change_target(change@).unwrap();
                        let row = HistoryRowView {
                            file: file@,
                            obj_id: target,
                            offset,
                            change: change@,
                        };
                        &&& final(self).history(file@, target) == seq![row] + old(self).history(
                            file@,
                            target,
                        )
                        &&& forall|f: Seq<char>, o: Seq<char>|
                            !(f == file@ && o == target) ==> #[trigger] final(self).history(f, o)
                                == old(self).history(f, o)
                        &&& final(self).latest_offset(file@) == Some(offset)
                        &&& forall|f: Seq<char>|
                            f != file@ ==> #[trigger] final(self).latest_offset(f) == old(
                                self,
                            ).latest_offset(f)
                        &&& match change@.change_type {
                            Some(ChangeTypeView::Add(_)) => forall|o: Seq<char>|
                                #[trigger] final(self).spec_alive(file@, o) == (o == target || old(
                                    self,
                                ).spec_alive(file@, o)),
                            Some(ChangeTypeView::Delete(_)) => forall|o: Seq<char>|
                                #[trigger] final(self).spec_alive(file@, o) == (o != target && old(
                                    self,
                                ).spec_alive(file@, o)),
                            _ => forall|o: Seq<char>| #[trigger]
                                final(self).spec_alive(file@, o) == old(self).spec_alive(file@, o),
                        }
                        &&& forall|f: Seq<char>, o: Seq<char>|
                            f != file@ ==> #[trigger] final(self).spec_alive(f, o) == old(
                                self,
                            ).spec_alive(f, o)
                    }
                },
                Err(e) => {
                    &&& e matches ObjError::NoChangeType
                    &&& change@.change_type is None
                    &&& *final(self) == *old(self)
                },
            },
    {
        let (id, is_add, is_delete) = match &change.change_type {
            Some(ChangeType::Add(object)) => (object.id.clone(), true, false),
            Some(ChangeType::Modify(object)) => (object.id.clone(), false, false),
            Some(ChangeType::Delete(del)) => (del.id.clone(), false, true),
            None => {
                return Err(ObjError::NoChangeType);
            },
        };
        self.store_object_change(file, offset, &id, change);
        let ghost after_history = *self;
        self.store_file_offset(file, offset);
        let ghost after_offset = *self;
        if is_add {
            self.alive_insert(file, &id);
        } else if is_delete {
            self.alive_remove(file, &id);
        }
        proof {
            assert(self.rows == after_history.rows);
            assert forall|f: Seq<char>, o: Seq<char>| !(f == file@ && o == id@) implies #[trigger] self.history(f, o) == old(self).history(f, o) by {
                assert(after_history.history(f, o) == old(self).history(f, o));
                assert(self.history(f, o) == after_history.history(f, o));
            }
            assert(self.history(file@, id@) == after_history.history(file@, id@));
            assert(self.offsets == after_offset.offsets);
            assert forall|f: Seq<char>| f != file@ implies #[trigger] self.latest_offset(f) == old(
                self,
            ).latest_offset(f) by {
                assert(after_offset.latest_offset(f) == after_history.latest_offset(f));
                assert(after_history.latest_offset(f) == old(self).latest_offset(f));
                assert(self.latest_offset(f) == after_offset.latest_offset(f));
            }
            assert(self.latest_offset(file@) == after_offset.latest_offset(file@));
        }
        Ok(())
    }

    /// Prepends one change to the history of `(file, key)` and no other.
    fn store_object_change(&mut self, file: &str, offset: i64, key: &str, change: ChangeMsg)
        ensures
            ({
                let row = HistoryRowView { file: file@, obj_id: key@, offset, change: change@ };
                &&& final(self).history(file@, key@) == seq![row] + old(self).history(file@, key@)
                &&& forall|f: Seq<char>, o: Seq<char>|
                    !(f == file@ && o == key@) ==> #[trigger] final(self).history(f, o) == old(
                        self,
                    ).history(f, o)
            }),
            final(self).offsets == old(self).offsets,
            final(self).alive == old(self).alive,
    {
        let row = HistoryRow {
            file: String::from_str(file),
            obj_id: String::from_str(key),
            offset,
            change,
        };
        let ghost rowv = row@;
        let ghost pre = self.rows.deep_view();
        self.rows.insert(0, row);
        proof {
            assert(self.rows.deep_view() =~= seq![rowv] + pre);
            lemma_filter_cons(rowv, pre, key_pred(file@, key@));
            assert forall|f: Seq<char>, o: Seq<char>| !(f == file@ && o == key@) implies #[trigger] self.history(f, o)
                == old(self).history(f, o) by {
                lemma_filter_cons(rowv, pre, key_pred(f, o));
            }
        }
    }

    /// Records `offset` as the latest one of `file`.
    fn store_file_offset(&mut self, file: &str, offset: i64)
        ensures
            final(self).latest_offset(file@) == Some(offset),
            forall|f: Seq<char>|
                f != file@ ==> #[trigger] final(self).latest_offset(f) == old(self).latest_offset(
                    f,
                ),
            final(self).rows == old(self).rows,
            final(self).alive == old(self).alive,
    {
        let row = OffsetRow { file: String::from_str(file), offset };
        let ghost rowv = row@;
        let ghost pre = self.offsets.deep_view();
        self.offsets.insert(0, row);
        proof {
            assert(self.offsets.deep_view() =~= seq![rowv] + pre);
            assert((seq![rowv] + pre).drop_first() =~= pre);
        }
    }

    /// Puts `(file, key)` into the alive set if it is not there yet.
    fn alive_insert(&mut self, file: &str, key: &str)
        requires
            old(self).inv(),
        ensures
            final(self).inv(),
            forall|o: Seq<char>|
                #[trigger] final(self).spec_alive(file@, o) == (o == key@ || old(self).spec_alive(
                    file@,
                    o,
                )),
            forall|f: Seq<char>, o: Seq<char>|
                f != file@ ==> #[trigger] final(self).spec_alive(f, o) == old(self).spec_alive(
                    f,
                    o,
                ),
            final(self).rows == old(self).rows,
            final(self).offsets == old(self).offsets,
    {
        let file_string = String::from_str(file);
        let key_string = String::from_str(key);
        let mut i: usize = 0;
        while i < self.alive.len()
            invariant
                i <= self.alive.len(),
                forall|j: int|
                    0 <= j < i ==> self.alive.deep_view()[j] != (AliveRowView {
                        file: file_string@,
                        obj_id: key_string@,
                    }),
                file_string@ == file@,
                key_string@ == key@,
                self.inv(),
                *self == *old(self),
            decreases self.alive.len() - i,
        {
            if self.alive[i].file == file_string && self.alive[i].obj_id == key_string {
                proof {
                    assert(self.alive.deep_view()[i as int] == (AliveRowView {
                        file: file@,
                        obj_id: key@,
                    }));
                }
                return ;
            }
            i += 1;
        }
        let row = AliveRow { file: file_string, obj_id: key_string };
        let ghost rowv = row@;
        let ghost pre = self.alive.deep_view();
        self.alive.push(row);
        proof {
            assert(self.alive.deep_view() =~= pre.push(rowv));
            let post = self.alive.deep_view();
            assert forall|o: Seq<char>| #[trigger] self.spec_alive(file@, o) == (o == key@ || old(
                self,
            ).spec_alive(file@, o)) by {
                let target = AliveRowView { file: file@, obj_id: o };
                if o == key@ {
                    assert(post[post.len() - 1] == target);
                    assert(self.spec_alive(file@, o));
                } else {
                    if self.spec_alive(file@, o) {
                        let w = choose|i: int| 0 <= i < post.len() && post[i] == target;
                        assert(pre[w] == target);
                        assert(old(self).spec_alive(file@, o));
                    }
                    if old(self).spec_alive(file@, o) {
                        let w = choose|i: int| 0 <= i < pre.len() && pre[i] == target;
                        assert(post[w] == target);
                    }
                }
            }
            assert forall|f: Seq<char>, o: Seq<char>| f != file@ implies #[trigger] self.spec_alive(
                f,
                o,
            ) == old(self).spec_alive(f, o) by {
                let target = AliveRowView { file: f, obj_id: o };
                if self.spec_alive(f, o) {
                    let w = choose|i: int| 0 <= i < post.len() && post[i] == target;
                    assert(pre[w] == target);
                }
                if old(self).spec_alive(f, o) {
                    let w = choose|i: int| 0 <= i < pre.len() && pre[i] == target;
                    assert(post[w] == target);
                }
            }
        }
    }

    /// Takes `(file, key)` out of the alive set if it is there.
    fn alive_remove(&mut self, file: &str, key: &str)
        requires
            old(self).inv(),
        ensures
            final(self).inv(),
            forall|o: Seq<char>|
                #[trigger] final(self).spec_alive(file@, o) == (o != key@ && old(self).spec_alive(
                    file@,
                    o,
                )),
            forall|f: Seq<char>, o: Seq<char>|
                f != file@ ==> #[trigger] final(self).spec_alive(f, o) == old(self).spec_alive(
                    f,
                    o,
                ),
            final(self).rows == old(self).rows,
            final(self).offsets == old(self).offsets,
    {
        let file_string = String::from_str(file);
        let key_string = String::from_str(key);
        let ghost target = AliveRowView { file: file@, obj_id: key@ };
        let mut i: usize = 0;
        while i < self.alive.len()
            invariant
                i <= self.alive.len(),
                forall|j: int| 0 <= j < i ==> self.alive.deep_view()[j] != target,
                target == (AliveRowView { file: file_string@, obj_id: key_string@ }),
                file_string@ == file@,
                key_string@ == key@,
                self.inv(),
                *self == *old(self),
            decreases self.alive.len() - i,
        {
            if self.alive[i].file == file_string && self.alive[i].obj_id == key_string {
                let ghost pre = self.alive.deep_view();
                proof {
                    assert(pre[i as int].file == file@);
                    assert(pre[i as int].obj_id == key@);
                    assert(pre[i as int] == target);
                }
                self.alive.remove(i);
                proof {
                    let post = self.alive.deep_view();
                    assert(post =~= pre.subrange(0, i as int) + pre.subrange(
                        i + 1,
                        pre.len() as int,
                    ));
                    // The removed row was the only one for this key, so the
                    // rest of the set reads the same before and after.
                    assert forall|f: Seq<char>, o: Seq<char>|
                        !(f == file@ && o == key@) implies (#[trigger] self.spec_alive(f, o) == old(
                        self,
                    ).spec_alive(f, o)) by {
                        let t2 = AliveRowView { file: f, obj_id: o };
                        if self.spec_alive(f, o) {
                            let w = choose|k: int| 0 <= k < post.len() && post[k] == t2;
                            if w < i {
                                assert(pre[w] == t2);
                            } else {
                                assert(pre[w + 1] == t2);
                            }
                            assert(old(self).spec_alive(f, o));
                        }
                        if old(self).spec_alive(f, o) {
                            let w = choose|k: int| 0 <= k < pre.len() && pre[k] == t2;
                            if w < i {
                                assert(post[w] == t2);
                            } else {
                                assert(w != i);
                                assert(post[w - 1] == t2);
                            }
                            assert(self.spec_alive(f, o));
                        }
                    }
                    assert(!self.spec_alive(file@, key@)) by {
                        if self.spec_alive(file@, key@) {
                            let w = choose|k: int| 0 <= k < post.len() && post[k] == target;
                            if w < i {
                                assert(pre[w] == target);
                                assert(pre[w] != pre[i as int]);
                            } else {
                                assert(pre[w + 1] == target);
                                assert(pre[i as int] != pre[w + 1]);
                            }
                        }
                    }
                    assert forall|k1: int, k2: int|
                        0 <= k1 < k2 < post.len() implies post[k1] != post[k2] by {
                        if k1 < i {
                            assert(post[k1] == pre[k1]);
                        } else {
                            assert(post[k1] == pre[k1 + 1]);
                        }
                        if k2 < i {
                            assert(post[k2] == pre[k2]);
                        } else {
                            assert(post[k2] == pre[k2 + 1]);
                        }
                    }
                }
                return ;
            }
            i += 1;
        }
        proof {
            assert(!self.spec_alive(file@, key@)) by {
                if self.spec_alive(file@, key@) {
                    let w = choose|k: int|
                        0 <= k < self.alive.deep_view().len() && self.alive.deep_view()[k]
                            == target;
                }
            }
        }
    }

    /// Reads one object at one offset: the newest entry at or below `offset`,
    /// or an error naming the object when there is none.
    pub fn get_object(&self, file: &str, offset: i64, key: &str) -> (r: Result<ChangeMsg, ObjError>)
        ensures
            match r {
                Ok(c) => lookup_at(self.history(file@, key@), offset) == Some(c@),
                Err(e) => {
                    &&& e matches ObjError::ObjNotFound(k) && k@ == key@
                    &&& lookup_at(self.history(file@, key@), offset) is None
                },
            },
    {
        let file_string = String::from_str(file);
        let key_string = String::from_str(key);
        let ghost d = self.rows.deep_view();
        let ghost pred = key_pred(file@, key@);
        let mut i: usize = 0;
        proof {
            assert(d.skip(0) =~= d);
        }
        while i < self.rows.len()
            invariant
                i <= self.rows.len(),
                d == self.rows.deep_view(),
                pred == key_pred(file_string@, key_string@),
                file_string@ == file@,
                key_string@ == key@,
                lookup_at(d.filter(pred), offset) == lookup_at(d.skip(i as int).filter(pred), offset),
            decreases self.rows.len() - i,
        {
            let row = &self.rows[i];
            let ghost rowv = d[i as int];
            proof {
                assert(d.skip(i as int) =~= seq![rowv] + d.skip(i + 1));
                lemma_filter_cons(rowv, d.skip(i + 1), pred);
                assert((seq![rowv] + d.skip(i + 1).filter(pred)).drop_first() =~= d.skip(
                    i + 1,
                ).filter(pred));
            }
            if row.file == file_string && row.obj_id == key_string && row.offset <= offset {
                return Ok(row.change.clone());
            }
            i += 1;
        }
        proof {
            assert(d.skip(self.rows.len() as int) =~= Seq::<HistoryRowView>::empty());
            reveal(Seq::filter);
        }
        Err(ObjError::ObjNotFound(key_string))
    }

    /// Reads a batch of objects, one optional change per query; a missing
    /// object yields an empty slot, never an error.
    pub fn get_objects(&self, input: &GetObjectsInput) -> (r: Result<Vec<OptionChangeMsg>, ObjError>)
        ensures
            match r {
                Ok(results) => {
                    &&& results@.len() == input.obj_ids@.len()
                    &&& forall|i: int|
                        0 <= i < results@.len() ==> #[trigger] results@[i]@ == lookup_at(
                            self.history(input.file@, input.obj_ids@[i].obj_id@),
                            input.obj_ids@[i].offset,
                        )
                },
                Err(_) => false,
            },
    {
        let mut results: Vec<OptionChangeMsg> = Vec::new();
        let mut i: usize = 0;
        while i < input.obj_ids.len()
            invariant
                i <= input.obj_ids@.len(),
                results@.len() == i,
                forall|j: int|
                    0 <= j < i ==> #[trigger] results@[j]@ == lookup_at(
                        self.history(input.file@, input.obj_ids@[j].obj_id@),
                        input.obj_ids@[j].offset,
                    ),
            decreases input.obj_ids@.len() - i,
        {
            let entry = &input.obj_ids[i];
            let mut current = OptionChangeMsg { change: None };
            match self.get_object(&input.file, entry.offset, &entry.obj_id) {
                Ok(change) => {
                    current.change = Some(change);
                },
                Err(e) => {
                    match e {
                        ObjError::ObjNotFound(_) => {},
                        _ => {
                            return Err(e);
                        },
                    }
                },
            }
            results.push(current);
            i += 1;
        }
        Ok(results)
    }

    /// The latest offset recorded for a file; an error when the cache has
    /// seen no entry of that file yet.
    pub fn get_latest_offset(&self, input: &GetLatestOffsetInput) -> (r: Result<i64, ObjError>)
        ensures
            match r {
                Ok(offset) => self.latest_offset(input.file@) == Some(offset),
                Err(e) => {
                    &&& e matches ObjError::ObjNotFound(f) && f@ == input.file@
                    &&& self.latest_offset(input.file@) is None
                },
            },
    {
        let ghost d = self.offsets.deep_view();
        let mut i: usize = 0;
        proof {
            assert(d.skip(0) =~= d);
        }
        while i < self.offsets.len()
            invariant
                i <= self.offsets.len(),
                d == self.offsets.deep_view(),
                first_offset(d, input.file@) == first_offset(d.skip(i as int), input.file@),
            decreases self.offsets.len() - i,
        {
            proof {
                assert(d.skip(i as int) =~= seq![d[i as int]] + d.skip(i + 1));
                assert((seq![d[i as int]] + d.skip(i + 1)).drop_first() =~= d.skip(i + 1));
            }
            if self.offsets[i].file == input.file {
                return Ok(self.offsets[i].offset);
            }
            i += 1;
        }
        proof {
            assert(d.skip(self.offsets.len() as int) =~= Seq::<OffsetRowView>::empty());
        }
        Err(ObjError::ObjNotFound(input.file.clone()))
    }

    /// The ids of the currently alive objects of a file, each exactly once.
    pub fn get_latest_obj_list(&self, file: &str) -> (r: Vec<String>)
        requires
            self.inv(),
        ensures
            forall|s: Seq<char>| #[trigger] r.deep_view().contains(s) == self.spec_alive(file@, s),
            forall|i: int, j: int| 0 <= i < j < r.deep_view().len() ==> r.deep_view()[i] != r.deep_view()[j],
    {
        let file_string = String::from_str(file);
        let ghost d = self.alive.deep_view();
        let mut results: Vec<String> = Vec::new();
        let mut i: usize = 0;
        while i < self.alive.len()
            invariant
                i <= self.alive.len(),
                d == self.alive.deep_view(),
                file_string@ == file@,
                self.inv(),
                forall|s: Seq<char>| #[trigger] results.deep_view().contains(s) == exists|k: int|
                    0 <= k < i && d[k] == (AliveRowView { file: file@, obj_id: s }),
                forall|k1: int, k2: int|
                    0 <= k1 < k2 < results.deep_view().len() ==> results.deep_view()[k1]
                        != results.deep_view()[k2],
            decreases self.alive.len() - i,
        {
            let ghost pre = results.deep_view();
            if self.alive[i].file == file_string {
                results.push(self.alive[i].obj_id.clone());
                proof {
                    let post = results.deep_view();
                    let this_id = d[i as int].obj_id;
                    assert(post =~= pre.push(this_id));
                    assert(d[i as int] == (AliveRowView { file: file@, obj_id: this_id }));
                    // The id cannot already be in the list: its earlier row
                    // would duplicate the current one.
                    assert(!pre.contains(this_id)) by {
                        if pre.contains(this_id) {
                            let k = choose|k: int|
                                0 <= k < i && d[k] == (AliveRowView {
                                    file: file@,
                                    obj_id: this_id,
                                });
                            assert(d[k] == d[i as int]);
                        }
                    }
                    assert forall|s: Seq<char>| #[trigger] post.contains(s) == exists|k: int|
                        0 <= k < i + 1 && d[k] == (AliveRowView { file: file@, obj_id: s }) by {
                        if s == this_id {
                            assert(post[post.len() - 1] == s);
                            assert(post.contains(s));
                        } else {
                            if post.contains(s) {
                                let w = choose|w: int| 0 <= w < post.len() && post[w] == s;
                                assert(pre[w] == s);
                                assert(pre.contains(s));
                            }
                            if pre.contains(s) {
                                let w = choose|w: int| 0 <= w < pre.len() && pre[w] == s;
                                assert(post[w] == s);
                            }
                        }
                    }
                }
            } else {
                proof {
                    assert forall|s: Seq<char>| #[trigger] results.deep_view().contains(s)
                        == exists|k: int|
                        0 <= k < i + 1 && d[k] == (AliveRowView { file: file@, obj_id: s }) by {
                        assert(d[i as int].file != file@);
                    }
                }
            }
            i += 1;
        }
        proof {
            assert forall|s: Seq<char>| #[trigger] results.deep_view().contains(s)
                == self.spec_alive(file@, s) by {}
        }
        results
    }
}


/// The point-in-time read returns the entry with the greatest offset not
/// exceeding the query, or nothing when every entry is newer.  This holds of
/// any history whose offsets strictly decrease from the newest entry down —
/// which consuming a file's log in offset order maintains.
pub proof fn lemma_point_in_time_read(entries: Seq<HistoryRowView>, q: i64)
    requires
        forall|i: int, j: int|
            0 <= i < j < entries.len() ==> (#[trigger] entries[i]).offset > (
            #[trigger] entries[j]).offset,
    ensures
        match lookup_at(entries, q) {
            Some(c) => exists|i: int|
                {
                    &&& 0 <= i < entries.len()
                    &&& (#[trigger] entries[i]).offset <= q
                    &&& entries[i].change == c
                    &&& forall|j: int|
                        0 <= j < entries.len() && (#[trigger] entries[j]).offset <= q
                            ==> entries[j].offset <= entries[i].offset
                },
            None => forall|i: int| 0 <= i < entries.len() ==> (#[trigger] entries[i]).offset > q,
        },
    decreases entries.len(),
{
    if entries.len() == 0 {
    } else if entries.first().offset <= q {
        assert(entries[0].offset <= q);
        assert forall|j: int|
            0 <= j < entries.len() && (#[trigger] entries[j]).offset <= q implies entries[j].offset
            <= entries[0].offset by {
            if j > 0 {
                assert(entries[0].offset > entries[j].offset);
            }
        }
    } else {
        let rest = entries.drop_first();
        assert forall|i: int, j: int|
            0 <= i < j < rest.len() implies (#[trigger] rest[i]).offset > (
        #[trigger] rest[j]).offset by {
            assert(rest[i] == entries[i + 1]);
            assert(rest[j] == entries[j + 1]);
        }
        lemma_point_in_time_read(rest, q);
        match lookup_at(entries, q) {
            Some(c) => {
                let i = choose|i: int|
                    {
                        &&& 0 <= i < rest.len()
                        &&& (#[trigger] rest[i]).offset <= q
                        &&& rest[i].change == c
                        &&& forall|j: int|
                            0 <= j < rest.len() && (#[trigger] rest[j]).offset <= q
                                ==> rest[j].offset <= rest[i].offset
                    };
                assert(entries[i + 1].offset <= q);
                assert(entries[i + 1].change == c);
                assert forall|j: int|
                    0 <= j < entries.len() && (#[trigger] entries[j]).offset <= q implies entries[
                j].offset <= entries[i + 1].offset by {
                    if j > 0 {
                        assert(rest[j - 1] == entries[j]);
                    }
                }
            },
            None => {
                assert forall|i: int|
                    0 <= i < entries.len() implies (#[trigger] entries[i]).offset > q by {
                    if i > 0 {
                        assert(rest[i - 1] == entries[i]);
                    }
                }
            },
        }
    }
}


} // verus!
