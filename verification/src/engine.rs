//! The engine: the append-only change log and the composition of the whole
//! pipeline — submit, propagation, and the consumers that keep the object
//! cache, the dependency index and the undo store in step with the log.
//!
//! The log assigns each file's changes consecutive offsets starting at one;
//! a submit validates the batch, walks the dependency graph as of the
//! client's offset, fetches the affected objects, runs one propagation pass,
//! appends the materialized changes, and feeds them to the consumers.

use vstd::prelude::*;

use crate::dep_cache::{
    all_deps_from, dep_update_effect, edges_sound_distinct, union_closed, DepCache,
};
use crate::invert::{invert_changes_inner, invert_result, previous_queries};
use crate::msg::{change_target, ChangeMsg, ChangeSource, ChangeSourceView, ChangeView};
use crate::object_cache::{lookup_at, GetObjectsInput, ObjectCache};
use crate::rep_cache::RepCache;
use crate::submit::{
    batch_map_of, extract_info, get_map_from_change_msgs, get_obj_ids_to_fetch, ids_to_fetch,
    rebuilt, seed_refs_of, to_change_msgs,
};
use crate::undo_cache::{recorded_effect, undo_unchanged, UndoCache, UndoEntryView};
use crate::update::{apply_references, update_all};

verus! {

/// Errors of the engine's operations.
#[derive(Debug)]
pub enum EngineError {
    /// A submit with no changes does nothing and is refused.
    EmptySubmit,
    /// No open event on the stack the operation reads.
    NoUndoEvent,
    /// The file's log cannot take this many more entries.
    LogFull,
    /// An entry of the open event sits at the integer floor, so the state
    /// just before it cannot be addressed.
    InvalidEntry,
    /// The open event's history is broken: an entry's previous state is
    /// absent or a delete, so there is nothing to roll back onto.
    NoPreviousState,
}

/// One log entry: a change of one file at its assigned offset.
pub struct LogRow {
    pub file: String,
    pub offset: i64,
    pub change: ChangeMsg,
}

/// Mathematical view of a log entry.
#[verifier::ext_equal]
pub ghost struct LogRowView {
    pub file: Seq<char>,
    pub offset: i64,
    pub change: ChangeView,
}

impl View for LogRow {
    type V = LogRowView;

    open spec fn view(&self) -> LogRowView {
        LogRowView { file: self.file@, offset: self.offset, change: self.change@ }
    }
}

impl DeepView for LogRow {
    type V = LogRowView;

    open spec fn deep_view(&self) -> LogRowView {
        self.view()
    }
}

/// Selects the log entries of one file.
pub open spec fn log_pred(file: Seq<char>) -> spec_fn(LogRowView) -> bool {
    |r: LogRowView| r.file == file
}

/// Filtering past one appended element keeps or adds it at the end.
pub proof fn lemma_filter_snoc<A>(s: Seq<A>, x: A, pred: spec_fn(A) -> bool)
    ensures
        (s + seq![x]).filter(pred) == if pred(x) {
            s.filter(pred) + seq![x]
        } else {
            s.filter(pred)
        },
{
    Seq::filter_distributes_over_add(s, seq![x], pred);
    reveal_with_fuel(Seq::filter, 3);
    let single = seq![x];
    let empty = Seq::<A>::empty();
    assert(single.drop_last() =~= empty);
    assert(empty.filter(pred) =~= empty);
    assert(single.last() == x);
    if pred(x) {
        assert(single.filter(pred) =~= empty.filter(pred).push(x));
        assert(single.filter(pred) =~= single);
    } else {
        assert(single.filter(pred) =~= empty.filter(pred));
        assert(s.filter(pred) + Seq::<A>::empty() =~= s.filter(pred));
    }
}

/// The append-only change log over every file.
pub struct ChangeLog {
    rows: Vec<LogRow>,
}

impl ChangeLog {
    /// The log of one file, in append order.
    pub closed spec fn file_log(self, file: Seq<char>) -> Seq<LogRowView> {
        self.rows.deep_view().filter(log_pred(file))
    }

    /// Offsets within a file are dense and one-based: the entry at position
    /// `k` carries offset `k + 1`.  Strict monotonicity follows.
    pub closed spec fn inv(self) -> bool {
        forall|f: Seq<char>, k: int|
            0 <= k < self.file_log(f).len() ==> (#[trigger] self.file_log(f)[k]).offset == k + 1
    }

    /// An empty log.
    pub fn new() -> (r: ChangeLog)
        ensures
            r.inv(),
            forall|f: Seq<char>| #[trigger] r.file_log(f) == Seq::<LogRowView>::empty(),
    {
        let r = ChangeLog { rows: Vec::new() };
        proof {
            assert(r.rows.deep_view() =~= Seq::<LogRowView>::empty());
            assert forall|f: Seq<char>| #[trigger] r.file_log(f) == Seq::<LogRowView>::empty() by {
                reveal(Seq::filter);
            }
        }
        r
    }

    /// Appends a batch to one file's log, assigning consecutive offsets that
    /// continue where the file left off; returns the assigned offsets.
    /// Offsets of one batch all exceed every offset assigned before it.
    pub fn append(&mut self, file: &str, changes: Vec<ChangeMsg>) -> (offsets: Vec<i64>)
        requires
            old(self).inv(),
            old(self).file_log(file@).len() + changes@.len() <= i64::MAX,
        ensures
            final(self).inv(),
            offsets@.len() == changes@.len(),
            forall|k: int|
                0 <= k < offsets@.len() ==> #[trigger] offsets@[k] == old(self).file_log(
                    file@,
                ).len() + 1 + k,
            final(self).file_log(file@).len() == old(self).file_log(file@).len()
                + changes@.len(),
            forall|k: int|
                0 <= k < old(self).file_log(file@).len() ==> #[trigger] final(self).file_log(
                    file@,
                )[k] == old(self).file_log(file@)[k],
            forall|k: int|
                0 <= k < changes@.len() ==> {
                    let row = #[trigger] final(self).file_log(file@)[old(self).file_log(
                        file@,
                    ).len() + k];
                    &&& row.file == file@
                    &&& row.offset == old(self).file_log(file@).len() + 1 + k
                    &&& row.change == changes.deep_view()[k]
                },
            forall|f: Seq<char>|
                f != file@ ==> #[trigger] final(self).file_log(f) == old(self).file_log(f),
    {
        let file_string = String::from_str(file);
        let base_u64 = self.count_file_u64(&file_string);
        let base = base_u64 as i64;
        let ghost base0 = base as int;
        let mut offsets: Vec<i64> = Vec::new();
        let mut changes = changes;
        let mut k: usize = 0;
        let ghost cvs = changes.deep_view();
        let total = changes.len();
        while k < total
            invariant
                k <= total,
                base == base0,
                0 <= base0,
                total + base0 <= i64::MAX,
                changes@.len() == total - k,
                forall|w: int|
                    0 <= w < changes@.len() ==> changes.deep_view()[w] == cvs[k + w],
                offsets@.len() == k,
                forall|w: int| 0 <= w < k ==> #[trigger] offsets@[w] == base0 + 1 + w,
                base0 == old(self).file_log(file@).len(),
                file_string@ == file@,
                self.inv(),
                self.file_log(file@).len() == base0 + k,
                forall|w: int|
                    0 <= w < base0 ==> #[trigger] self.file_log(file@)[w] == old(self).file_log(
                        file@,
                    )[w],
                forall|w: int|
                    0 <= w < k ==> {
                        let row = #[trigger] self.file_log(file@)[base0 + w];
                        &&& row.file == file@
                        &&& row.offset == base0 + 1 + w
                        &&& row.change == cvs[w]
                    },
                forall|f: Seq<char>|
                    f != file@ ==> #[trigger] self.file_log(f) == old(self).file_log(f),
            decreases total - k,
        {
            let ghost self_entry = *self;
            let ghost changes_pre = changes.deep_view();
            let change = changes.remove(0);
            proof {
                assert(change@ == changes_pre[0]);
                assert(change@ == cvs[k as int]);
                assert forall|w: int|
                    0 <= w < changes@.len() implies changes.deep_view()[w] == cvs[k + 1 + w] by {
                    assert(changes.deep_view()[w] == changes_pre[w + 1]);
                }
            }
            let offset = base + 1 + (k as i64);
            let row = LogRow { file: file_string.clone(), offset, change };
            let ghost rowv = row@;
            let ghost pre_rows = self.rows.deep_view();
            self.rows.push(row);
            offsets.push(offset);
            proof {
                assert(rowv.file == file@);
                assert(rowv.offset == base0 + 1 + k);
                assert(rowv.change == cvs[k as int]);
                assert(offsets@[k as int] == offset);
                assert(self.rows.deep_view() =~= pre_rows + seq![rowv]);
                assert(pre_rows == self_entry.rows.deep_view());
                lemma_filter_snoc(pre_rows, rowv, log_pred(file@));
                assert(self.file_log(file@) == self_entry.file_log(file@) + seq![rowv]);
                assert forall|f: Seq<char>| f != file@ implies #[trigger] self.file_log(f)
                    == old(self).file_log(f) by {
                    lemma_filter_snoc(pre_rows, rowv, log_pred(f));
                    assert(self.file_log(f) == self_entry.file_log(f));
                    assert(self_entry.file_log(f) == old(self).file_log(f));
                }
                assert forall|f: Seq<char>, w: int|
                    0 <= w < self.file_log(f).len() implies (#[trigger] self.file_log(f)[w]).offset
                    == w + 1 by {
                    if f == file@ {
                        if w < base0 + k {
                            assert(self.file_log(f)[w] == self_entry.file_log(f)[w]);
                            assert(self_entry.inv());
                        } else {
                            assert(self.file_log(f)[w] == rowv);
                        }
                    } else {
                        lemma_filter_snoc(pre_rows, rowv, log_pred(f));
                        assert(self.file_log(f) == self_entry.file_log(f));
                        assert(self_entry.inv());
                    }
                }
            }
            k += 1;
        }
        proof {
            assert(cvs.skip(total as int).len() == 0);
        }
        offsets
    }

    /// Counts one file's log entries.
    pub fn count_file_u64(&self, file: &String) -> (r: u64)
        ensures
            r == self.file_log(file@).len(),
    {
        let ghost d = self.rows.deep_view();
        let mut count: u64 = 0;
        let mut i: usize = 0;
        proof {
            assert(d.take(0) =~= Seq::<LogRowView>::empty());
            assert(d.take(0).filter(log_pred(file@)) =~= Seq::<LogRowView>::empty()) by {
                reveal(Seq::filter);
            }
        }
        while i < self.rows.len()
            invariant
                i <= self.rows.len(),
                d == self.rows.deep_view(),
                self.file_log(file@) == d.filter(log_pred(file@)),
                count == d.take(i as int).filter(log_pred(file@)).len(),
                count <= i,
            decreases self.rows.len() - i,
        {
            proof {
                assert(d.take(i + 1) =~= d.take(i as int) + seq![d[i as int]]);
                lemma_filter_snoc(d.take(i as int), d[i as int], log_pred(file@));
            }
            if self.rows[i].file == *file {
                count = count + 1;
            }
            i += 1;
        }
        proof {
            assert(d.take(self.rows@.len() as int) =~= d);
        }
        count
    }
}

/// Offsets within one file strictly increase along the log.
pub proof fn lemma_offset_monotonicity(log: ChangeLog, file: Seq<char>)
    requires
        log.inv(),
    ensures
        forall|i: int, j: int|
            0 <= i < j < log.file_log(file).len() ==> (#[trigger] log.file_log(file)[i]).offset < (
            #[trigger] log.file_log(file)[j]).offset,
{
}

/// The changes fetched for a list of object ids, as of offset `q`: each
/// answered id contributes its stored change with the submitting user's name
/// put on it; an unanswered id contributes nothing.
pub open spec fn fetched_of(
    cache: ObjectCache,
    file: Seq<char>,
    q: i64,
    ids: Seq<Seq<char>>,
    user: Seq<char>,
) -> Seq<ChangeView>
    decreases ids.len(),
{
    if ids.len() == 0 {
        Seq::empty()
    } else {
        let head: Seq<ChangeView> = match lookup_at(cache.history(file, ids.first()), q) {
            Some(c) => seq![
                ChangeView { user, change_type: c.change_type, change_source: c.change_source },
            ],
            None => Seq::empty(),
        };
        head + fetched_of(cache, file, q, ids.drop_first(), user)
    }
}

/// Fetching one more id appends its contribution.
proof fn lemma_fetched_snoc(
    cache: ObjectCache,
    file: Seq<char>,
    q: i64,
    ids: Seq<Seq<char>>,
    j: int,
    user: Seq<char>,
)
    requires
        0 <= j < ids.len(),
    ensures
        fetched_of(cache, file, q, ids.take(j + 1), user) == fetched_of(
            cache,
            file,
            q,
            ids.take(j),
            user,
        ) + (match lookup_at(cache.history(file, ids[j]), q) {
            Some(c) => seq![
                ChangeView { user, change_type: c.change_type, change_source: c.change_source },
            ],
            None => Seq::<ChangeView>::empty(),
        }),
    decreases j,
{
    if j == 0 {
        assert(ids.take(1).first() == ids[0]);
        assert(ids.take(1).drop_first() =~= Seq::<Seq<char>>::empty());
        assert(ids.take(0) =~= Seq::<Seq<char>>::empty());
        assert(fetched_of(cache, file, q, ids.take(0), user) =~= Seq::<ChangeView>::empty());
        match lookup_at(cache.history(file, ids[0]), q) {
            Some(c) => {
                let head = seq![
                    ChangeView { user, change_type: c.change_type, change_source: c.change_source },
                ];
                assert(head + Seq::<ChangeView>::empty() =~= Seq::<ChangeView>::empty() + head);
            },
            None => {},
        }
    } else {
        assert(ids.take(j + 1).first() == ids[0]);
        assert(ids.take(j).first() == ids[0]);
        assert(ids.take(j + 1).drop_first() =~= ids.drop_first().take(j));
        assert(ids.take(j).drop_first() =~= ids.drop_first().take(j - 1));
        assert(ids.drop_first()[j - 1] == ids[j]);
        lemma_fetched_snoc(cache, file, q, ids.drop_first(), j - 1, user);
        let head0: Seq<ChangeView> = match lookup_at(cache.history(file, ids[0]), q) {
            Some(c) => seq![
                ChangeView { user, change_type: c.change_type, change_source: c.change_source },
            ],
            None => Seq::empty(),
        };
        let tail_prev = fetched_of(cache, file, q, ids.drop_first().take(j - 1), user);
        let headj: Seq<ChangeView> = match lookup_at(cache.history(file, ids[j]), q) {
            Some(c) => seq![
                ChangeView { user, change_type: c.change_type, change_source: c.change_source },
            ],
            None => Seq::empty(),
        };
        assert(head0 + (tail_prev + headj) =~= (head0 + tail_prev) + headj);
    }
}

/// What a successful submit appended: the traversal's edges are exactly the
/// breadth-first union over the batch's seed references (sound and closed),
/// the batch was merged with the fetched closure, one propagation pass ran,
/// and the rebuilt changes are what the log took.
pub open spec fn submitted_results(
    pre: Engine,
    file: Seq<char>,
    user: Seq<char>,
    q: i64,
    changes: Seq<ChangeView>,
    refs: Seq<crate::msg::ReferenceView>,
    results: Seq<ChangeView>,
) -> bool {
    let batch = batch_map_of(changes);
    let fetched = fetched_of(
        pre.objects,
        file,
        q,
        ids_to_fetch(refs, batch),
        user,
    );
    let merged = batch.map_values(|p: (Seq<char>, ChangeView)| p.1) + fetched;
    &&& refs == all_deps_from(
        pre.deps,
        file,
        q,
        seed_refs_of(changes),
        Seq::<crate::msg::ReferenceView>::empty(),
    )
    &&& edges_sound_distinct(pre.deps, file, q, refs)
    &&& union_closed(pre.deps, file, q, seed_refs_of(changes), refs)
    &&& results == rebuilt(
        merged,
        apply_references(crate::submit::obj_map_of(merged), refs),
    )
}


/// The object states just before each entry's recorded offset, as the cache
/// answers them.
pub open spec fn previous_of(
    cache: ObjectCache,
    file: Seq<char>,
    entries: Seq<UndoEntryView>,
) -> Seq<Option<ChangeView>> {
    Seq::new(
        entries.len(),
        |i: int|
            lookup_at(
                cache.history(file, entries[i].obj_id),
                (entries[i].offset - 1) as i64,
            ),
    )
}

/// The replay tag a rollback of one side carries.
pub open spec fn rollback_source(from_redo: bool, event: Seq<char>) -> ChangeSourceView {
    if from_redo {
        ChangeSourceView::Redo(event)
    } else {
        ChangeSourceView::Undo(event)
    }
}

/// The rollback batch of the open event on one side: its entries inverted,
/// in order, against the object states just before each recorded offset;
/// nothing when an entry's history is broken.
pub open spec fn inverted_batch(
    pre: Engine,
    file: Seq<char>,
    user: Seq<char>,
    from_redo: bool,
) -> Option<Seq<ChangeView>> {
    let st = pre.undo.stack(file, user, from_redo);
    let top = st.last();
    let entries = pre.undo.event_entries(top);
    invert_result(
        user,
        rollback_source(from_redo, top),
        entries,
        previous_of(pre.objects, file, entries),
    )
}

/// What reading one side's open event does to the undo store: a fresh event
/// opens on the stack of `to_side` (the side the replay will record into)
/// and nothing else moves.
pub open spec fn undo_read_effect(
    pre: UndoCache,
    post: UndoCache,
    file: Seq<char>,
    user: Seq<char>,
    to_side: bool,
) -> bool {
    &&& exists|id: Seq<char>| #[trigger] post.stack(file, user, to_side) == pre.stack(
        file,
        user,
        to_side,
    ).push(id)
    &&& post.stack(file, user, !to_side) == pre.stack(file, user, !to_side)
    &&& forall|f: Seq<char>, u: Seq<char>, rd: bool|
        !(f == file && u == user) ==> #[trigger] post.stack(f, u, rd) == pre.stack(f, u, rd)
    &&& forall|e: Seq<char>| #[trigger] post.event_entries(e) == pre.event_entries(e)
}

/// Every store but the undo store reads the same.
pub open spec fn frozen_but_undo(pre: Engine, post: Engine) -> bool {
    &&& post.log == pre.log
    &&& post.objects == pre.objects
    &&& post.deps == pre.deps
    &&& post.reps == pre.reps
}

/// The full outcome of a rollback (an undo or a redo of the latest event).
/// On success the open event's entries all carried addressable offsets, the
/// batch of inverses was submitted, and the log grew by exactly the
/// propagated set at fresh consecutive offsets.  Each error names its
/// condition: no open event (nothing moved); an entry at the integer floor;
/// a broken history; an empty batch of inverses; or a full log — the last
/// four after the read already opened the opposite event.
pub open spec fn rollback_contract(
    pre: Engine,
    post: Engine,
    file: Seq<char>,
    user: Seq<char>,
    q: i64,
    from_redo: bool,
    r: Result<Vec<i64>, EngineError>,
) -> bool {
    let st = pre.undo.stack(file, user, from_redo);
    let top = st.last();
    let entries = pre.undo.event_entries(top);
    match r {
        Ok(offsets) => {
            &&& st.len() > 0
            &&& forall|w: int|
                0 <= w < entries.len() ==> (#[trigger] entries[w]).offset > i64::MIN
            &&& match inverted_batch(pre, file, user, from_redo) {
                Some(inverted) => {
                    &&& inverted.len() > 0
                    &&& exists|refs: Seq<crate::msg::ReferenceView>, results: Seq<ChangeView>|
                        {
                            &&& #[trigger] submitted_results(
                                pre,
                                file,
                                user,
                                q,
                                inverted,
                                refs,
                                results,
                            )
                            &&& offsets@.len() == results.len()
                            &&& forall|k: int|
                                0 <= k < results.len() ==> (#[trigger] post.log.file_log(
                                    file,
                                )[pre.log.file_log(file).len() + k]).change == results[k]
                        }
                },
                None => false,
            }
            &&& forall|k: int|
                0 <= k < offsets@.len() ==> #[trigger] offsets@[k] == pre.log.file_log(
                    file,
                ).len() + 1 + k
            &&& post.log.file_log(file).len() == pre.log.file_log(file).len() + offsets@.len()
            &&& forall|k: int|
                0 <= k < pre.log.file_log(file).len() ==> #[trigger] post.log.file_log(file)[k]
                    == pre.log.file_log(file)[k]
            &&& forall|f: Seq<char>|
                f != file ==> #[trigger] post.log.file_log(f) == pre.log.file_log(f)
        },
        Err(e) => match e {
            EngineError::NoUndoEvent => {
                &&& st.len() == 0
                &&& frozen_but_undo(pre, post)
                &&& undo_unchanged(pre.undo, post.undo)
            },
            EngineError::InvalidEntry => {
                &&& st.len() > 0
                &&& exists|w: int|
                    0 <= w < entries.len() && (#[trigger] entries[w]).offset == i64::MIN
                &&& frozen_but_undo(pre, post)
                &&& undo_read_effect(pre.undo, post.undo, file, user, !from_redo)
            },
            EngineError::NoPreviousState => {
                &&& st.len() > 0
                &&& forall|w: int|
                    0 <= w < entries.len() ==> (#[trigger] entries[w]).offset > i64::MIN
                &&& inverted_batch(pre, file, user, from_redo) is None
                &&& frozen_but_undo(pre, post)
                &&& undo_read_effect(pre.undo, post.undo, file, user, !from_redo)
            },
            EngineError::EmptySubmit => {
                &&& st.len() > 0
                &&& forall|w: int|
                    0 <= w < entries.len() ==> (#[trigger] entries[w]).offset > i64::MIN
                &&& match inverted_batch(pre, file, user, from_redo) {
                    Some(inverted) => inverted.len() == 0,
                    None => false,
                }
                &&& frozen_but_undo(pre, post)
                &&& undo_read_effect(pre.undo, post.undo, file, user, !from_redo)
            },
            EngineError::LogFull => {
                &&& st.len() > 0
                &&& forall|w: int|
                    0 <= w < entries.len() ==> (#[trigger] entries[w]).offset > i64::MIN
                &&& match inverted_batch(pre, file, user, from_redo) {
                    Some(inverted) => {
                        &&& inverted.len() > 0
                        &&& exists|
                            refs: Seq<crate::msg::ReferenceView>,
                            results: Seq<ChangeView>,
                        |
                            {
                                &&& #[trigger] submitted_results(
                                    pre,
                                    file,
                                    user,
                                    q,
                                    inverted,
                                    refs,
                                    results,
                                )
                                &&& pre.log.file_log(file).len() + results.len() > i64::MAX
                            }
                    },
                    None => false,
                }
                &&& frozen_but_undo(pre, post)
                &&& undo_read_effect(pre.undo, post.undo, file, user, !from_redo)
            },
        },
    }
}

/// The engine: the log and the stores every committed change flows into.
pub struct Engine {
    pub log: ChangeLog,
    pub objects: ObjectCache,
    pub deps: DepCache,
    pub undo: UndoCache,
    pub reps: RepCache,
}

impl Engine {
    /// Well-formedness of every component.
    pub open spec fn inv(self) -> bool {
        &&& self.log.inv()
        &&& self.objects.inv()
        &&& self.undo.inv()
    }

    /// A fresh engine: empty log, empty stores.
    pub fn new() -> (r: Engine)
        ensures
            r.inv(),
            forall|f: Seq<char>| #[trigger] r.log.file_log(f) == Seq::<LogRowView>::empty(),
            forall|f: Seq<char>, o: Seq<char>| #[trigger] r.objects.history(f, o) == Seq::<
                crate::object_cache::HistoryRowView,
            >::empty(),
            forall|f: Seq<char>, u: Seq<char>, redo: bool| #[trigger] r.undo.stack(f, u, redo)
                == Seq::<Seq<char>>::empty(),
            forall|e: Seq<char>| #[trigger] r.undo.event_entries(e) == Seq::<
                crate::undo_cache::UndoEntryView,
            >::empty(),
    {
        Engine {
            log: ChangeLog::new(),
            objects: ObjectCache::new(),
            deps: DepCache::new(),
            undo: UndoCache::new(),
            reps: RepCache::new(),
        }
    }

    /// Feeds one committed log entry to the consumers: the object cache, the
    /// dependency index and the undo store, each by its own contract.  A
    /// consumer that refuses the entry (no change type, no open event) is
    /// skipped, never stalls the rest.
    pub fn consume_entry(&mut self, file: &str, offset: i64, change: &ChangeMsg)
        requires
            old(self).inv(),
        ensures
            final(self).inv(),
            final(self).log == old(self).log,
            final(self).reps == old(self).reps,
            // the object cache consumed the entry, or refused an untyped one
            match change_target(change@) {
                Some(target) => {
                    &&& final(self).objects.history(file@, target) == seq![
                        crate::object_cache::HistoryRowView {
                            file: file@,
                            obj_id: target,
                            offset,
                            change: change@,
                        },
                    ] + old(self).objects.history(file@, target)
                    &&& forall|f: Seq<char>, o: Seq<char>|
                        !(f == file@ && o == target) ==> #[trigger] final(self).objects.history(
                            f,
                            o,
                        ) == old(self).objects.history(f, o)
                    &&& final(self).objects.latest_offset(file@) == Some(offset)
                },
                None => final(self).objects == old(self).objects,
            },
            dep_update_effect(old(self).deps, final(self).deps, file@, offset, change@),
            recorded_effect(old(self).undo, final(self).undo, file@, offset, change@),
    {
        let r = self.objects.update_object_cache(file, offset, change.clone());
        proof {
            match r {
                Ok(()) => {},
                Err(_) => {},
            }
        }
        self.deps.update_deps(file, offset, change);
        let _ = self.undo.update_undo_cache(file, offset, change);
    }

    /// Submits a batch: refuses an empty one, walks the dependency graph as
    /// of `offset`, fetches the affected objects, runs one propagation pass,
    /// appends the materialized changes with fresh consecutive offsets, and
    /// feeds every appended entry to the consumers.  The returned offsets
    /// continue the file's log: each exceeds every offset assigned before.
    pub fn submit_changes(&mut self, file: &str, user: &str, offset: i64, changes: Vec<ChangeMsg>)
        -> (r: Result<Vec<i64>, EngineError>)
        requires
            old(self).inv(),
        ensures
            final(self).inv(),
            match r {
                Ok(offsets) => {
                    &&& changes@.len() > 0
                    &&& exists|refs: Seq<crate::msg::ReferenceView>, results: Seq<ChangeView>|
                        {
                            &&& #[trigger] submitted_results(
                                *old(self),
                                file@,
                                user@,
                                offset,
                                changes.deep_view(),
                                refs,
                                results,
                            )
                            &&& offsets@.len() == results.len()
                            &&& forall|k: int|
                                0 <= k < results.len() ==> (#[trigger] final(self).log.file_log(
                                    file@,
                                )[old(self).log.file_log(file@).len() + k]).change == results[k]
                        }
                    &&& forall|k: int|
                        0 <= k < offsets@.len() ==> #[trigger] offsets@[k] == old(
                            self,
                        ).log.file_log(file@).len() + 1 + k
                    &&& final(self).log.file_log(file@).len() == old(self).log.file_log(
                        file@,
                    ).len() + offsets@.len()
                    &&& forall|k: int|
                        0 <= k < old(self).log.file_log(file@).len()
                            ==> #[trigger] final(self).log.file_log(file@)[k] == old(
                            self,
                        ).log.file_log(file@)[k]
                    &&& forall|f: Seq<char>|
                        f != file@ ==> #[trigger] final(self).log.file_log(f) == old(
                            self,
                        ).log.file_log(f)
                },
                Err(e) => {
                    &&& ((e matches EngineError::EmptySubmit) ==> changes@.len() == 0
                        && *final(self) == *old(self))
                    &&& ((e matches EngineError::LogFull) ==> changes@.len() > 0 && *final(self)
                        == *old(self) && exists|
                        refs: Seq<crate::msg::ReferenceView>,
                        results: Seq<ChangeView>,
                    |
                        {
                            &&& #[trigger] submitted_results(
                                *old(self),
                                file@,
                                user@,
                                offset,
                                changes.deep_view(),
                                refs,
                                results,
                            )
                            &&& old(self).log.file_log(file@).len() + results.len() > i64::MAX
                        })
                    &&& ((e matches EngineError::EmptySubmit) || (
                    e matches EngineError::LogFull))
                    &&& (changes@.len() == 0 ==> (e matches EngineError::EmptySubmit))
                },
            },
    {
        if changes.len() == 0 {
            return Err(EngineError::EmptySubmit);
        }
        let ghost start = *self;
        let (ref_ids, batch) = extract_info(&changes);
        let refs = self.deps.get_all_deps(file, offset, &ref_ids);
        let obj_ids = get_obj_ids_to_fetch(&refs, &batch);
        proof {
            assert(obj_ids.deep_view() == ids_to_fetch(
                refs.deep_view(),
                batch_map_of(changes.deep_view()),
            ));
        }
        // merge: the batch's own changes first, then the fetched closure
        let mut merged: Vec<ChangeMsg> = Vec::new();
        let mut i: usize = 0;
        while i < batch.len()
            invariant
                i <= batch.len(),
                merged@.len() == i,
                *self == start,
                forall|w: int|
                    0 <= w < i ==> #[trigger] merged.deep_view()[w] == batch.deep_view()[w].1,
            decreases batch.len() - i,
        {
            let ghost before = merged.deep_view();
            let entry = batch[i].1.clone();
            let ghost entry_view = entry@;
            merged.push(entry);
            proof {
                assert(merged.deep_view() =~= before.push(entry_view));
            }
            i += 1;
        }
        let ghost batch_values = batch.deep_view().map_values(
            |p: (Seq<char>, ChangeView)| p.1,
        );
        proof {
            assert(merged.deep_view() =~= batch_values);
            assert(obj_ids.deep_view().take(0) =~= Seq::<Seq<char>>::empty());
            assert(fetched_of(
                start.objects,
                file@,
                offset,
                obj_ids.deep_view().take(0),
                user@,
            ) =~= Seq::<ChangeView>::empty());
            assert(batch_values + Seq::<ChangeView>::empty() =~= batch_values);
        }
        let mut j: usize = 0;
        while j < obj_ids.len()
            invariant
                j <= obj_ids.len(),
                *self == start,
                merged.deep_view() == batch_values + fetched_of(
                    start.objects,
                    file@,
                    offset,
                    obj_ids.deep_view().take(j as int),
                    user@,
                ),
            decreases obj_ids.len() - j,
        {
            proof {
                lemma_fetched_snoc(
                    start.objects,
                    file@,
                    offset,
                    obj_ids.deep_view(),
                    j as int,
                    user@,
                );
            }
            let ghost before = merged.deep_view();
            match self.objects.get_object(file, offset, obj_ids[j].as_str()) {
                Ok(mut fetched) => {
                    fetched.user = String::from_str(user);
                    let ghost fetched_view = fetched@;
                    merged.push(fetched);
                    proof {
                        assert(merged.deep_view() =~= before.push(fetched_view));
                        assert(before.push(fetched_view) =~= before + seq![fetched_view]);
                        vstd::seq_lib::lemma_concat_associative(
                            batch_values,
                            fetched_of(
                                start.objects,
                                file@,
                                offset,
                                obj_ids.deep_view().take(j as int),
                                user@,
                            ),
                            seq![fetched_view],
                        );
                    }
                },
                Err(_) => {},
            }
            j += 1;
        }
        proof {
            assert(obj_ids.deep_view().take(obj_ids.deep_view().len() as int) =~= obj_ids.deep_view());
        }
        // one propagation pass over the merged set
        let mut obj_map = get_map_from_change_msgs(&merged);
        update_all(&mut obj_map, &refs);
        let results = to_change_msgs(&merged, &obj_map);
        // append and feed the consumers
        let mut to_append: Vec<ChangeMsg> = Vec::new();
        let mut w: usize = 0;
        while w < results.len()
            invariant
                w <= results.len(),
                *self == start,
                to_append@.len() == w,
                forall|v: int|
                    0 <= v < w ==> #[trigger] to_append.deep_view()[v] == results.deep_view()[v],
            decreases results.len() - w,
        {
            let ghost before = to_append.deep_view();
            let copy = results[w].clone();
            to_append.push(copy);
            proof {
                assert(to_append.deep_view() =~= before.push(results.deep_view()[w as int]));
            }
            w += 1;
        }
        proof {
            assert(submitted_results(
                start,
                file@,
                user@,
                offset,
                changes.deep_view(),
                refs.deep_view(),
                results.deep_view(),
            ));
        }
        let file_string = String::from_str(file);
        let count = self.log.count_file_u64(&file_string);
        let needed = to_append.len() as u64;
        if count > i64::MAX as u64 || needed > (i64::MAX as u64) - count {
            proof {
                assert(*self == *old(self));
                assert(count == old(self).log.file_log(file@).len());
                assert(needed == results.deep_view().len());
                assert(old(self).log.file_log(file@).len() + results.deep_view().len()
                    > i64::MAX);
            }
            return Err(EngineError::LogFull);
        }
        let offsets = self.log.append(file, to_append);
        let ghost after_append = *self;
        let mut k: usize = 0;
        while k < results.len()
            invariant
                self.inv(),
                k <= results.len(),
                offsets@.len() == results@.len(),
                self.log == after_append.log,
            decreases results.len() - k,
        {
            self.consume_entry(file, offsets[k], &results[k]);
            k += 1;
        }
        Ok(offsets)
    }
}


impl Engine {
    /// Opens a fresh undo event for `user` in `file`; the user's next
    /// submitted changes are recorded into it.
    pub fn begin_undo_event(&mut self, file: &str, user: &str) -> (r: Result<(), EngineError>)
        requires
            old(self).inv(),
        ensures
            final(self).inv(),
            r is Ok,
            exists|id: Seq<char>| #[trigger] final(self).undo.stack(file@, user@, false) == old(
                self,
            ).undo.stack(file@, user@, false).push(id),
            final(self).undo.stack(file@, user@, true) == old(self).undo.stack(
                file@,
                user@,
                true,
            ),
            forall|e: Seq<char>| #[trigger] final(self).undo.event_entries(e) == old(
                self,
            ).undo.event_entries(e),
            final(self).log == old(self).log,
            final(self).objects == old(self).objects,
            final(self).deps == old(self).deps,
            final(self).reps == old(self).reps,
    {
        let _ = self.undo.begin_undo_event(file, user);
        Ok(())
    }

    /// Rolls back the user's open undo event: reads its entries, inverts
    /// them against the object states just before each recorded offset, and
    /// submits the inverses tagged with the event, so that the undo store
    /// moves the event to the redo side as they commit.  Returns the
    /// assigned offsets; see [`rollback_contract`] for the full outcome.
    pub fn undo_latest(&mut self, file: &str, user: &str, offset: i64) -> (r: Result<
        Vec<i64>,
        EngineError,
    >)
        requires
            old(self).inv(),
        ensures
            final(self).inv(),
            rollback_contract(*old(self), *final(self), file@, user@, offset, false, r),
    {
        self.rollback_latest(file, user, offset, false)
    }

    /// Replays the user's open redo event: the mirror image of
    /// [`Engine::undo_latest`], reading the redo stack and tagging the
    /// inverses as a redo; see [`rollback_contract`] for the full outcome.
    pub fn redo_latest(&mut self, file: &str, user: &str, offset: i64) -> (r: Result<
        Vec<i64>,
        EngineError,
    >)
        requires
            old(self).inv(),
        ensures
            final(self).inv(),
            rollback_contract(*old(self), *final(self), file@, user@, offset, true, r),
    {
        self.rollback_latest(file, user, offset, true)
    }

    /// The shared walk of both replays: read the open event of one side,
    /// invert its entries against the point-in-time reads just before each
    /// recorded offset, and submit the inverses.
    fn rollback_latest(&mut self, file: &str, user: &str, offset: i64, from_redo: bool) -> (r:
        Result<Vec<i64>, EngineError>)
        requires
            old(self).inv(),
        ensures
            final(self).inv(),
            rollback_contract(*old(self), *final(self), file@, user@, offset, from_redo, r),
    {
        let ghost st = old(self).undo.stack(file@, user@, from_redo);
        let read = if from_redo {
            self.undo.redo(file, user)
        } else {
            self.undo.undo(file, user)
        };
        let (event, entries) = match read {
            Ok(p) => p,
            Err(_) => {
                proof {
                    assert(st.len() == 0);
                    assert(frozen_but_undo(*old(self), *self));
                }
                return Err(EngineError::NoUndoEvent);
            },
        };
        let ghost mid = *self;
        let ghost top = st.last();
        let ghost event_entries = old(self).undo.event_entries(top);
        proof {
            assert(event@ == top);
            assert(entries.deep_view() == event_entries);
            assert(frozen_but_undo(*old(self), mid));
            assert(undo_read_effect(old(self).undo, mid.undo, file@, user@, !from_redo));
        }
        let mut i: usize = 0;
        while i < entries.len()
            invariant
                i <= entries.len(),
                *self == mid,
                mid.inv(),
                st.len() > 0,
                st == old(self).undo.stack(file@, user@, from_redo),
                top == st.last(),
                event_entries == old(self).undo.event_entries(top),
                entries.deep_view() == event_entries,
                frozen_but_undo(*old(self), mid),
                undo_read_effect(old(self).undo, mid.undo, file@, user@, !from_redo),
                forall|w: int|
                    0 <= w < i ==> (#[trigger] entries.deep_view()[w]).offset > i64::MIN,
            decreases entries.len() - i,
        {
            if entries[i].offset == i64::MIN {
                proof {
                    assert(entries.deep_view()[i as int].offset == i64::MIN);
                }
                return Err(EngineError::InvalidEntry);
            }
            proof {
                assert(entries.deep_view()[i as int].offset > i64::MIN);
            }
            i += 1;
        }
        let queries = previous_queries(&entries);
        let previous = match self.objects.get_objects(
            &GetObjectsInput { file: String::from_str(file), obj_ids: queries },
        ) {
            Ok(p) => p,
            Err(_) => {
                proof {
                    assert(false);
                }
                return Err(EngineError::InvalidEntry);
            },
        };
        proof {
            assert(previous.deep_view() =~= previous_of(
                old(self).objects,
                file@,
                event_entries,
            )) by {
                assert forall|w: int|
                    0 <= w < event_entries.len() implies previous.deep_view()[w] == previous_of(
                    old(self).objects,
                    file@,
                    event_entries,
                )[w] by {
                    assert(mid.objects == old(self).objects);
                }
            }
        }
        let source = if from_redo {
            ChangeSource::Redo(event)
        } else {
            ChangeSource::Undo(event)
        };
        proof {
            assert(source@ == rollback_source(from_redo, top));
        }
        let inverted = match invert_changes_inner(user, source, entries, previous) {
            Ok(out) => out,
            Err(_) => {
                proof {
                    assert(inverted_batch(*old(self), file@, user@, from_redo) is None);
                }
                return Err(EngineError::NoPreviousState);
            },
        };
        proof {
            assert(inverted_batch(*old(self), file@, user@, from_redo) == Some(
                inverted.deep_view(),
            ));
        }
        let submitted = self.submit_changes(file, user, offset, inverted);
        match submitted {
            Ok(offsets) => {
                proof {
                    let batch = inverted_batch(
                        *old(self),
                        file@,
                        user@,
                        from_redo,
                    ).unwrap();
                    let (refs, results) = choose|
                        refs: Seq<crate::msg::ReferenceView>,
                        results: Seq<ChangeView>,
                    |
                        {
                            &&& #[trigger] submitted_results(
                                mid,
                                file@,
                                user@,
                                offset,
                                batch,
                                refs,
                                results,
                            )
                            &&& offsets@.len() == results.len()
                            &&& forall|k: int|
                                0 <= k < results.len() ==> (#[trigger] self.log.file_log(
                                    file@,
                                )[mid.log.file_log(file@).len() + k]).change == results[k]
                        };
                    assert(submitted_results(
                        *old(self),
                        file@,
                        user@,
                        offset,
                        batch,
                        refs,
                        results,
                    )) by {
                        assert(mid.objects == old(self).objects);
                        assert(mid.deps == old(self).deps);
                    }
                    assert(mid.log == old(self).log);
                }
                Ok(offsets)
            },
            Err(e) => {
                match e {
                    EngineError::EmptySubmit => {
                        proof {
                            assert(inverted.deep_view().len() == 0);
                        }
                        Err(EngineError::EmptySubmit)
                    },
                    EngineError::LogFull => {
                        proof {
                            let batch = inverted_batch(
                                *old(self),
                                file@,
                                user@,
                                from_redo,
                            ).unwrap();
                            let (refs, results) = choose|
                                refs: Seq<crate::msg::ReferenceView>,
                                results: Seq<ChangeView>,
                            |
                                {
                                    &&& #[trigger] submitted_results(
                                        mid,
                                        file@,
                                        user@,
                                        offset,
                                        batch,
                                        refs,
                                        results,
                                    )
                                    &&& mid.log.file_log(file@).len() + results.len() > i64::MAX
                                };
                            assert(submitted_results(
                                *old(self),
                                file@,
                                user@,
                                offset,
                                batch,
                                refs,
                                results,
                            )) by {
                                assert(mid.objects == old(self).objects);
                                assert(mid.deps == old(self).deps);
                            }
                            assert(mid.log == old(self).log);
                            assert(*self == mid);
                        }
                        Err(EngineError::LogFull)
                    },
                    _ => unreached(),
                }
            },
        }
    }
}

} // verus!
