//! The undo store: per file and user, an undo stack and a redo stack of
//! event ids, and per event an ordered list of entries.
//!
//! Committed changes are recorded here, routed by their source: a fresh user
//! action lands in the open event on top of the undo stack; the replay of an
//! undo moves the replayed object's entry to the open redo event, and a redo
//! moves it back.  This makes the lineage self-describing: toggling undo and
//! redo shuttles entries between the stacks without losing them.

use vstd::prelude::*;

use crate::msg::{ChangeMsg, ChangeSource, ChangeSourceView, ChangeType, ChangeTypeView, ChangeView};


verus! {

/// What kind of change an undo entry records.
#[derive(Debug, Clone, Copy, PartialEq, Eq, Structural)]
pub enum UndoChangeType {
    Add,
    Modify,
    Delete,
    NotSet,
}

/// One recorded step of an undo event: which object changed, at which offset,
/// and how.
#[derive(Debug)]
pub struct UndoEntry {
    pub offset: i64,
    pub obj_id: String,
    pub change_type: UndoChangeType,
}

/// Mathematical view of an undo entry.
pub ghost struct UndoEntryView {
    pub offset: i64,
    pub obj_id: Seq<char>,
    pub change_type: UndoChangeType,
}

impl View for UndoEntry {
    type V = UndoEntryView;

    open spec fn view(&self) -> UndoEntryView {
        UndoEntryView {
            offset: self.offset,
            obj_id: self.obj_id@,
            change_type: self.change_type,
        }
    }
}

impl DeepView for UndoEntry {
    type V = UndoEntryView;

    open spec fn deep_view(&self) -> UndoEntryView {
        self.view()
    }
}

impl Clone for UndoEntry {
    fn clone(&self) -> (res: Self)
        ensures
            res@ == self@,
    {
        UndoEntry {
            offset: self.offset,
            obj_id: self.obj_id.clone(),
            change_type: self.change_type,
        }
    }
}

impl PartialEq for UndoEntry {
    fn eq(&self, other: &UndoEntry) -> (r: bool) {
        self.offset == other.offset && self.obj_id == other.obj_id && self.change_type
            == other.change_type
    }
}

impl vstd::std_specs::cmp::PartialEqSpecImpl for UndoEntry {
    open spec fn obeys_eq_spec() -> bool {
        true
    }

    open spec fn eq_spec(&self, other: &UndoEntry) -> bool {
        self@ == other@
    }
}

impl Eq for UndoEntry {}

/// Errors of the undo store.
#[derive(Debug, PartialEq)]
pub enum UndoError {
    /// No open event to take or record into: the stack of this user in this
    /// file is empty.  Carries the user and the file.
    NoUndoEvent(String, String),
    /// A replayed change names an object with no entry in the named event.
    /// Carries the object, the event and the file.
    NoObjInUndoEvent(String, String, String),
}

/// The undo and redo stacks of one user in one file; each stack holds event
/// ids, oldest at the bottom, the open event on top (at the end).
pub struct StackRow {
    pub file: String,
    pub user: String,
    pub undo_events: Vec<String>,
    pub redo_events: Vec<String>,
}

/// Mathematical view of a pair of stacks.
pub ghost struct StackRowView {
    pub file: Seq<char>,
    pub user: Seq<char>,
    pub undo_events: Seq<Seq<char>>,
    pub redo_events: Seq<Seq<char>>,
}

impl View for StackRow {
    type V = StackRowView;

    open spec fn view(&self) -> StackRowView {
        StackRowView {
            file: self.file@,
            user: self.user@,
            undo_events: self.undo_events.deep_view(),
            redo_events: self.redo_events.deep_view(),
        }
    }
}

impl DeepView for StackRow {
    type V = StackRowView;

    open spec fn deep_view(&self) -> StackRowView {
        self.view()
    }
}

/// The recorded entries of one event, in recording order.
pub struct EventRow {
    pub event: String,
    pub entries: Vec<UndoEntry>,
}

/// Mathematical view of an event's entries.
pub ghost struct EventRowView {
    pub event: Seq<char>,
    pub entries: Seq<UndoEntryView>,
}

impl View for EventRow {
    type V = EventRowView;

    open spec fn view(&self) -> EventRowView {
        EventRowView { event: self.event@, entries: self.entries.deep_view() }
    }
}

impl DeepView for EventRow {
    type V = EventRowView;

    open spec fn deep_view(&self) -> EventRowView {
        self.view()
    }
}

/// Relies on uuid::Uuid::new_v4 for a fresh random event id, rendered in the
/// hyphenated form its Display implementation documents.  The result is
/// random, so nothing is promised of it.  The call aborts if the operating
/// system's randomness source fails — an environmental fault the uuid crate
/// offers no fallible form for, on a par with resource exhaustion.
#[verifier::external_body]
fn fresh_event_id() -> (r: String) {
    uuid::Uuid::new_v4().to_string()
}

/// The undo store over every file and user.
pub struct UndoCache {
    stacks: Vec<StackRow>,
    events: Vec<EventRow>,
}

impl UndoCache {
    /// The undo (or redo) stack of `user` in `file`; empty when never touched.
    pub closed spec fn stack(self, file: Seq<char>, user: Seq<char>, redo: bool) -> Seq<Seq<char>> {
        let rows = self.stacks.deep_view();
        if exists|i: int| 0 <= i < rows.len() && #[trigger] row_key(rows[i], file, user) {
            let i = choose|i: int| 0 <= i < rows.len() && #[trigger] row_key(rows[i], file, user);
            if redo {
                rows[i].redo_events
            } else {
                rows[i].undo_events
            }
        } else {
            Seq::empty()
        }
    }

    /// The recorded entries of `event`; empty when the event is unknown.
    pub closed spec fn event_entries(self, event: Seq<char>) -> Seq<UndoEntryView> {
        let rows = self.events.deep_view();
        if exists|i: int| 0 <= i < rows.len() && (#[trigger] rows[i]).event == event {
            let i = choose|i: int| 0 <= i < rows.len() && (#[trigger] rows[i]).event == event;
            rows[i].entries
        } else {
            Seq::empty()
        }
    }

    /// Internal well-formedness: stack rows have distinct (file, user) keys
    /// and event rows distinct event ids.
    pub closed spec fn inv(self) -> bool {
        &&& forall|i: int, j: int|
            0 <= i < j < self.stacks.deep_view().len() ==> !(self.stacks.deep_view()[i].file
                == self.stacks.deep_view()[j].file && self.stacks.deep_view()[i].user
                == self.stacks.deep_view()[j].user)
        &&& forall|i: int, j: int|
            0 <= i < j < self.events.deep_view().len() ==> self.events.deep_view()[i].event
                != self.events.deep_view()[j].event
    }

    /// An empty store: no stacks, no events.
    pub fn new() -> (r: UndoCache)
        ensures
            r.inv(),
            forall|f: Seq<char>, u: Seq<char>, redo: bool| #[trigger] r.stack(f, u, redo) == Seq::<
                Seq<char>,
            >::empty(),
            forall|e: Seq<char>| #[trigger] r.event_entries(e) == Seq::<UndoEntryView>::empty(),
    {
        let r = UndoCache { stacks: Vec::new(), events: Vec::new() };
        proof {
            assert(r.stacks.deep_view() =~= Seq::<StackRowView>::empty());
            assert(r.events.deep_view() =~= Seq::<EventRowView>::empty());
        }
        r
    }
}

/// Whether a stack row belongs to `user` in `file`.
pub open spec fn row_key(row: StackRowView, file: Seq<char>, user: Seq<char>) -> bool {
    row.file == file && row.user == user
}


/// The undo entry a committed change records: the object it names, the kind
/// of change, and the offset it was committed at.  A change without a type
/// records an empty id and an unset kind.
pub open spec fn entry_of(offset: i64, c: ChangeView) -> UndoEntryView {
    match c.change_type {
        Some(ChangeTypeView::Add(obj)) => UndoEntryView {
            offset,
            obj_id: obj.id,
            change_type: UndoChangeType::Add,
        },
        Some(ChangeTypeView::Modify(obj)) => UndoEntryView {
            offset,
            obj_id: obj.id,
            change_type: UndoChangeType::Modify,
        },
        Some(ChangeTypeView::Delete(id)) => UndoEntryView {
            offset,
            obj_id: id,
            change_type: UndoChangeType::Delete,
        },
        None => UndoEntryView {
            offset,
            obj_id: Seq::empty(),
            change_type: UndoChangeType::NotSet,
        },
    }
}

/// The first entry of `entries` that names `obj` stands at `j`.
pub open spec fn first_obj_match(entries: Seq<UndoEntryView>, obj: Seq<char>, j: int) -> bool {
    &&& 0 <= j < entries.len()
    &&& entries[j].obj_id == obj
    &&& forall|w: int| 0 <= w < j ==> entries[w].obj_id != obj
}

/// The first occurrence of `event` in the stack stands at `j`.
pub open spec fn first_event_match(stack: Seq<Seq<char>>, event: Seq<char>, j: int) -> bool {
    &&& 0 <= j < stack.len()
    &&& stack[j] == event
    &&& forall|w: int| 0 <= w < j ==> stack[w] != event
}

/// The store looks the same at every coordinate.
pub open spec fn undo_unchanged(pre: UndoCache, post: UndoCache) -> bool {
    &&& forall|f: Seq<char>, u: Seq<char>, redo: bool| #[trigger] post.stack(f, u, redo)
        == pre.stack(f, u, redo)
    &&& forall|e: Seq<char>| #[trigger] post.event_entries(e) == pre.event_entries(e)
}

impl UndoCache {
    /// Replaces (or creates) the stacks of `user` in `file`.
    fn set_stacks(
        &mut self,
        file: &str,
        user: &str,
        undo_events: Vec<String>,
        redo_events: Vec<String>,
    )
        requires
            old(self).inv(),
        ensures
            final(self).inv(),
            final(self).stack(file@, user@, false) == undo_events.deep_view(),
            final(self).stack(file@, user@, true) == redo_events.deep_view(),
            forall|f: Seq<char>, u: Seq<char>, redo: bool|
                !(f == file@ && u == user@) ==> #[trigger] final(self).stack(f, u, redo) == old(
                    self,
                ).stack(f, u, redo),
            forall|e: Seq<char>| #[trigger] final(self).event_entries(e) == old(
                self,
            ).event_entries(e),
    {
        let row = StackRow {
            file: String::from_str(file),
            user: String::from_str(user),
            undo_events,
            redo_events,
        };
        let ghost rowv = row@;
        let ghost pre = self.stacks.deep_view();
        let mut i: usize = 0;
        let mut found = false;
        while i < self.stacks.len()
            invariant_except_break
                i <= self.stacks.len(),
                !found,
                pre == self.stacks.deep_view(),
                row.file@ == file@,
                row.user@ == user@,
                forall|j: int| 0 <= j < i ==> !row_key(pre[j], file@, user@),
            ensures
                pre == self.stacks.deep_view(),
                row.file@ == file@,
                row.user@ == user@,
                found ==> i < pre.len() && row_key(pre[i as int], file@, user@),
                !found ==> forall|j: int| 0 <= j < pre.len() ==> !row_key(pre[j], file@, user@),
            decreases self.stacks.len() - i,
        {
            if self.stacks[i].file == row.file && self.stacks[i].user == row.user {
                found = true;
                break ;
            }
            i += 1;
        }
        if found {
            self.stacks.remove(i);
            let ghost mid = self.stacks.deep_view();
            self.stacks.insert(i, row);
            proof {
                let post = self.stacks.deep_view();
                assert(mid =~= pre.subrange(0, i as int) + pre.subrange(
                    i + 1,
                    pre.len() as int,
                ));
                assert(post =~= pre.update(i as int, rowv));
                self.prove_set_stacks(pre, post, i as int, rowv, *old(self), file@, user@);
            }
        } else {
            self.stacks.push(row);
            proof {
                let post = self.stacks.deep_view();
                assert(post =~= pre.push(rowv));
                self.prove_set_stacks(pre, post, pre.len() as int, rowv, *old(self), file@, user@);
            }
        }
        proof {
            assert(self.events == old(self).events);
            assert forall|e: Seq<char>| #[trigger] self.event_entries(e) == old(
                self,
            ).event_entries(e) by {}
        }
    }

    /// The stack rows after a replacement at `at` keep every other key's view
    /// and answer the replaced key with the new row.
    proof fn prove_set_stacks(
        &self,
        pre: Seq<StackRowView>,
        post: Seq<StackRowView>,
        at: int,
        rowv: StackRowView,
        old_self: UndoCache,
        file: Seq<char>,
        user: Seq<char>,
    )
        requires
            self.stacks.deep_view() == post,
            old_self.stacks.deep_view() == pre,
            0 <= at < post.len(),
            post[at] == rowv,
            rowv.file == file,
            rowv.user == user,
            forall|j: int| 0 <= j < post.len() && j != at ==> post[j] == pre[j],
            post.len() == pre.len() || (post.len() == pre.len() + 1 && at == pre.len()),
            forall|j: int| 0 <= j < pre.len() && j != at ==> !row_key(pre[j], file, user),
            at < pre.len() ==> row_key(pre[at], file, user),
            forall|i: int, j: int|
                0 <= i < j < pre.len() ==> !(pre[i].file == pre[j].file && pre[i].user
                    == pre[j].user),
            forall|i: int, j: int|
                0 <= i < j < self.events.deep_view().len() ==> self.events.deep_view()[i].event
                    != self.events.deep_view()[j].event,
        ensures
            self.inv(),
            self.stack(file, user, false) == rowv.undo_events,
            self.stack(file, user, true) == rowv.redo_events,
            forall|f: Seq<char>, u: Seq<char>, redo: bool|
                !(f == file && u == user) ==> #[trigger] self.stack(f, u, redo) == old_self.stack(
                    f,
                    u,
                    redo,
                ),
    {
        assert forall|i: int, j: int|
            0 <= i < j < post.len() implies !(post[i].file == post[j].file && post[i].user
            == post[j].user) by {
            if i != at && j != at {
                assert(post[i] == pre[i]);
                assert(post[j] == pre[j]);
            } else if i == at {
                assert(post[j] == pre[j]);
                assert(!row_key(pre[j], file, user));
            } else {
                assert(post[i] == pre[i]);
                assert(!row_key(pre[i], file, user));
            }
        }
        assert(self.stack(file, user, false) == rowv.undo_events) by {
            assert(row_key(post[at], file, user));
            let w = choose|w: int| 0 <= w < post.len() && #[trigger] row_key(post[w], file, user);
            assert(w == at) by {
                if w != at {
                    assert(post[w] == pre[w]);
                    assert(!row_key(pre[w], file, user));
                }
            }
        }
        assert(self.stack(file, user, true) == rowv.redo_events) by {
            assert(row_key(post[at], file, user));
            let w = choose|w: int| 0 <= w < post.len() && #[trigger] row_key(post[w], file, user);
            assert(w == at) by {
                if w != at {
                    assert(post[w] == pre[w]);
                    assert(!row_key(pre[w], file, user));
                }
            }
        }
        assert forall|f: Seq<char>, u: Seq<char>, redo: bool|
            !(f == file && u == user) implies #[trigger] self.stack(f, u, redo) == old_self.stack(
            f,
            u,
            redo,
        ) by {
            if exists|w: int| 0 <= w < post.len() && #[trigger] row_key(post[w], f, u) {
                let w = choose|w: int| 0 <= w < post.len() && #[trigger] row_key(post[w], f, u);
                assert(w != at);
                assert(pre[w] == post[w]);
                let v = choose|v: int| 0 <= v < pre.len() && #[trigger] row_key(pre[v], f, u);
                assert(v == w) by {
                    if v != w {
                        if v == at {
                        } else {
                            assert(pre[v].file == pre[w].file && pre[v].user == pre[w].user);
                        }
                    }
                }
            } else {
                assert(!exists|w: int| 0 <= w < pre.len() && #[trigger] row_key(pre[w], f, u)) by {
                    if exists|w: int| 0 <= w < pre.len() && #[trigger] row_key(pre[w], f, u) {
                        let w = choose|w: int|
                            0 <= w < pre.len() && #[trigger] row_key(pre[w], f, u);
                        assert(w != at);
                        assert(row_key(post[w], f, u));
                    }
                }
            }
        }
    }

    /// Reads the stacks of `user` in `file` (empty when never touched).
    fn get_stacks(&self, file: &str, user: &str) -> (r: (Vec<String>, Vec<String>))
        requires
            self.inv(),
        ensures
            r.0.deep_view() == self.stack(file@, user@, false),
            r.1.deep_view() == self.stack(file@, user@, true),
    {
        let file_string = String::from_str(file);
        let user_string = String::from_str(user);
        let ghost rows = self.stacks.deep_view();
        let mut i: usize = 0;
        while i < self.stacks.len()
            invariant
                self.inv(),
                i <= self.stacks.len(),
                rows == self.stacks.deep_view(),
                file_string@ == file@,
                user_string@ == user@,
                forall|j: int| 0 <= j < i ==> !row_key(rows[j], file@, user@),
            decreases self.stacks.len() - i,
        {
            if self.stacks[i].file == file_string && self.stacks[i].user == user_string {
                let undo_events = self.stacks[i].undo_events.clone();
                let redo_events = self.stacks[i].redo_events.clone();
                proof {
                    assert(row_key(rows[i as int], file@, user@));
                    let w = choose|w: int|
                        0 <= w < rows.len() && #[trigger] row_key(rows[w], file@, user@);
                    assert(w == i) by {
                        if w != i {
                            if w < i {
                                assert(!row_key(rows[w], file@, user@));
                            } else {
                                assert(rows[i as int].file == rows[w].file && rows[i as int].user
                                    == rows[w].user);
                            }
                        }
                    }
                    assert forall|k: int|
                        0 <= k < self.stacks[i as int].undo_events@.len() implies undo_events.deep_view()[k]
                        == self.stacks[i as int].undo_events.deep_view()[k] by {
                        assert(cloned::<String>(
                            self.stacks[i as int].undo_events[k],
                            undo_events[k],
                        ));
                    }
                    assert(undo_events.deep_view() =~= rows[i as int].undo_events);
                    assert forall|k: int|
                        0 <= k < self.stacks[i as int].redo_events@.len() implies redo_events.deep_view()[k]
                        == self.stacks[i as int].redo_events.deep_view()[k] by {
                        assert(cloned::<String>(
                            self.stacks[i as int].redo_events[k],
                            redo_events[k],
                        ));
                    }
                    assert(redo_events.deep_view() =~= rows[i as int].redo_events);
                }
                return (undo_events, redo_events);
            }
            i += 1;
        }
        let empty_pair: (Vec<String>, Vec<String>) = (Vec::new(), Vec::new());
        proof {
            assert(empty_pair.0.deep_view() =~= Seq::<Seq<char>>::empty());
            assert(empty_pair.1.deep_view() =~= Seq::<Seq<char>>::empty());
        }
        empty_pair
    }

    /// Replaces (or creates) the entry list of `event`.
    fn set_event(&mut self, event: &str, entries: Vec<UndoEntry>)
        requires
            old(self).inv(),
        ensures
            final(self).inv(),
            final(self).event_entries(event@) == entries.deep_view(),
            forall|e: Seq<char>|
                e != event@ ==> #[trigger] final(self).event_entries(e) == old(self).event_entries(
                    e,
                ),
            forall|f: Seq<char>, u: Seq<char>, redo: bool| #[trigger] final(self).stack(f, u, redo)
                == old(self).stack(f, u, redo),
    {
        let row = EventRow { event: String::from_str(event), entries };
        let ghost rowv = row@;
        let ghost pre = self.events.deep_view();
        let mut i: usize = 0;
        let mut found = false;
        while i < self.events.len()
            invariant_except_break
                i <= self.events.len(),
                !found,
                pre == self.events.deep_view(),
                row.event@ == event@,
                forall|j: int| 0 <= j < i ==> pre[j].event != event@,
            ensures
                pre == self.events.deep_view(),
                row.event@ == event@,
                found ==> i < pre.len() && pre[i as int].event == event@,
                !found ==> forall|j: int| 0 <= j < pre.len() ==> pre[j].event != event@,
            decreases self.events.len() - i,
        {
            if self.events[i].event == row.event {
                found = true;
                break ;
            }
            i += 1;
        }
        if found {
            self.events.remove(i);
            self.events.insert(i, row);
        } else {
            let ghost at = self.events.len();
            self.events.push(row);
        }
        proof {
            let post = self.events.deep_view();
            let at: int = if found {
                i as int
            } else {
                pre.len() as int
            };
            if found {
                assert(post =~= pre.update(at, rowv));
            } else {
                assert(post =~= pre.push(rowv));
            }
            assert forall|i2: int, j2: int|
                0 <= i2 < j2 < post.len() implies post[i2].event != post[j2].event by {
                if i2 != at && j2 != at {
                    assert(post[i2] == pre[i2]);
                    assert(post[j2] == pre[j2]);
                } else if i2 == at {
                    assert(post[j2] == pre[j2]);
                } else {
                    assert(post[i2] == pre[i2]);
                }
            }
            assert(self.event_entries(event@) == entries.deep_view()) by {
                assert(post[at].event == event@);
                let w = choose|w: int| 0 <= w < post.len() && (#[trigger] post[w]).event == event@;
                assert(w == at);
            }
            assert forall|e: Seq<char>| e != event@ implies #[trigger] self.event_entries(e) == old(
                self,
            ).event_entries(e) by {
                if exists|w: int| 0 <= w < post.len() && (#[trigger] post[w]).event == e {
                    let w = choose|w: int| 0 <= w < post.len() && (#[trigger] post[w]).event == e;
                    assert(w != at);
                    assert(pre[w] == post[w]);
                    let v = choose|v: int| 0 <= v < pre.len() && (#[trigger] pre[v]).event == e;
                    assert(v == w) by {
                        if v != w && v != at {
                            assert(pre[v].event == pre[w].event);
                        }
                    }
                } else {
                    assert(!exists|w: int| 0 <= w < pre.len() && (#[trigger] pre[w]).event == e)
                        by {
                        if exists|w: int| 0 <= w < pre.len() && (#[trigger] pre[w]).event == e {
                            let w = choose|w: int|
                                0 <= w < pre.len() && (#[trigger] pre[w]).event == e;
                            assert(w != at);
                            assert(post[w].event == e);
                        }
                    }
                }
            }
            assert(self.stacks == old(self).stacks);
        }
    }

    /// Reads the entry list of `event` (empty when unknown).
    pub fn get_event_entries(&self, event: &str) -> (r: Vec<UndoEntry>)
        requires
            self.inv(),
        ensures
            r.deep_view() == self.event_entries(event@),
    {
        let event_string = String::from_str(event);
        let ghost rows = self.events.deep_view();
        let mut i: usize = 0;
        while i < self.events.len()
            invariant
                self.inv(),
                i <= self.events.len(),
                rows == self.events.deep_view(),
                event_string@ == event@,
                forall|j: int| 0 <= j < i ==> rows[j].event != event@,
            decreases self.events.len() - i,
        {
            if self.events[i].event == event_string {
                let entries = self.events[i].entries.clone();
                proof {
                    assert(rows[i as int].event == event@);
                    let w = choose|w: int|
                        0 <= w < rows.len() && (#[trigger] rows[w]).event == event@;
                    assert forall|k: int|
                        0 <= k < self.events[i as int].entries@.len() implies entries.deep_view()[k]
                        == self.events[i as int].entries.deep_view()[k] by {
                        assert(cloned::<UndoEntry>(self.events[i as int].entries[k], entries[k]));
                    }
                    assert(entries.deep_view() =~= rows[i as int].entries);
                    assert(w == i) by {
                        if w != i {
                            if w < i {
                                assert(rows[w].event != event@);
                            } else {
                                assert(rows[i as int].event == rows[w].event);
                            }
                        }
                    }
                }
                return entries;
            }
            i += 1;
        }
        let empty_entries: Vec<UndoEntry> = Vec::new();
        proof {
            assert(empty_entries.deep_view() =~= Seq::<UndoEntryView>::empty());
        }
        empty_entries
    }
}



/// What recording a fresh user action does: the entry lands in the open event
/// on top of the user's undo stack; nothing else moves.
pub open spec fn user_action_applied(
    pre: UndoCache,
    post: UndoCache,
    file: Seq<char>,
    offset: i64,
    c: ChangeView,
) -> bool {
    let st = pre.stack(file, c.user, false);
    let top = st.last();
    &&& st.len() > 0
    &&& post.event_entries(top) == pre.event_entries(top).push(entry_of(offset, c))
    &&& forall|e: Seq<char>|
        e != top ==> #[trigger] post.event_entries(e) == pre.event_entries(e)
    &&& forall|f: Seq<char>, u: Seq<char>, redo: bool| #[trigger] post.stack(f, u, redo)
        == pre.stack(f, u, redo)
}

/// The named event holds no entry for the object the change names.
pub open spec fn replay_no_obj(
    pre: UndoCache,
    file: Seq<char>,
    offset: i64,
    c: ChangeView,
    ev: Seq<char>,
) -> bool {
    forall|j: int|
        0 <= j < pre.event_entries(ev).len() ==> (#[trigger] pre.event_entries(ev)[j]).obj_id
            != entry_of(offset, c).obj_id
}

/// The source stack after a replay: when the replayed event ran out of
/// entries, its first occurrence leaves the stack.
pub open spec fn stack_after_gc(
    st: Seq<Seq<char>>,
    remaining: Seq<UndoEntryView>,
    ev: Seq<char>,
) -> Seq<Seq<char>> {
    if remaining.len() == 0 && (exists|k: int| first_event_match(st, ev, k)) {
        st.remove(choose|k: int| first_event_match(st, ev, k))
    } else {
        st
    }
}

/// What replaying a change from event `ev` does: the object's entry leaves
/// `ev` (which leaves its stack when emptied) and a derived entry lands in
/// the open event on top of the opposite stack.  `from_redo` tells which
/// stack the entry leaves.
pub open spec fn replay_applied(
    pre: UndoCache,
    post: UndoCache,
    file: Seq<char>,
    offset: i64,
    c: ChangeView,
    ev: Seq<char>,
    from_redo: bool,
) -> bool {
    let entry = entry_of(offset, c);
    let popped = pre.event_entries(ev);
    let j = choose|j: int| first_obj_match(popped, entry.obj_id, j);
    let remaining = popped.remove(j);
    let st_from = pre.stack(file, c.user, from_redo);
    let st_to = pre.stack(file, c.user, !from_redo);
    let top = st_to.last();
    let top_base = if top == ev {
        remaining
    } else {
        pre.event_entries(top)
    };
    &&& exists|j: int| first_obj_match(popped, entry.obj_id, j)
    &&& st_to.len() > 0
    &&& post.event_entries(top) == top_base.push(entry)
    &&& (ev != top ==> post.event_entries(ev) == remaining)
    &&& forall|e: Seq<char>|
        e != ev && e != top ==> #[trigger] post.event_entries(e) == pre.event_entries(e)
    &&& post.stack(file, c.user, from_redo) == stack_after_gc(st_from, remaining, ev)
    &&& post.stack(file, c.user, !from_redo) == st_to
    &&& forall|f: Seq<char>, u: Seq<char>, redo: bool|
        !(f == file && u == c.user) ==> #[trigger] post.stack(f, u, redo) == pre.stack(f, u, redo)
}

/// A replay that popped its entry but found no open event on the opposite
/// stack: the pop and the garbage collection stand, nothing was appended.
pub open spec fn replay_stuck(
    pre: UndoCache,
    post: UndoCache,
    file: Seq<char>,
    offset: i64,
    c: ChangeView,
    ev: Seq<char>,
    from_redo: bool,
) -> bool {
    let entry = entry_of(offset, c);
    let popped = pre.event_entries(ev);
    let j = choose|j: int| first_obj_match(popped, entry.obj_id, j);
    let remaining = popped.remove(j);
    let st_from = pre.stack(file, c.user, from_redo);
    &&& exists|j: int| first_obj_match(popped, entry.obj_id, j)
    &&& pre.stack(file, c.user, !from_redo).len() == 0
    &&& post.event_entries(ev) == remaining
    &&& forall|e: Seq<char>|
        e != ev ==> #[trigger] post.event_entries(e) == pre.event_entries(e)
    &&& post.stack(file, c.user, from_redo) == stack_after_gc(st_from, remaining, ev)
    &&& post.stack(file, c.user, !from_redo) == pre.stack(file, c.user, !from_redo)
    &&& forall|f: Seq<char>, u: Seq<char>, redo: bool|
        !(f == file && u == c.user) ==> #[trigger] post.stack(f, u, redo) == pre.stack(f, u, redo)
}

impl UndoCache {
    /// Opens a fresh event on one stack of `user` in `file` and returns its id.
    fn begin_event(&mut self, file: &str, user: &str, redo: bool) -> (id: String)
        requires
            old(self).inv(),
        ensures
            final(self).inv(),
            final(self).stack(file@, user@, redo) == old(self).stack(file@, user@, redo).push(id@),
            final(self).stack(file@, user@, !redo) == old(self).stack(file@, user@, !redo),
            forall|f: Seq<char>, u: Seq<char>, rd: bool|
                !(f == file@ && u == user@) ==> #[trigger] final(self).stack(f, u, rd) == old(
                    self,
                ).stack(f, u, rd),
            forall|e: Seq<char>| #[trigger] final(self).event_entries(e) == old(
                self,
            ).event_entries(e),
    {
        let id = fresh_event_id();
        let (mut undo_events, mut redo_events) = self.get_stacks(file, user);
        let ghost pre_undo = undo_events.deep_view();
        let ghost pre_redo = redo_events.deep_view();
        if redo {
            redo_events.push(id.clone());
        } else {
            undo_events.push(id.clone());
        }
        proof {
            if redo {
                assert(redo_events.deep_view() =~= pre_redo.push(id@));
            } else {
                assert(undo_events.deep_view() =~= pre_undo.push(id@));
            }
        }
        self.set_stacks(file, user, undo_events, redo_events);
        id
    }

    /// Opens a fresh undo event for `user` in `file`; every change the user
    /// commits from now on is recorded into it, until the next one opens.
    pub fn begin_undo_event(&mut self, file: &str, user: &str) -> (r: Result<(), UndoError>)
        requires
            old(self).inv(),
        ensures
            final(self).inv(),
            r is Ok,
            exists|id: Seq<char>| #[trigger] final(self).stack(file@, user@, false) == old(
                self,
            ).stack(file@, user@, false).push(id),
            final(self).stack(file@, user@, true) == old(self).stack(file@, user@, true),
            forall|f: Seq<char>, u: Seq<char>, rd: bool|
                !(f == file@ && u == user@) ==> #[trigger] final(self).stack(f, u, rd) == old(
                    self,
                ).stack(f, u, rd),
            forall|e: Seq<char>| #[trigger] final(self).event_entries(e) == old(
                self,
            ).event_entries(e),
    {
        let id = self.begin_event(file, user, false);
        proof {
            assert(self.stack(file@, user@, false) == old(self).stack(file@, user@, false).push(
                id@,
            ));
        }
        Ok(())
    }

    /// Appends an entry to the open event on top of one stack of the change's
    /// user; fails when that stack is empty.
    fn update_event_in_stack(
        &mut self,
        file: &str,
        user: &str,
        redo: bool,
        offset: i64,
        obj_id: String,
        change_type: UndoChangeType,
    ) -> (r: Result<(), UndoError>)
        requires
            old(self).inv(),
        ensures
            final(self).inv(),
            match r {
                Ok(()) => {
                    let st = old(self).stack(file@, user@, redo);
                    let top = st.last();
                    let entry = UndoEntryView { offset, obj_id: obj_id@, change_type };
                    &&& st.len() > 0
                    &&& final(self).event_entries(top) == old(self).event_entries(top).push(entry)
                    &&& forall|e: Seq<char>|
                        e != top ==> #[trigger] final(self).event_entries(e) == old(
                            self,
                        ).event_entries(e)
                    &&& forall|f: Seq<char>, u: Seq<char>, rd: bool| #[trigger] final(self).stack(
                        f,
                        u,
                        rd,
                    ) == old(self).stack(f, u, rd)
                },
                Err(e) => {
                    &&& e matches UndoError::NoUndoEvent(u, f) && u@ == user@ && f@ == file@
                    &&& old(self).stack(file@, user@, redo).len() == 0
                    &&& undo_unchanged(*old(self), *final(self))
                },
            },
    {
        let (undo_events, redo_events) = self.get_stacks(file, user);
        let stack_ref = if redo {
            &redo_events
        } else {
            &undo_events
        };
        if stack_ref.len() == 0 {
            return Err(
                UndoError::NoUndoEvent(String::from_str(user), String::from_str(file)),
            );
        }
        let top = stack_ref[stack_ref.len() - 1].clone();
        proof {
            assert(top@ == old(self).stack(file@, user@, redo).last());
        }
        let mut entries = self.get_event_entries(top.as_str());
        let ghost pre_entries = entries.deep_view();
        entries.push(UndoEntry { offset, obj_id, change_type });
        proof {
            assert(entries.deep_view() =~= pre_entries.push(
                UndoEntryView { offset, obj_id: obj_id@, change_type },
            ));
        }
        self.set_event(top.as_str(), entries);
        Ok(())
    }

    /// Takes the first entry naming `obj_id` out of `event`; fails when none
    /// does.
    fn pop_entry_from_event(&mut self, file: &str, event: &str, obj_id: &str) -> (r: Result<
        UndoEntry,
        UndoError,
    >)
        requires
            old(self).inv(),
        ensures
            final(self).inv(),
            match r {
                Ok(entry) => {
                    let popped = old(self).event_entries(event@);
                    &&& exists|j: int| first_obj_match(popped, obj_id@, j)
                    &&& entry@ == popped[choose|j: int| first_obj_match(popped, obj_id@, j)]
                    &&& final(self).event_entries(event@) == popped.remove(
                        choose|j: int| first_obj_match(popped, obj_id@, j),
                    )
                    &&& forall|e: Seq<char>|
                        e != event@ ==> #[trigger] final(self).event_entries(e) == old(
                            self,
                        ).event_entries(e)
                    &&& forall|f: Seq<char>, u: Seq<char>, rd: bool| #[trigger] final(self).stack(
                        f,
                        u,
                        rd,
                    ) == old(self).stack(f, u, rd)
                },
                Err(e) => {
                    &&& e matches UndoError::NoObjInUndoEvent(o, ev, f) && o@ == obj_id@ && ev@
                        == event@ && f@ == file@
                    &&& forall|j: int|
                        0 <= j < old(self).event_entries(event@).len() ==> (#[trigger] old(
                            self,
                        ).event_entries(event@)[j]).obj_id != obj_id@
                    &&& undo_unchanged(*old(self), *final(self))
                },
            },
    {
        let obj_string = String::from_str(obj_id);
        let mut entries = self.get_event_entries(event);
        let ghost popped = entries.deep_view();
        let mut j: usize = 0;
        while j < entries.len()
            invariant
                j <= entries.len(),
                popped == entries.deep_view(),
                popped == old(self).event_entries(event@),
                *self == *old(self),
                self.inv(),
                obj_string@ == obj_id@,
                forall|w: int| 0 <= w < j ==> popped[w].obj_id != obj_id@,
            decreases entries.len() - j,
        {
            if entries[j].obj_id == obj_string {
                let entry = entries[j].clone();
                entries.remove(j);
                proof {
                    assert(first_obj_match(popped, obj_id@, j as int));
                    let w = choose|w: int| first_obj_match(popped, obj_id@, w);
                    assert(w == j) by {
                        if w < j {
                            assert(popped[w].obj_id != obj_id@);
                        } else if w > j {
                            assert(popped[j as int].obj_id != obj_id@);
                        }
                    }
                    assert(entries.deep_view() =~= popped.remove(j as int));
                }
                self.set_event(event, entries);
                return Ok(entry);
            }
            j += 1;
        }
        Err(
            UndoError::NoObjInUndoEvent(
                obj_string,
                String::from_str(event),
                String::from_str(file),
            ),
        )
    }

    /// Takes `event` off one stack of `user` when it has no entries left.
    fn delete_event_if_empty(&mut self, file: &str, user: &str, redo: bool, event: &str)
        requires
            old(self).inv(),
        ensures
            final(self).inv(),
            final(self).stack(file@, user@, redo) == stack_after_gc(
                old(self).stack(file@, user@, redo),
                old(self).event_entries(event@),
                event@,
            ),
            final(self).stack(file@, user@, !redo) == old(self).stack(file@, user@, !redo),
            forall|f: Seq<char>, u: Seq<char>, rd: bool|
                !(f == file@ && u == user@) ==> #[trigger] final(self).stack(f, u, rd) == old(
                    self,
                ).stack(f, u, rd),
            forall|e: Seq<char>| #[trigger] final(self).event_entries(e) == old(
                self,
            ).event_entries(e),
    {
        let event_string = String::from_str(event);
        let entries = self.get_event_entries(event);
        if entries.len() > 0 {
            return ;
        }
        let (mut undo_events, mut redo_events) = self.get_stacks(file, user);
        let ghost st = if redo {
            redo_events.deep_view()
        } else {
            undo_events.deep_view()
        };
        let found;
        let ghost at: int;
        if redo {
            let mut k: usize = 0;
            let mut hit = false;
            while k < redo_events.len()
                invariant_except_break
                    k <= redo_events.len(),
                    !hit,
                    st == redo_events.deep_view(),
                    event_string@ == event@,
                    forall|w: int| 0 <= w < k ==> st[w] != event@,
                ensures
                    st == redo_events.deep_view(),
                    event_string@ == event@,
                    hit ==> first_event_match(st, event@, k as int),
                    !hit ==> forall|w: int| 0 <= w < st.len() ==> st[w] != event@,
                decreases redo_events.len() - k,
            {
                if redo_events[k] == event_string {
                    hit = true;
                    break ;
                }
                k += 1;
            }
            found = hit;
            proof {
                at = k as int;
            }
            if hit {
                redo_events.remove(k);
                proof {
                    assert(redo_events.deep_view() =~= st.remove(k as int));
                }
            }
        } else {
            let mut k: usize = 0;
            let mut hit = false;
            while k < undo_events.len()
                invariant_except_break
                    k <= undo_events.len(),
                    !hit,
                    st == undo_events.deep_view(),
                    event_string@ == event@,
                    forall|w: int| 0 <= w < k ==> st[w] != event@,
                ensures
                    st == undo_events.deep_view(),
                    event_string@ == event@,
                    hit ==> first_event_match(st, event@, k as int),
                    !hit ==> forall|w: int| 0 <= w < st.len() ==> st[w] != event@,
                decreases undo_events.len() - k,
            {
                if undo_events[k] == event_string {
                    hit = true;
                    break ;
                }
                k += 1;
            }
            found = hit;
            proof {
                at = k as int;
            }
            if hit {
                undo_events.remove(k);
                proof {
                    assert(undo_events.deep_view() =~= st.remove(k as int));
                }
            }
        }
        proof {
            if found {
                let w = choose|w: int| first_event_match(st, event@, w);
                assert(w == at) by {
                    if w < at {
                        assert(st[w] != event@);
                    } else if w > at {
                        assert(st[at] != event@);
                    }
                }
            }
        }
        self.set_stacks(file, user, undo_events, redo_events);
    }

    /// Moves the entry of one replayed object from the event it was recorded
    /// in to the open event of the opposite stack.
    fn move_entry_between_stacks(
        &mut self,
        file: &str,
        user: &str,
        from_redo: bool,
        event: &str,
        offset: i64,
        obj_id: String,
        change_type: UndoChangeType,
        Ghost(c): Ghost<ChangeView>,
    ) -> (r: Result<(), UndoError>)
        requires
            old(self).inv(),
            c.user == user@,
            entry_of(offset, c) == (UndoEntryView { offset, obj_id: obj_id@, change_type }),
        ensures
            final(self).inv(),
            match r {
                Ok(()) => replay_applied(
                    *old(self),
                    *final(self),
                    file@,
                    offset,
                    c,
                    event@,
                    from_redo,
                ),
                Err(e) => match e {
                    UndoError::NoObjInUndoEvent(o, ev, f) => {
                        &&& o@ == obj_id@ && ev@ == event@ && f@ == file@
                        &&& replay_no_obj(*old(self), file@, offset, c, event@)
                        &&& undo_unchanged(*old(self), *final(self))
                    },
                    UndoError::NoUndoEvent(u, f) => {
                        &&& u@ == user@ && f@ == file@
                        &&& replay_stuck(
                            *old(self),
                            *final(self),
                            file@,
                            offset,
                            c,
                            event@,
                            from_redo,
                        )
                    },
                },
            },
    {
        let obj_string = {
            let tmp = obj_id.clone();
            tmp
        };
        match self.pop_entry_from_event(file, event, obj_string.as_str()) {
            Ok(_) => {},
            Err(e) => {
                return Err(e);
            },
        }
        let ghost after_pop = *self;
        self.delete_event_if_empty(file, user, from_redo, event);
        let ghost after_gc = *self;
        let r = self.update_event_in_stack(file, user, !from_redo, offset, obj_id, change_type);
        proof {
            let pre = *old(self);
            let popped = pre.event_entries(event@);
            let j = choose|j: int| first_obj_match(popped, obj_id@, j);
            let remaining = popped.remove(j);
            assert(after_pop.event_entries(event@) == remaining);
            assert(after_gc.event_entries(event@) == remaining);
            assert(after_gc.stack(file@, user@, from_redo) == stack_after_gc(
                pre.stack(file@, user@, from_redo),
                remaining,
                event@,
            ));
            assert(after_gc.stack(file@, user@, !from_redo) == pre.stack(
                file@,
                user@,
                !from_redo,
            ));
        }
        proof {
            let pre = *old(self);
            let popped = pre.event_entries(event@);
            let j = choose|j: int| first_obj_match(popped, obj_id@, j);
            let remaining = popped.remove(j);
            let entry = entry_of(offset, c);
            assert(entry.obj_id == obj_id@);
            assert(exists|w: int| first_obj_match(popped, entry.obj_id, w));
            let j2 = choose|w: int| first_obj_match(popped, entry.obj_id, w);
            assert(first_obj_match(popped, entry.obj_id, j2));
            assert(first_obj_match(popped, obj_id@, j));
            assert(j2 == j) by {
                if j2 < j {
                    assert(popped[j2].obj_id != obj_id@);
                } else if j2 > j {
                    assert(popped[j].obj_id != entry.obj_id);
                }
            }
            match r {
                Ok(()) => {
                    let st_to = pre.stack(file@, user@, !from_redo);
                    let top = st_to.last();
                    assert(after_gc.stack(file@, user@, !from_redo) == st_to);
                    assert(self.event_entries(top) == after_gc.event_entries(top).push(
                        UndoEntryView { offset, obj_id: obj_id@, change_type },
                    ));
                    if top == event@ {
                        assert(after_gc.event_entries(top) == remaining);
                    } else {
                        assert(after_gc.event_entries(top) == pre.event_entries(top));
                        assert(self.event_entries(event@) == remaining);
                    }
                    assert forall|e: Seq<char>| e != event@ && e != top implies #[trigger] self.event_entries(
                        e,
                    ) == pre.event_entries(e) by {
                        assert(after_pop.event_entries(e) == pre.event_entries(e));
                        assert(after_gc.event_entries(e) == after_pop.event_entries(e));
                        assert(self.event_entries(e) == after_gc.event_entries(e));
                    }
                    assert(self.stack(file@, user@, from_redo) == after_gc.stack(
                        file@,
                        user@,
                        from_redo,
                    ));
                    assert forall|f: Seq<char>, u: Seq<char>, rd: bool|
                        !(f == file@ && u == user@) implies #[trigger] self.stack(f, u, rd)
                        == pre.stack(f, u, rd) by {
                        assert(after_pop.stack(f, u, rd) == pre.stack(f, u, rd));
                        assert(after_gc.stack(f, u, rd) == after_pop.stack(f, u, rd));
                        assert(self.stack(f, u, rd) == after_gc.stack(f, u, rd));
                    }
                },
                Err(UndoError::NoUndoEvent(_, _)) => {
                    assert(pre.stack(file@, user@, !from_redo).len() == 0) by {
                        assert(after_gc.stack(file@, user@, !from_redo) == pre.stack(
                            file@,
                            user@,
                            !from_redo,
                        ));
                    }
                    assert(self.event_entries(event@) == remaining) by {
                        assert(undo_unchanged(after_gc, *self));
                    }
                    assert forall|e: Seq<char>| e != event@ implies #[trigger] self.event_entries(
                        e,
                    ) == pre.event_entries(e) by {
                        assert(after_pop.event_entries(e) == pre.event_entries(e));
                        assert(after_gc.event_entries(e) == after_pop.event_entries(e));
                        assert(self.event_entries(e) == after_gc.event_entries(e));
                    }
                    assert(self.stack(file@, user@, from_redo) == after_gc.stack(
                        file@,
                        user@,
                        from_redo,
                    ));
                    assert(self.stack(file@, user@, !from_redo) == after_gc.stack(
                        file@,
                        user@,
                        !from_redo,
                    ));
                    assert forall|f: Seq<char>, u: Seq<char>, rd: bool|
                        !(f == file@ && u == user@) implies #[trigger] self.stack(f, u, rd)
                        == pre.stack(f, u, rd) by {
                        assert(after_pop.stack(f, u, rd) == pre.stack(f, u, rd));
                        assert(after_gc.stack(f, u, rd) == after_pop.stack(f, u, rd));
                        assert(self.stack(f, u, rd) == after_gc.stack(f, u, rd));
                    }
                },
                Err(UndoError::NoObjInUndoEvent(_, _, _)) => {
                    assert(false);
                },
            }
        }
        match r {
            Ok(()) => Ok(()),
            Err(e) => Err(e),
        }
    }
}



impl UndoCache {
    /// Records one committed change, routed by its source: a user action
    /// lands in the open undo event; the replay of an undo moves the entry to
    /// the redo side; the replay of a redo moves it back; a change without a
    /// source is ignored.
    pub fn update_undo_cache(&mut self, file: &str, offset: i64, msg: &ChangeMsg) -> (r: Result<
        (),
        UndoError,
    >)
        requires
            old(self).inv(),
        ensures
            final(self).inv(),
            match msg@.change_source {
                None => r is Ok && undo_unchanged(*old(self), *final(self)),
                Some(ChangeSourceView::UserAction) => match r {
                    Ok(()) => user_action_applied(*old(self), *final(self), file@, offset, msg@),
                    Err(e) => {
                        &&& e matches UndoError::NoUndoEvent(u, f) && u@ == msg@.user && f@
                            == file@
                        &&& old(self).stack(file@, msg@.user, false).len() == 0
                        &&& undo_unchanged(*old(self), *final(self))
                    },
                },
                Some(ChangeSourceView::Undo(ev)) => match r {
                    Ok(()) => replay_applied(
                        *old(self),
                        *final(self),
                        file@,
                        offset,
                        msg@,
                        ev,
                        false,
                    ),
                    Err(e) => match e {
                        UndoError::NoObjInUndoEvent(_, _, _) => {
                            &&& replay_no_obj(*old(self), file@, offset, msg@, ev)
                            &&& undo_unchanged(*old(self), *final(self))
                        },
                        UndoError::NoUndoEvent(_, _) => replay_stuck(
                            *old(self),
                            *final(self),
                            file@,
                            offset,
                            msg@,
                            ev,
                            false,
                        ),
                    },
                },
                Some(ChangeSourceView::Redo(ev)) => match r {
                    Ok(()) => replay_applied(
                        *old(self),
                        *final(self),
                        file@,
                        offset,
                        msg@,
                        ev,
                        true,
                    ),
                    Err(e) => match e {
                        UndoError::NoObjInUndoEvent(_, _, _) => {
                            &&& replay_no_obj(*old(self), file@, offset, msg@, ev)
                            &&& undo_unchanged(*old(self), *final(self))
                        },
                        UndoError::NoUndoEvent(_, _) => replay_stuck(
                            *old(self),
                            *final(self),
                            file@,
                            offset,
                            msg@,
                            ev,
                            true,
                        ),
                    },
                },
            },
    {
        let (obj_id, change_type) = match &msg.change_type {
            Some(ChangeType::Add(object)) => (object.id.clone(), UndoChangeType::Add),
            Some(ChangeType::Modify(object)) => (object.id.clone(), UndoChangeType::Modify),
            Some(ChangeType::Delete(del)) => (del.id.clone(), UndoChangeType::Delete),
            None => (String::new(), UndoChangeType::NotSet),
        };
        proof {
            assert(entry_of(offset, msg@) == (UndoEntryView {
                offset,
                obj_id: obj_id@,
                change_type,
            }));
        }
        match &msg.change_source {
            Some(ChangeSource::UserAction(_)) => {
                self.update_event_in_stack(file, &msg.user, false, offset, obj_id, change_type)
            },
            Some(ChangeSource::Undo(event)) => {
                let event_copy = event.clone();
                self.move_entry_between_stacks(
                    file,
                    &msg.user,
                    false,
                    event_copy.as_str(),
                    offset,
                    obj_id,
                    change_type,
                    Ghost(msg@),
                )
            },
            Some(ChangeSource::Redo(event)) => {
                let event_copy = event.clone();
                self.move_entry_between_stacks(
                    file,
                    &msg.user,
                    true,
                    event_copy.as_str(),
                    offset,
                    obj_id,
                    change_type,
                    Ghost(msg@),
                )
            },
            None => Ok(()),
        }
    }

    /// Returns the open undo event of `user` in `file` with its entries, and
    /// opens a fresh redo event for the replay to record into.  The event is
    /// not popped here: the replayed changes, tagged with its id, move its
    /// entries over as they are committed.
    pub fn undo(&mut self, file: &str, user: &str) -> (r: Result<
        (String, Vec<UndoEntry>),
        UndoError,
    >)
        requires
            old(self).inv(),
        ensures
            final(self).inv(),
            match r {
                Ok(p) => {
                    let st = old(self).stack(file@, user@, false);
                    &&& st.len() > 0
                    &&& p.0@ == st.last()
                    &&& p.1.deep_view() == old(self).event_entries(st.last())
                    &&& exists|id: Seq<char>| #[trigger] final(self).stack(file@, user@, true)
                        == old(self).stack(file@, user@, true).push(id)
                    &&& final(self).stack(file@, user@, false) == old(self).stack(
                        file@,
                        user@,
                        false,
                    )
                    &&& forall|f: Seq<char>, u: Seq<char>, rd: bool|
                        !(f == file@ && u == user@) ==> #[trigger] final(self).stack(f, u, rd)
                            == old(self).stack(f, u, rd)
                    &&& forall|e: Seq<char>| #[trigger] final(self).event_entries(e) == old(
                        self,
                    ).event_entries(e)
                },
                Err(e) => {
                    &&& e matches UndoError::NoUndoEvent(u, f) && u@ == user@ && f@ == file@
                    &&& old(self).stack(file@, user@, false).len() == 0
                    &&& undo_unchanged(*old(self), *final(self))
                },
            },
    {
        let (undo_events, _) = self.get_stacks(file, user);
        if undo_events.len() == 0 {
            return Err(
                UndoError::NoUndoEvent(String::from_str(user), String::from_str(file)),
            );
        }
        let event = undo_events[undo_events.len() - 1].clone();
        proof {
            assert(event@ == old(self).stack(file@, user@, false).last());
        }
        let list = self.get_event_entries(event.as_str());
        let id = self.begin_event(file, user, true);
        Ok((event, list))
    }

    /// Returns the open redo event of `user` in `file` with its entries, and
    /// opens a fresh undo event for the replay to record into.
    pub fn redo(&mut self, file: &str, user: &str) -> (r: Result<
        (String, Vec<UndoEntry>),
        UndoError,
    >)
        requires
            old(self).inv(),
        ensures
            final(self).inv(),
            match r {
                Ok(p) => {
                    let st = old(self).stack(file@, user@, true);
                    &&& st.len() > 0
                    &&& p.0@ == st.last()
                    &&& p.1.deep_view() == old(self).event_entries(st.last())
                    &&& exists|id: Seq<char>| #[trigger] final(self).stack(file@, user@, false)
                        == old(self).stack(file@, user@, false).push(id)
                    &&& final(self).stack(file@, user@, true) == old(self).stack(
                        file@,
                        user@,
                        true,
                    )
                    &&& forall|f: Seq<char>, u: Seq<char>, rd: bool|
                        !(f == file@ && u == user@) ==> #[trigger] final(self).stack(f, u, rd)
                            == old(self).stack(f, u, rd)
                    &&& forall|e: Seq<char>| #[trigger] final(self).event_entries(e) == old(
                        self,
                    ).event_entries(e)
                },
                Err(e) => {
                    &&& e matches UndoError::NoUndoEvent(u, f) && u@ == user@ && f@ == file@
                    &&& old(self).stack(file@, user@, true).len() == 0
                    &&& undo_unchanged(*old(self), *final(self))
                },
            },
    {
        let (_, redo_events) = self.get_stacks(file, user);
        if redo_events.len() == 0 {
            return Err(
                UndoError::NoUndoEvent(String::from_str(user), String::from_str(file)),
            );
        }
        let event = redo_events[redo_events.len() - 1].clone();
        proof {
            assert(event@ == old(self).stack(file@, user@, true).last());
        }
        let list = self.get_event_entries(event.as_str());
        let id = self.begin_event(file, user, false);
        Ok((event, list))
    }
}



/// What recording one committed change may leave behind, whatever the store
/// answered: the applied effect, or the untouched (or partially garbage
/// collected) store of the refusal cases.
pub open spec fn recorded_effect(
    pre: UndoCache,
    post: UndoCache,
    file: Seq<char>,
    offset: i64,
    c: ChangeView,
) -> bool {
    match c.change_source {
        None => undo_unchanged(pre, post),
        Some(ChangeSourceView::UserAction) => user_action_applied(pre, post, file, offset, c) || (
        pre.stack(file, c.user, false).len() == 0 && undo_unchanged(pre, post)),
        Some(ChangeSourceView::Undo(ev)) => replay_applied(pre, post, file, offset, c, ev, false)
            || (replay_no_obj(pre, file, offset, c, ev) && undo_unchanged(pre, post))
            || replay_stuck(pre, post, file, offset, c, ev, false),
        Some(ChangeSourceView::Redo(ev)) => replay_applied(pre, post, file, offset, c, ev, true)
            || (replay_no_obj(pre, file, offset, c, ev) && undo_unchanged(pre, post))
            || replay_stuck(pre, post, file, offset, c, ev, true),
    }
}


} // verus!
