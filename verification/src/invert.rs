//! Inversion of recorded undo events (the undo/redo engine).
//!
//! Each entry of an event names an object and the kind of change committed
//! at some offset.  Inverting the entry against the object's state just
//! before that offset yields the change that rolls it back: an add is
//! undone by a delete, a modify by restoring the previous state, a delete by
//! re-adding it.  A modify or a delete whose previous state is absent or
//! itself a delete cannot be rolled back: the recorded history is broken,
//! and the whole inversion fails.  The inverses carry the replay source tag,
//! so that the undo store moves the event's entries to the opposite stack
//! when they commit.

use vstd::prelude::*;

use crate::msg::{
    ChangeMsg, ChangeSource, ChangeSourceView, ChangeType, ChangeTypeView, ChangeView, DeleteMsg,
    ObjectView, OptionChangeMsg,
};
use crate::object_cache::ObjectAtOffset;
use crate::undo_cache::{entry_of, UndoChangeType, UndoEntry, UndoEntryView};

verus! {

/// Errors of event inversion.
#[derive(Debug, PartialEq)]
pub enum InvertError {
    /// A recorded modify or delete has no live previous state to roll back
    /// onto — the history behind the event is broken.  Carries the object.
    NoPreviousState(String),
}

/// The observable document state a change leaves behind for its object: the
/// object's contents, or nothing after a delete.
pub open spec fn observable(c: ChangeView) -> Option<ObjectView> {
    match c.change_type {
        Some(ChangeTypeView::Add(obj)) => Some(obj),
        Some(ChangeTypeView::Modify(obj)) => Some(obj),
        Some(ChangeTypeView::Delete(_)) => None,
        None => None,
    }
}

/// The inverse of one recorded entry, given the object's state just before
/// the recorded offset: an add rolls back to a delete whatever went before;
/// a modify and a delete roll back to the previous contents.  A modify or a
/// delete (or an unset kind) whose previous state is absent, deleted or
/// untyped has no inverse.
pub open spec fn invert_one(
    user: Seq<char>,
    source: ChangeSourceView,
    entry: UndoEntryView,
    prev: Option<ChangeView>,
) -> Option<ChangeView> {
    match entry.change_type {
        UndoChangeType::Add => Some(
            ChangeView {
                user,
                change_type: Some(ChangeTypeView::Delete(entry.obj_id)),
                change_source: Some(source),
            },
        ),
        UndoChangeType::Modify => match previous_object(prev) {
            Some(prev_object) => Some(
                ChangeView {
                    user,
                    change_type: Some(ChangeTypeView::Modify(prev_object)),
                    change_source: Some(source),
                },
            ),
            None => None,
        },
        UndoChangeType::Delete | UndoChangeType::NotSet => match previous_object(prev) {
            Some(prev_object) => Some(
                ChangeView {
                    user,
                    change_type: Some(ChangeTypeView::Add(prev_object)),
                    change_source: Some(source),
                },
            ),
            None => None,
        },
    }
}

/// The live contents a previous state offers to roll back onto.
pub open spec fn previous_object(prev: Option<ChangeView>) -> Option<ObjectView> {
    match prev {
        Some(prev_change) => match prev_change.change_type {
            Some(ChangeTypeView::Add(prev_object)) => Some(prev_object),
            Some(ChangeTypeView::Modify(prev_object)) => Some(prev_object),
            _ => None,
        },
        None => None,
    }
}

/// The inverses of a list of entries zipped with their previous states, in
/// order; nothing when any entry in the zipped range has no inverse.
pub open spec fn invert_result(
    user: Seq<char>,
    source: ChangeSourceView,
    entries: Seq<UndoEntryView>,
    previous: Seq<Option<ChangeView>>,
) -> Option<Seq<ChangeView>>
    decreases entries.len(),
{
    if entries.len() == 0 || previous.len() == 0 {
        Some(Seq::empty())
    } else {
        match invert_result(user, source, entries.drop_first(), previous.drop_first()) {
            Some(rest) => match invert_one(user, source, entries.first(), previous.first()) {
                Some(c) => Some(seq![c] + rest),
                None => None,
            },
            None => None,
        }
    }
}

/// The first entry of the zipped range without an inverse stands at `j`.
pub open spec fn first_invalid_entry(
    user: Seq<char>,
    source: ChangeSourceView,
    entries: Seq<UndoEntryView>,
    previous: Seq<Option<ChangeView>>,
    j: int,
) -> bool {
    &&& 0 <= j < entries.len()
    &&& j < previous.len()
    &&& invert_one(user, source, entries[j], previous[j]) is None
    &&& forall|w: int| 0 <= w < j ==> invert_one(user, source, entries[w], previous[w]) is Some
}

/// The queries that fetch each entry's object as it stood just before the
/// entry's offset.
pub fn previous_queries(entries: &Vec<UndoEntry>) -> (r: Vec<ObjectAtOffset>)
    requires
        forall|i: int|
            0 <= i < entries.deep_view().len() ==> (#[trigger] entries.deep_view()[i]).offset
                > i64::MIN,
    ensures
        r@.len() == entries.deep_view().len(),
        forall|i: int|
            0 <= i < r@.len() ==> (#[trigger] r@[i]).offset == entries.deep_view()[i].offset - 1
                && r@[i].obj_id@ == entries.deep_view()[i].obj_id,
{
    let mut r: Vec<ObjectAtOffset> = Vec::new();
    let mut i: usize = 0;
    while i < entries.len()
        invariant
            i <= entries.len(),
            r@.len() == i,
            forall|j: int|
                0 <= j < entries.deep_view().len() ==> (#[trigger] entries.deep_view()[j]).offset
                    > i64::MIN,
            forall|j: int|
                0 <= j < i ==> (#[trigger] r@[j]).offset == entries.deep_view()[j].offset - 1
                    && r@[j].obj_id@ == entries.deep_view()[j].obj_id,
        decreases entries.len() - i,
    {
        proof {
            assert(entries.deep_view()[i as int].offset > i64::MIN);
        }
        r.push(
            ObjectAtOffset { offset: entries[i].offset - 1, obj_id: entries[i].obj_id.clone() },
        );
        i += 1;
    }
    r
}

/// Inverts the entries of one event against the previous object states, in
/// order, tagging every inverse with the replay source.  An entry whose
/// previous state cannot be rolled back onto (a modify or a delete of
/// something absent or already gone) is an invariant violation in the
/// recorded history: the first such entry fails the inversion, naming its
/// object.
pub fn invert_changes_inner(
    user: &str,
    source: ChangeSource,
    entries: Vec<UndoEntry>,
    previous: Vec<OptionChangeMsg>,
) -> (r: Result<Vec<ChangeMsg>, InvertError>)
    ensures
        match r {
            Ok(out) => invert_result(
                user@,
                source@,
                entries.deep_view(),
                previous.deep_view(),
            ) == Some(out.deep_view()),
            Err(e) => {
                &&& invert_result(user@, source@, entries.deep_view(), previous.deep_view())
                    is None
                &&& e matches InvertError::NoPreviousState(id) && exists|j: int|
                    #[trigger] first_invalid_entry(
                        user@,
                        source@,
                        entries.deep_view(),
                        previous.deep_view(),
                        j,
                    ) && id@ == entries.deep_view()[j].obj_id
            },
        },
{
    let ghost evs = entries.deep_view();
    let ghost prevs = previous.deep_view();
    let length = if entries.len() <= previous.len() {
        entries.len()
    } else {
        previous.len()
    };
    let mut inverted: Vec<ChangeMsg> = Vec::new();
    let mut i: usize = 0;
    proof {
        assert(evs.skip(0) =~= evs);
        assert(prevs.skip(0) =~= prevs);
        match invert_result(user@, source@, evs, prevs) {
            Some(rest) => {
                assert(Seq::<ChangeView>::empty() + rest =~= rest);
            },
            None => {},
        }
    }
    while i < length
        invariant
            i <= length,
            length == if evs.len() <= prevs.len() {
                evs.len()
            } else {
                prevs.len()
            },
            evs == entries.deep_view(),
            prevs == previous.deep_view(),
            forall|w: int| 0 <= w < i ==> invert_one(user@, source@, evs[w], prevs[w]) is Some,
            invert_result(user@, source@, evs, prevs) == match invert_result(
                user@,
                source@,
                evs.skip(i as int),
                prevs.skip(i as int),
            ) {
                Some(rest) => Some(inverted.deep_view() + rest),
                None => None::<Seq<ChangeView>>,
            },
        decreases length - i,
    {
        let entry = &entries[i];
        let prev = &previous[i];
        let ghost before = inverted.deep_view();
        proof {
            assert(evs.skip(i as int).first() == evs[i as int]);
            assert(prevs.skip(i as int).first() == prevs[i as int]);
            assert(evs.skip(i as int).drop_first() =~= evs.skip(i + 1));
            assert(prevs.skip(i as int).drop_first() =~= prevs.skip(i + 1));
        }
        let prev_object: Option<&crate::msg::ObjectMsg> = match &prev.change {
            Some(prev_change) => match &prev_change.change_type {
                Some(ChangeType::Add(prev_object)) => Some(prev_object),
                Some(ChangeType::Modify(prev_object)) => Some(prev_object),
                _ => None,
            },
            None => None,
        };
        match entry.change_type {
            UndoChangeType::Add => {
                inverted.push(
                    ChangeMsg {
                        user: String::from_str(user),
                        change_type: Some(
                            ChangeType::Delete(DeleteMsg { id: entry.obj_id.clone() }),
                        ),
                        change_source: Some(source.clone()),
                    },
                );
            },
            UndoChangeType::Modify => {
                match prev_object {
                    Some(object) => {
                        inverted.push(
                            ChangeMsg {
                                user: String::from_str(user),
                                change_type: Some(ChangeType::Modify(object.clone())),
                                change_source: Some(source.clone()),
                            },
                        );
                    },
                    None => {
                        proof {
                            assert(first_invalid_entry(user@, source@, evs, prevs, i as int));
                        }
                        return Err(InvertError::NoPreviousState(entry.obj_id.clone()));
                    },
                }
            },
            UndoChangeType::Delete | UndoChangeType::NotSet => {
                match prev_object {
                    Some(object) => {
                        inverted.push(
                            ChangeMsg {
                                user: String::from_str(user),
                                change_type: Some(ChangeType::Add(object.clone())),
                                change_source: Some(source.clone()),
                            },
                        );
                    },
                    None => {
                        proof {
                            assert(first_invalid_entry(user@, source@, evs, prevs, i as int));
                        }
                        return Err(InvertError::NoPreviousState(entry.obj_id.clone()));
                    },
                }
            },
        }
        proof {
            let c = invert_one(user@, source@, evs[i as int], prevs[i as int]).unwrap();
            assert(inverted.deep_view() =~= before.push(c));
            assert(before.push(c) =~= before + seq![c]);
            match invert_result(user@, source@, evs.skip(i + 1), prevs.skip(i + 1)) {
                Some(rest) => {
                    vstd::seq_lib::lemma_concat_associative(before, seq![c], rest);
                },
                None => {},
            }
        }
        i += 1;
    }
    proof {
        assert(evs.skip(i as int).len() == 0 || prevs.skip(i as int).len() == 0);
        assert(inverted.deep_view() + Seq::<ChangeView>::empty() =~= inverted.deep_view());
    }
    Ok(inverted)
}

/// Undoing restores what was there before.  The inverse of a recorded change,
/// computed against the object's previous state, leaves the observable state
/// that the previous state described: the previous contents after a modify or
/// a delete, nothing after an add.
pub proof fn lemma_undo_restores(
    user: Seq<char>,
    ev: Seq<char>,
    offset: i64,
    c: ChangeView,
    prev: Option<ChangeView>,
)
    requires
        c.change_type is Some,
        // an added object had no earlier live state
        entry_of(offset, c).change_type == UndoChangeType::Add ==> match prev {
            Some(p) => p.change_type matches Some(ChangeTypeView::Delete(_)),
            None => true,
        },
        invert_one(user, ChangeSourceView::Undo(ev), entry_of(offset, c), prev) is Some,
    ensures
        ({
            let inverse = invert_one(
                user,
                ChangeSourceView::Undo(ev),
                entry_of(offset, c),
                prev,
            ).unwrap();
            observable(inverse) == match prev {
                Some(p) => observable(p),
                None => None,
            }
        }),
{
}

/// Undo then redo is a round trip.  Inverting a change gives the rollback;
/// inverting that rollback against the original change gives a change whose
/// observable state equals the original's — the document ends up where the
/// first submit left it.  Every input with a defined rollback makes the trip.
pub proof fn lemma_undo_redo_round_trip(
    user1: Seq<char>,
    user2: Seq<char>,
    ev1: Seq<char>,
    ev2: Seq<char>,
    offset1: i64,
    offset2: i64,
    c: ChangeView,
    prev: Option<ChangeView>,
)
    requires
        c.change_type is Some,
        invert_one(user1, ChangeSourceView::Undo(ev1), entry_of(offset1, c), prev) is Some,
    ensures
        ({
            let rollback = invert_one(
                user1,
                ChangeSourceView::Undo(ev1),
                entry_of(offset1, c),
                prev,
            ).unwrap();
            let replay = invert_one(
                user2,
                ChangeSourceView::Redo(ev2),
                entry_of(offset2, rollback),
                Some(c),
            );
            &&& replay is Some
            &&& observable(replay.unwrap()) == observable(c)
        }),
{
    let rollback = invert_one(
        user1,
        ChangeSourceView::Undo(ev1),
        entry_of(offset1, c),
        prev,
    ).unwrap();
    match c.change_type {
        Some(ChangeTypeView::Add(obj)) => {
            assert(rollback.change_type == Some(ChangeTypeView::Delete(obj.id)));
            assert(entry_of(offset2, rollback).change_type == UndoChangeType::Delete);
        },
        Some(ChangeTypeView::Modify(obj)) => {
            assert(entry_of(offset2, rollback).change_type == UndoChangeType::Modify);
        },
        Some(ChangeTypeView::Delete(id)) => {
            assert(entry_of(offset2, rollback).change_type == UndoChangeType::Add);
        },
        None => {},
    }
}

} // verus!
