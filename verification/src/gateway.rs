//! The gateway's compute steps: classifying batched point-in-time answers
//! into plain objects, and picking the offset a submit reports.
//!
//! The transport around these (connecting, sending, receiving) lives outside
//! the library; these functions take the received values and decide.

use vstd::prelude::*;

use crate::msg::{ChangeTypeView, ChangeView, ObjectMsg, ObjectView, OptionChangeMsg};

verus! {

/// Errors of the gateway's checks.
#[derive(Debug, PartialEq)]
pub enum GatewayError {
    /// An object a strict read demanded is missing, deleted or untyped;
    /// carries its id.
    ObjMissing(String),
    /// A submit reported no offsets.
    NoOffsets,
}

/// What one answered slot contributes: the object of an add or a modify;
/// nothing for a missing, deleted or untyped slot.
pub open spec fn slot_object(change: Option<ChangeView>) -> Option<ObjectView> {
    match change {
        Some(c) => match c.change_type {
            Some(ChangeTypeView::Add(obj)) => Some(obj),
            Some(ChangeTypeView::Modify(obj)) => Some(obj),
            _ => None,
        },
        None => None,
    }
}

/// The first empty slot of a batched answer stands at `j`.
pub open spec fn first_empty_slot(changes: Seq<Option<ChangeView>>, j: int) -> bool {
    &&& 0 <= j < changes.len()
    &&& slot_object(changes[j]) is None
    &&& forall|w: int| 0 <= w < j ==> slot_object(changes[w]) is Some
}

/// The objects of a batched answer, empty slots skipped; nothing when
/// `strict` and any slot is empty.
pub open spec fn collected(changes: Seq<Option<ChangeView>>, strict: bool) -> Option<
    Seq<ObjectView>,
>
    decreases changes.len(),
{
    if changes.len() == 0 {
        Some(Seq::empty())
    } else {
        match collected(changes.drop_first(), strict) {
            Some(rest) => match slot_object(changes.first()) {
                Some(obj) => Some(seq![obj] + rest),
                None => if strict {
                    None
                } else {
                    Some(rest)
                },
            },
            None => None,
        }
    }
}

/// Turns a batched point-in-time answer into the objects it holds, paired
/// with the ids that were asked.  With `error_on_missing`, a missing,
/// deleted or untyped slot fails the whole read, naming its id; without it,
/// such slots are skipped.
pub fn collect_objects(
    changes: Vec<OptionChangeMsg>,
    obj_ids: &Vec<String>,
    error_on_missing: bool,
) -> (r: Result<Vec<ObjectMsg>, GatewayError>)
    requires
        changes@.len() == obj_ids@.len(),
    ensures
        match r {
            Ok(objects) => collected(changes.deep_view(), error_on_missing) == Some(
                objects.deep_view(),
            ),
            Err(e) => {
                &&& error_on_missing
                &&& collected(changes.deep_view(), error_on_missing) is None
                &&& e matches GatewayError::ObjMissing(id) && exists|j: int|
                    #[trigger] first_empty_slot(changes.deep_view(), j) && id@
                        == obj_ids.deep_view()[j]
            },
        },
{
    let ghost cvs = changes.deep_view();
    let mut objects: Vec<ObjectMsg> = Vec::new();
    let mut i: usize = 0;
    proof {
        assert(cvs.take(0) =~= Seq::<Option<ChangeView>>::empty());
        assert(collected(cvs.take(0), error_on_missing) == Some(Seq::<ObjectView>::empty()));
        assert(objects.deep_view() =~= Seq::<ObjectView>::empty());
    }
    while i < changes.len()
        invariant
            i <= changes@.len(),
            changes@.len() == obj_ids@.len(),
            cvs == changes.deep_view(),
            collected(cvs.take(i as int), error_on_missing) == Some(objects.deep_view()),
            error_on_missing ==> forall|w: int|
                0 <= w < i ==> slot_object(#[trigger] cvs[w]) is Some,
        decreases changes@.len() - i,
    {
        let slot = &changes[i];
        let ghost before = objects.deep_view();
        let pushed: bool;
        match &slot.change {
            Some(change) => match &change.change_type {
                Some(crate::msg::ChangeType::Add(object)) => {
                    objects.push(object.clone());
                    pushed = true;
                },
                Some(crate::msg::ChangeType::Modify(object)) => {
                    objects.push(object.clone());
                    pushed = true;
                },
                _ => {
                    if error_on_missing {
                        proof {
                            lemma_collected_step(cvs, i as int, error_on_missing);
                            lemma_collected_none_prefix(cvs, i + 1, error_on_missing);
                            assert(first_empty_slot(cvs, i as int));
                        }
                        return Err(GatewayError::ObjMissing(obj_ids[i].clone()));
                    }
                    pushed = false;
                },
            },
            None => {
                if error_on_missing {
                    proof {
                        lemma_collected_step(cvs, i as int, error_on_missing);
                        lemma_collected_none_prefix(cvs, i + 1, error_on_missing);
                        assert(first_empty_slot(cvs, i as int));
                    }
                    return Err(GatewayError::ObjMissing(obj_ids[i].clone()));
                }
                pushed = false;
            },
        }
        proof {
            lemma_collected_step(cvs, i as int, error_on_missing);
            if pushed {
                assert(objects.deep_view() =~= before.push(
                    slot_object(cvs[i as int]).unwrap(),
                ));
                assert(before.push(slot_object(cvs[i as int]).unwrap()) =~= before + seq![
                    slot_object(cvs[i as int]).unwrap(),
                ]);
            }
        }
        i += 1;
    }
    proof {
        assert(cvs.take(changes@.len() as int) =~= cvs);
    }
    Ok(objects)
}

/// Collection over a prefix extended by one slot: the slot's contribution
/// lands at the end.
proof fn lemma_collected_step(changes: Seq<Option<ChangeView>>, i: int, strict: bool)
    requires
        0 <= i < changes.len(),
        collected(changes.take(i), strict) is Some,
    ensures
        collected(changes.take(i + 1), strict) == match slot_object(changes[i]) {
            Some(obj) => Some(collected(changes.take(i), strict).unwrap() + seq![obj]),
            None => if strict {
                None
            } else {
                collected(changes.take(i), strict)
            },
        },
    decreases i,
{
    if i == 0 {
        assert(changes.take(1).first() == changes[0]);
        assert(changes.take(1).drop_first() =~= Seq::<Option<ChangeView>>::empty());
        assert(changes.take(0) =~= Seq::<Option<ChangeView>>::empty());
        match slot_object(changes[0]) {
            Some(obj) => {
                assert(seq![obj] + Seq::<ObjectView>::empty() =~= Seq::<
                    ObjectView,
                >::empty() + seq![obj]);
            },
            None => {},
        }
    } else {
        assert(changes.take(i + 1).first() == changes[0]);
        assert(changes.take(i).first() == changes[0]);
        assert(changes.take(i + 1).drop_first() =~= changes.drop_first().take(i));
        assert(changes.take(i).drop_first() =~= changes.drop_first().take(i - 1));
        assert(changes.drop_first()[i - 1] == changes[i]);
        lemma_collected_step(changes.drop_first(), i - 1, strict);
        match slot_object(changes[0]) {
            Some(head) => {
                match slot_object(changes[i]) {
                    Some(obj) => {
                        assert(seq![head] + (collected(changes.drop_first().take(i - 1), strict)
                            .unwrap() + seq![obj]) =~= (seq![head] + collected(
                            changes.drop_first().take(i - 1),
                            strict,
                        ).unwrap()) + seq![obj]);
                    },
                    None => {},
                }
            },
            None => {},
        }
    }
}

/// Once a prefix fails a strict collection, the whole fails.
proof fn lemma_collected_none_prefix(changes: Seq<Option<ChangeView>>, i: int, strict: bool)
    requires
        0 <= i <= changes.len(),
        collected(changes.take(i), strict) is None,
    ensures
        collected(changes, strict) is None,
    decreases changes.len(),
{
    if i > 0 && changes.len() > 0 {
        assert(changes.take(i).first() == changes[0]);
        assert(changes.take(i).drop_first() =~= changes.drop_first().take(i - 1));
        if collected(changes.drop_first().take(i - 1), strict) is None {
            lemma_collected_none_prefix(changes.drop_first(), i - 1, strict);
        }
    }
}


/// The offset a submit reports to its caller: the last one assigned; a
/// submit that assigned none is an error.
pub fn last_offset(offsets: &Vec<i64>) -> (r: Result<i64, GatewayError>)
    ensures
        match r {
            Ok(offset) => offsets@.len() > 0 && offset == offsets@.last(),
            Err(e) => e matches GatewayError::NoOffsets && offsets@.len() == 0,
        },
{
    if offsets.len() == 0 {
        Err(GatewayError::NoOffsets)
    } else {
        Ok(offsets[offsets.len() - 1])
    }
}


} // verus!
