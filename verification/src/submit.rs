//! Assembling a submit batch: collecting seed references, choosing which
//! objects to fetch, building the insertion-ordered object map, and
//! materializing the updated changes.
//!
//! A submit takes the user's changes, finds everything that transitively
//! subscribes to the touched data, fetches those objects, runs one
//! propagation pass, and rebuilds a change list that preserves each entry's
//! discriminant and source.

use vstd::prelude::*;

use crate::msg::{
    ChangeMsg, ChangeType, ChangeTypeView, ChangeView, DeleteMsg, ObjectMsg, ObjectView, RefIdMsg,
    RefIdView, ReferenceMsg, ReferenceView,
};
use crate::update::first_key_match;

verus! {

/// The owner ends of every reference slot of a batch's added and modified
/// objects: the roots of the dependency traversal.
pub open spec fn seed_refs_of(changes: Seq<ChangeView>) -> Seq<RefIdView>
    decreases changes.len(),
{
    if changes.len() == 0 {
        Seq::empty()
    } else {
        owners_of(changes.first()) + seed_refs_of(changes.drop_first())
    }
}

/// The owner ends of one change's reference slots.
pub open spec fn owners_of(c: ChangeView) -> Seq<RefIdView> {
    match c.change_type {
        Some(ChangeTypeView::Add(obj)) => obj_owners(obj),
        Some(ChangeTypeView::Modify(obj)) => obj_owners(obj),
        _ => Seq::empty(),
    }
}

/// The owner ends of one object's bound reference slots, in slot order.
pub open spec fn obj_owners(obj: ObjectView) -> Seq<RefIdView> {
    match obj.dependencies {
        Some(deps) => owners_of_slots(deps),
        None => Seq::empty(),
    }
}

/// The owner ends of a list of reference slots, in order.
pub open spec fn owners_of_slots(slots: Seq<Option<ReferenceView>>) -> Seq<RefIdView>
    decreases slots.len(),
{
    if slots.len() == 0 {
        Seq::empty()
    } else {
        let head: Seq<RefIdView> = match slots.first() {
            Some(r) => match r.owner {
                Some(owner) => seq![owner],
                None => Seq::empty(),
            },
            None => Seq::empty(),
        };
        head + owners_of_slots(slots.drop_first())
    }
}

/// The id a change targets together with the change, keyed for the batch
/// map; a change without a type contributes nothing.
pub open spec fn batch_map_of(changes: Seq<ChangeView>) -> Seq<(Seq<char>, ChangeView)>
    decreases changes.len(),
{
    if changes.len() == 0 {
        Seq::empty()
    } else {
        let m = batch_map_of(changes.drop_last());
        match changes.last().change_type {
            Some(ChangeTypeView::Add(obj)) => kv_insert(m, obj.id, changes.last()),
            Some(ChangeTypeView::Modify(obj)) => kv_insert(m, obj.id, changes.last()),
            Some(ChangeTypeView::Delete(id)) => kv_insert(m, id, changes.last()),
            None => m,
        }
    }
}

/// Insertion-ordered map update: an existing key keeps its position and
/// takes the new value, a new key goes to the end.
pub open spec fn kv_insert(
    m: Seq<(Seq<char>, ChangeView)>,
    k: Seq<char>,
    v: ChangeView,
) -> Seq<(Seq<char>, ChangeView)> {
    if exists|j: int| kv_first_match(m, k, j) {
        m.update(choose|j: int| kv_first_match(m, k, j), (k, v))
    } else {
        m.push((k, v))
    }
}

/// The first entry keyed `k` stands at `j`.
pub open spec fn kv_first_match(m: Seq<(Seq<char>, ChangeView)>, k: Seq<char>, j: int) -> bool {
    &&& 0 <= j < m.len()
    &&& m[j].0 == k
    &&& forall|w: int| 0 <= w < j ==> m[w].0 != k
}

/// Whether the batch map holds `k`.
pub open spec fn kv_has(m: Seq<(Seq<char>, ChangeView)>, k: Seq<char>) -> bool {
    exists|j: int| kv_first_match(m, k, j)
}

/// Collects the seed ref ids and the insertion-ordered map from object id to
/// its change, from one batch.
pub fn extract_info(changes: &Vec<ChangeMsg>) -> (r: (Vec<RefIdMsg>, Vec<(String, ChangeMsg)>))
    ensures
        r.0.deep_view() == seed_refs_of(changes.deep_view()),
        r.1.deep_view() == batch_map_of(changes.deep_view()),
{
    let ghost cvs = changes.deep_view();
    let mut ref_ids: Vec<RefIdMsg> = Vec::new();
    let mut objects: Vec<(String, ChangeMsg)> = Vec::new();
    let mut i: usize = 0;
    proof {
        assert(cvs.take(0) =~= Seq::<ChangeView>::empty());
        assert(ref_ids.deep_view() =~= Seq::<RefIdView>::empty());
        assert(objects.deep_view() =~= Seq::<(Seq<char>, ChangeView)>::empty());
        assert(cvs.skip(0) =~= cvs);
        lemma_seed_refs_split(cvs, 0);
    }
    while i < changes.len()
        invariant
            i <= changes.len(),
            cvs == changes.deep_view(),
            seed_refs_of(cvs) == ref_ids.deep_view() + seed_refs_of(cvs.skip(i as int)),
            objects.deep_view() == batch_map_of(cvs.take(i as int)),
        decreases changes.len() - i,
    {
        let change = &changes[i];
        let ghost refs_before = ref_ids.deep_view();
        let ghost objs_before = objects.deep_view();
        proof {
            assert(cvs.skip(i as int).first() == cvs[i as int]);
            assert(cvs.skip(i as int).drop_first() =~= cvs.skip(i + 1));
            assert(cvs.take(i + 1).drop_last() =~= cvs.take(i as int));
            assert(cvs.take(i + 1).last() == cvs[i as int]);
        }
        match &change.change_type {
            Some(ChangeType::Add(object)) | Some(ChangeType::Modify(object)) => {
                if let Some(deps) = &object.dependencies {
                    let ghost slots = deps.references.deep_view();
                    let mut k: usize = 0;
                    proof {
                        assert(slots.skip(0) =~= slots);
                        assert(refs_before + owners_of_slots(slots.skip(0)) =~= refs_before
                            + owners_of_slots(slots));
                    }
                    while k < deps.references.len()
                        invariant
                            k <= deps.references.len(),
                            slots == deps.references.deep_view(),
                            refs_before + owners_of_slots(slots) == ref_ids.deep_view()
                                + owners_of_slots(slots.skip(k as int)),
                        decreases deps.references.len() - k,
                    {
                        proof {
                            assert(slots.skip(k as int).first() == slots[k as int]);
                            assert(slots.skip(k as int).drop_first() =~= slots.skip(k + 1));
                        }
                        let ghost mid = ref_ids.deep_view();
                        if let Some(refer) = &deps.references[k].reference {
                            if let Some(owner) = &refer.owner {
                                ref_ids.push(owner.clone());
                                proof {
                                    assert(ref_ids.deep_view() =~= mid.push(owner@));
                                    assert(mid.push(owner@) =~= mid + seq![owner@]);
                                    vstd::seq_lib::lemma_concat_associative(
                                        mid,
                                        seq![owner@],
                                        owners_of_slots(slots.skip(k + 1)),
                                    );
                                }
                            }
                        }
                        k += 1;
                    }
                    proof {
                        assert(slots.skip(deps.references@.len() as int).len() == 0);
                        assert(owners_of_slots(slots.skip(deps.references@.len() as int))
                            =~= Seq::<RefIdView>::empty());
                        assert(ref_ids.deep_view() + Seq::<RefIdView>::empty()
                            =~= ref_ids.deep_view());
                        assert(owners_of(cvs[i as int]) == owners_of_slots(slots));
                    }
                } else {
                    proof {
                        assert(owners_of(cvs[i as int]) =~= Seq::<RefIdView>::empty());
                        assert(ref_ids.deep_view() + Seq::<RefIdView>::empty()
                            =~= ref_ids.deep_view());
                    }
                }
                kv_put(&mut objects, &object.id, change.clone());
            },
            Some(ChangeType::Delete(del)) => {
                proof {
                    assert(owners_of(cvs[i as int]) =~= Seq::<RefIdView>::empty());
                    assert(ref_ids.deep_view() + Seq::<RefIdView>::empty() =~= ref_ids.deep_view());
                }
                kv_put(&mut objects, &del.id, change.clone());
            },
            None => {
                proof {
                    assert(owners_of(cvs[i as int]) =~= Seq::<RefIdView>::empty());
                    assert(ref_ids.deep_view() + Seq::<RefIdView>::empty() =~= ref_ids.deep_view());
                }
            },
        }
        i += 1;
    }
    proof {
        assert(cvs.take(changes@.len() as int) =~= cvs);
        assert(cvs.skip(changes@.len() as int).len() == 0);
        assert(seed_refs_of(cvs.skip(changes@.len() as int)) =~= Seq::<RefIdView>::empty());
        assert(ref_ids.deep_view() + Seq::<RefIdView>::empty() =~= ref_ids.deep_view());
    }
    (ref_ids, objects)
}

/// The seeds of a batch split at `i`: the part before plus the part after.
proof fn lemma_seed_refs_split(changes: Seq<ChangeView>, i: int)
    requires
        0 <= i <= changes.len(),
    ensures
        seed_refs_of(changes) == seed_refs_of(changes.take(i)) + seed_refs_of(changes.skip(i)),
    decreases i,
{
    if i == 0 {
        assert(changes.take(0) =~= Seq::<ChangeView>::empty());
        assert(seed_refs_of(changes.take(0)) =~= Seq::<RefIdView>::empty());
        assert(changes.skip(0) =~= changes);
        assert(Seq::<RefIdView>::empty() + seed_refs_of(changes) =~= seed_refs_of(changes));
    } else {
        lemma_seed_refs_split(changes.drop_first(), i - 1);
        assert(changes.take(i).first() == changes.first());
        assert(changes.take(i).drop_first() =~= changes.drop_first().take(i - 1));
        assert(changes.skip(i) =~= changes.drop_first().skip(i - 1));
        vstd::seq_lib::lemma_concat_associative(
            owners_of(changes.first()),
            seed_refs_of(changes.drop_first().take(i - 1)),
            seed_refs_of(changes.drop_first().skip(i - 1)),
        );
    }
}

/// Puts a change into the insertion-ordered batch map: an existing id keeps
/// its position, a new id goes to the end.
fn kv_put(objects: &mut Vec<(String, ChangeMsg)>, id: &String, change: ChangeMsg)
    ensures
        final(objects).deep_view() == kv_insert(old(objects).deep_view(), id@, change@),
{
    let ghost pre = objects.deep_view();
    let mut j: usize = 0;
    while j < objects.len()
        invariant
            j <= objects.len(),
            pre == objects.deep_view(),
            pre == old(objects).deep_view(),
            forall|w: int| 0 <= w < j ==> pre[w].0 != id@,
        decreases objects.len() - j,
    {
        if objects[j].0 == *id {
            proof {
                assert(kv_first_match(pre, id@, j as int));
                let w = choose|w: int| kv_first_match(pre, id@, w);
                assert(w == j) by {
                    if w < j {
                        assert(pre[w].0 != id@);
                    } else if w > j {
                        assert(pre[j as int].0 != id@);
                    }
                }
            }
            objects.remove(j);
            objects.insert(j, (id.clone(), change));
            proof {
                assert(objects.deep_view() =~= pre.update(j as int, (id@, change@)));
            }
            return ;
        }
        j += 1;
    }
    objects.push((id.clone(), change));
    proof {
        assert(objects.deep_view() =~= pre.push((id@, change@)));
        assert(!kv_has(pre, id@)) by {
            if kv_has(pre, id@) {
                let w = choose|w: int| kv_first_match(pre, id@, w);
                assert(pre[w].0 == id@);
                assert(pre[w].0 != id@);
            }
        }
    }
}

/// The distinct object ids that the traversal's edges mention and the batch
/// does not already carry, in first-mention order.
pub open spec fn ids_to_fetch(
    refs: Seq<ReferenceView>,
    m: Seq<(Seq<char>, ChangeView)>,
) -> Seq<Seq<char>>
    decreases refs.len(),
{
    if refs.len() == 0 {
        Seq::empty()
    } else {
        let rest = ids_to_fetch(refs.drop_last(), m);
        let with_owner = match refs.last().owner {
            Some(owner) => {
                if !kv_has(m, owner.id) && !rest.contains(owner.id) {
                    rest.push(owner.id)
                } else {
                    rest
                }
            },
            None => rest,
        };
        match refs.last().other {
            Some(other) => {
                if !kv_has(m, other.id) && !with_owner.contains(other.id) {
                    with_owner.push(other.id)
                } else {
                    with_owner
                }
            },
            None => with_owner,
        }
    }
}

/// Collects the object ids the pipeline must fetch: every endpoint of the
/// traversal's edges that the batch does not already carry, each once.
pub fn get_obj_ids_to_fetch(
    refers: &Vec<ReferenceMsg>,
    objects: &Vec<(String, ChangeMsg)>,
) -> (r: Vec<String>)
    ensures
        r.deep_view() == ids_to_fetch(refers.deep_view(), objects.deep_view()),
{
    let ghost rd = refers.deep_view();
    let ghost m = objects.deep_view();
    let mut results: Vec<String> = Vec::new();
    let mut i: usize = 0;
    proof {
        assert(rd.take(0) =~= Seq::<ReferenceView>::empty());
        assert(results.deep_view() =~= Seq::<Seq<char>>::empty());
    }
    while i < refers.len()
        invariant
            i <= refers.len(),
            rd == refers.deep_view(),
            m == objects.deep_view(),
            results.deep_view() == ids_to_fetch(rd.take(i as int), m),
        decreases refers.len() - i,
    {
        proof {
            assert(rd.take(i + 1).drop_last() =~= rd.take(i as int));
            assert(rd.take(i + 1).last() == rd[i as int]);
        }
        let refer = &refers[i];
        if let Some(owner) = &refer.owner {
            let in_batch = kv_contains(objects, &owner.id);
            let already = list_contains(&results, &owner.id);
            if !in_batch && !already {
                let ghost before = results.deep_view();
                results.push(owner.id.clone());
                proof {
                    assert(results.deep_view() =~= before.push(owner@.id));
                }
            }
        }
        if let Some(other) = &refer.other {
            let in_batch = kv_contains(objects, &other.id);
            let already = list_contains(&results, &other.id);
            if !in_batch && !already {
                let ghost before = results.deep_view();
                results.push(other.id.clone());
                proof {
                    assert(results.deep_view() =~= before.push(other@.id));
                }
            }
        }
        i += 1;
    }
    proof {
        assert(rd.take(refers@.len() as int) =~= rd);
    }
    results
}

/// Whether the batch map holds `id`.
fn kv_contains(objects: &Vec<(String, ChangeMsg)>, id: &String) -> (r: bool)
    ensures
        r == kv_has(objects.deep_view(), id@),
{
    let ghost m = objects.deep_view();
    let mut j: usize = 0;
    while j < objects.len()
        invariant
            j <= objects.len(),
            m == objects.deep_view(),
            forall|w: int| 0 <= w < j ==> m[w].0 != id@,
        decreases objects.len() - j,
    {
        if objects[j].0 == *id {
            proof {
                assert(kv_first_match(m, id@, j as int));
            }
            return true;
        }
        j += 1;
    }
    proof {
        if kv_has(m, id@) {
            let w = choose|w: int| kv_first_match(m, id@, w);
        }
    }
    false
}

/// Whether the id list holds `id`.
fn list_contains(list: &Vec<String>, id: &String) -> (r: bool)
    ensures
        r == list.deep_view().contains(id@),
{
    let mut j: usize = 0;
    while j < list.len()
        invariant
            j <= list.len(),
            forall|w: int| 0 <= w < j ==> list.deep_view()[w] != id@,
        decreases list.len() - j,
    {
        if list[j] == *id {
            proof {
                assert(list.deep_view()[j as int] == id@);
            }
            return true;
        }
        j += 1;
    }
    false
}

/// The object map a change list induces: each add or modify contributes its
/// object, each delete a hole; later entries shadow earlier ones in place.
pub open spec fn obj_map_of(changes: Seq<ChangeView>) -> Seq<(Seq<char>, Option<ObjectView>)>
    decreases changes.len(),
{
    if changes.len() == 0 {
        Seq::empty()
    } else {
        let m = obj_map_of(changes.drop_last());
        match changes.last().change_type {
            Some(ChangeTypeView::Add(obj)) => obj_map_insert(m, obj.id, Some(obj)),
            Some(ChangeTypeView::Modify(obj)) => obj_map_insert(m, obj.id, Some(obj)),
            Some(ChangeTypeView::Delete(id)) => obj_map_insert(m, id, None),
            None => m,
        }
    }
}

/// Insertion-ordered update of the object map.
pub open spec fn obj_map_insert(
    m: Seq<(Seq<char>, Option<ObjectView>)>,
    k: Seq<char>,
    v: Option<ObjectView>,
) -> Seq<(Seq<char>, Option<ObjectView>)> {
    if exists|j: int| first_key_match(m, k, j) {
        m.update(choose|j: int| first_key_match(m, k, j), (k, v))
    } else {
        m.push((k, v))
    }
}

/// Builds the insertion-ordered object map from a change list.
pub fn get_map_from_change_msgs(msgs: &Vec<ChangeMsg>) -> (r: Vec<(String, Option<ObjectMsg>)>)
    ensures
        r.deep_view() == obj_map_of(msgs.deep_view()),
{
    let ghost cvs = msgs.deep_view();
    let mut results: Vec<(String, Option<ObjectMsg>)> = Vec::new();
    let mut i: usize = 0;
    proof {
        assert(cvs.take(0) =~= Seq::<ChangeView>::empty());
        assert(results.deep_view() =~= Seq::<(Seq<char>, Option<ObjectView>)>::empty());
    }
    while i < msgs.len()
        invariant
            i <= msgs.len(),
            cvs == msgs.deep_view(),
            results.deep_view() == obj_map_of(cvs.take(i as int)),
        decreases msgs.len() - i,
    {
        proof {
            assert(cvs.take(i + 1).drop_last() =~= cvs.take(i as int));
            assert(cvs.take(i + 1).last() == cvs[i as int]);
        }
        match &msgs[i].change_type {
            Some(ChangeType::Add(object)) => {
                obj_map_put(&mut results, &object.id, Some(object.clone()));
            },
            Some(ChangeType::Modify(object)) => {
                obj_map_put(&mut results, &object.id, Some(object.clone()));
            },
            Some(ChangeType::Delete(del)) => {
                obj_map_put(&mut results, &del.id, None);
            },
            None => {},
        }
        i += 1;
    }
    proof {
        assert(cvs.take(msgs@.len() as int) =~= cvs);
    }
    results
}

/// Puts one optional object into the map, in place or at the end.
fn obj_map_put(objects: &mut Vec<(String, Option<ObjectMsg>)>, id: &String, obj: Option<ObjectMsg>)
    ensures
        final(objects).deep_view() == obj_map_insert(
            old(objects).deep_view(),
            id@,
            obj.deep_view(),
        ),
{
    let ghost pre = objects.deep_view();
    let mut j: usize = 0;
    while j < objects.len()
        invariant
            j <= objects.len(),
            pre == objects.deep_view(),
            pre == old(objects).deep_view(),
            forall|w: int| 0 <= w < j ==> pre[w].0 != id@,
        decreases objects.len() - j,
    {
        if objects[j].0 == *id {
            proof {
                assert(first_key_match(pre, id@, j as int));
                let w = choose|w: int| first_key_match(pre, id@, w);
                assert(w == j) by {
                    if w < j {
                        assert(pre[w].0 != id@);
                    } else if w > j {
                        assert(pre[j as int].0 != id@);
                    }
                }
            }
            objects.remove(j);
            objects.insert(j, (id.clone(), obj));
            proof {
                assert(objects.deep_view() =~= pre.update(j as int, (id@, obj.deep_view())));
            }
            return ;
        }
        j += 1;
    }
    objects.push((id.clone(), obj));
    proof {
        assert(objects.deep_view() =~= pre.push((id@, obj.deep_view())));
        assert(!(exists|w: int| first_key_match(pre, id@, w))) by {
            if exists|w: int| first_key_match(pre, id@, w) {
                let w = choose|w: int| first_key_match(pre, id@, w);
                assert(pre[w].0 == id@);
                assert(pre[w].0 != id@);
            }
        }
    }
}

/// The change list rebuilt after propagation: each original entry keeps its
/// user, discriminant and source, and takes the updated object paired at its
/// position; an add or modify whose object is gone is dropped.
pub open spec fn rebuilt(
    olds: Seq<ChangeView>,
    m: Seq<(Seq<char>, Option<ObjectView>)>,
) -> Seq<ChangeView>
    decreases olds.len(),
{
    if olds.len() == 0 || m.len() == 0 {
        Seq::empty()
    } else {
        let rest = rebuilt(olds.drop_first(), m.drop_first());
        let head: Seq<ChangeView> = match olds.first().change_type {
            Some(ChangeTypeView::Add(_)) => match m.first().1 {
                Some(obj) => seq![
                    ChangeView {
                        user: olds.first().user,
                        change_type: Some(ChangeTypeView::Add(obj)),
                        change_source: olds.first().change_source,
                    },
                ],
                None => Seq::empty(),
            },
            Some(ChangeTypeView::Modify(_)) => match m.first().1 {
                Some(obj) => seq![
                    ChangeView {
                        user: olds.first().user,
                        change_type: Some(ChangeTypeView::Modify(obj)),
                        change_source: olds.first().change_source,
                    },
                ],
                None => Seq::empty(),
            },
            Some(ChangeTypeView::Delete(_)) => seq![
                ChangeView {
                    user: olds.first().user,
                    change_type: Some(ChangeTypeView::Delete(m.first().0)),
                    change_source: olds.first().change_source,
                },
            ],
            None => seq![
                ChangeView {
                    user: olds.first().user,
                    change_type: None,
                    change_source: olds.first().change_source,
                },
            ],
        };
        head + rest
    }
}

/// Rebuilds the change list after propagation, pairing the original entries
/// with the updated map position by position.
pub fn to_change_msgs(
    old_changes: &Vec<ChangeMsg>,
    objects: &Vec<(String, Option<ObjectMsg>)>,
) -> (r: Vec<ChangeMsg>)
    ensures
        r.deep_view() == rebuilt(old_changes.deep_view(), objects.deep_view()),
{
    let ghost olds = old_changes.deep_view();
    let ghost m = objects.deep_view();
    let length = if old_changes.len() <= objects.len() {
        old_changes.len()
    } else {
        objects.len()
    };
    let mut results: Vec<ChangeMsg> = Vec::new();
    let mut i: usize = 0;
    proof {
        assert(olds.skip(0) =~= olds);
        assert(m.skip(0) =~= m);
        assert(results.deep_view() =~= Seq::<ChangeView>::empty());
        assert(Seq::<ChangeView>::empty() + rebuilt(olds, m) =~= rebuilt(olds, m));
    }
    while i < length
        invariant
            i <= length,
            length == if olds.len() <= m.len() {
                olds.len()
            } else {
                m.len()
            },
            olds == old_changes.deep_view(),
            m == objects.deep_view(),
            rebuilt(olds, m) == results.deep_view() + rebuilt(olds.skip(i as int), m.skip(i as int)),
        decreases length - i,
    {
        proof {
            assert(olds.skip(i as int).first() == olds[i as int]);
            assert(m.skip(i as int).first() == m[i as int]);
            assert(olds.skip(i as int).drop_first() =~= olds.skip(i + 1));
            assert(m.skip(i as int).drop_first() =~= m.skip(i + 1));
        }
        let old_change = &old_changes[i];
        let pair = &objects[i];
        let ghost before = results.deep_view();
        let ghost rest = rebuilt(olds.skip(i + 1), m.skip(i + 1));
        match &old_change.change_type {
            Some(ChangeType::Add(_)) => {
                if let Some(obj) = &pair.1 {
                    results.push(
                        ChangeMsg {
                            user: old_change.user.clone(),
                            change_type: Some(ChangeType::Add(obj.clone())),
                            change_source: clone_source(&old_change.change_source),
                        },
                    );
                    proof {
                        let c = ChangeView {
                            user: olds[i as int].user,
                            change_type: Some(ChangeTypeView::Add(m[i as int].1.unwrap())),
                            change_source: olds[i as int].change_source,
                        };
                        assert(results.deep_view() =~= before.push(c));
                        assert(before.push(c) =~= before + seq![c]);
                        vstd::seq_lib::lemma_concat_associative(before, seq![c], rest);
                    }
                }
            },
            Some(ChangeType::Modify(_)) => {
                if let Some(obj) = &pair.1 {
                    results.push(
                        ChangeMsg {
                            user: old_change.user.clone(),
                            change_type: Some(ChangeType::Modify(obj.clone())),
                            change_source: clone_source(&old_change.change_source),
                        },
                    );
                    proof {
                        let c = ChangeView {
                            user: olds[i as int].user,
                            change_type: Some(ChangeTypeView::Modify(m[i as int].1.unwrap())),
                            change_source: olds[i as int].change_source,
                        };
                        assert(results.deep_view() =~= before.push(c));
                        assert(before.push(c) =~= before + seq![c]);
                        vstd::seq_lib::lemma_concat_associative(before, seq![c], rest);
                    }
                }
            },
            Some(ChangeType::Delete(_)) => {
                results.push(
                    ChangeMsg {
                        user: old_change.user.clone(),
                        change_type: Some(ChangeType::Delete(DeleteMsg { id: pair.0.clone() })),
                        change_source: clone_source(&old_change.change_source),
                    },
                );
                proof {
                    let c = ChangeView {
                        user: olds[i as int].user,
                        change_type: Some(ChangeTypeView::Delete(m[i as int].0)),
                        change_source: olds[i as int].change_source,
                    };
                    assert(results.deep_view() =~= before.push(c));
                    assert(before.push(c) =~= before + seq![c]);
                    vstd::seq_lib::lemma_concat_associative(before, seq![c], rest);
                }
            },
            None => {
                results.push(
                    ChangeMsg {
                        user: old_change.user.clone(),
                        change_type: None,
                        change_source: clone_source(&old_change.change_source),
                    },
                );
                proof {
                    let c = ChangeView {
                        user: olds[i as int].user,
                        change_type: None,
                        change_source: olds[i as int].change_source,
                    };
                    assert(results.deep_view() =~= before.push(c));
                    assert(before.push(c) =~= before + seq![c]);
                    vstd::seq_lib::lemma_concat_associative(before, seq![c], rest);
                }
            },
        }
        i += 1;
    }
    proof {
        assert(olds.skip(i as int).len() == 0 || m.skip(i as int).len() == 0);
        assert(rebuilt(olds.skip(i as int), m.skip(i as int)) =~= Seq::<ChangeView>::empty());
        assert(results.deep_view() + Seq::<ChangeView>::empty() =~= results.deep_view());
    }
    results
}

/// Duplicates an optional change source.
fn clone_source(source: &Option<crate::msg::ChangeSource>) -> (r: Option<crate::msg::ChangeSource>)
    ensures
        r.deep_view() == source.deep_view(),
{
    match source {
        Some(s) => Some(s.clone()),
        None => None,
    }
}

} // verus!
