//! End-to-end tests of the engine: offsets, point-in-time reads, dependency
//! propagation, undo and redo, and the dangling prune.

use model_core::engine::{Engine, EngineError};
use model_core::msg::{
    add, delete, modify, ChangeMsg, ChangeType, DependenciesMsg, ObjectMsg, OptionPoint3Msg,
    OptionReferenceMsg, Point3Msg, ProfileMsg, RefIdMsg, ReferenceMsg, ResultsMsg,
};
use model_core::gateway::{collect_objects, last_offset, GatewayError};
use model_core::object_cache::{GetObjectsInput, ObjectAtOffset};
use model_core::update::{update_all, REF_TYPE_PROFILE_POINT};

fn pt(v: u64) -> Point3Msg {
    Point3Msg { x: v, y: v + 1, z: v + 2 }
}

fn ref_id(id: &str, index: u64) -> RefIdMsg {
    RefIdMsg { id: String::from(id), ref_type: REF_TYPE_PROFILE_POINT, index }
}

fn edge(owner: RefIdMsg, other: RefIdMsg) -> ReferenceMsg {
    ReferenceMsg { owner: Some(owner), other: Some(other) }
}

fn obj(id: &str, refs: Vec<Option<ReferenceMsg>>, points: Vec<Point3Msg>) -> ObjectMsg {
    ObjectMsg {
        id: String::from(id),
        dependencies: Some(DependenciesMsg {
            references: refs
                .into_iter()
                .map(|reference| OptionReferenceMsg { reference })
                .collect(),
        }),
        obj_data: vec![],
        results: Some(ResultsMsg {
            visible: true,
            profile: Some(ProfileMsg {
                points: points.into_iter().map(|p| OptionPoint3Msg { pt: Some(p) }).collect(),
                lines: vec![],
                planes: vec![],
            }),
            bbox: None,
            properties: None,
        }),
    }
}

fn read_points(engine: &Engine, file: &str, offset: i64, id: &str) -> Vec<Point3Msg> {
    let change = engine.objects.get_object(file, offset, id).unwrap();
    let object = match change.change_type {
        Some(ChangeType::Add(o)) => o,
        Some(ChangeType::Modify(o)) => o,
        other => panic!("object is not alive: {:?}", other),
    };
    object
        .results
        .unwrap()
        .profile
        .unwrap()
        .points
        .into_iter()
        .map(|p| p.pt.unwrap())
        .collect()
}

#[test]
fn offsets_are_consecutive_per_file() {
    let mut engine = Engine::new();
    let first = engine
        .submit_changes("f", "u", 0, vec![add("u", obj("a", vec![], vec![pt(1)]))])
        .unwrap();
    assert_eq!(first, vec![1]);
    let second = engine
        .submit_changes(
            "f",
            "u",
            1,
            vec![
                add("u", obj("b", vec![], vec![pt(2)])),
                add("u", obj("c", vec![], vec![pt(3)])),
            ],
        )
        .unwrap();
    assert_eq!(second, vec![2, 3]);
    // every offset of the second batch exceeds every offset of the first
    assert!(first.iter().max() < second.iter().min());
    // another file starts its own numbering
    let other = engine
        .submit_changes("g", "u", 0, vec![add("u", obj("a", vec![], vec![pt(1)]))])
        .unwrap();
    assert_eq!(other, vec![1]);
}

#[test]
fn empty_submit_is_refused() {
    let mut engine = Engine::new();
    assert!(matches!(
        engine.submit_changes("f", "u", 0, vec![]),
        Err(EngineError::EmptySubmit)
    ));
}

#[test]
fn point_in_time_reads_pick_greatest_not_exceeding() {
    let mut engine = Engine::new();
    engine
        .submit_changes("f", "u", 0, vec![add("u", obj("a", vec![], vec![pt(1)]))])
        .unwrap();
    engine
        .submit_changes("f", "u", 1, vec![modify("u", obj("a", vec![], vec![pt(5)]))])
        .unwrap();
    engine
        .submit_changes("f", "u", 2, vec![delete("u", String::from("a"))])
        .unwrap();
    assert_eq!(read_points(&engine, "f", 1, "a"), vec![pt(1)]);
    assert_eq!(read_points(&engine, "f", 2, "a"), vec![pt(5)]);
    // at the delete offset, the entry is the delete itself
    let latest = engine.objects.get_object("f", 3, "a").unwrap();
    assert!(matches!(latest.change_type, Some(ChangeType::Delete(_))));
    // before the first entry, nothing
    assert!(engine.objects.get_object("f", 0, "a").is_err());
    // batched reads answer slot by slot
    let batch = engine
        .objects
        .get_objects(&GetObjectsInput {
            file: String::from("f"),
            obj_ids: vec![
                ObjectAtOffset { offset: 1, obj_id: String::from("a") },
                ObjectAtOffset { offset: 0, obj_id: String::from("a") },
            ],
        })
        .unwrap();
    assert!(batch[0].change.is_some());
    assert!(batch[1].change.is_none());
}

#[test]
fn propagation_copies_referenced_points() {
    let mut engine = Engine::new();
    // b's first point feeds its second (a self reference seeds the walk)
    let b = obj(
        "b",
        vec![Some(edge(ref_id("b", 0), ref_id("b", 1)))],
        vec![pt(10), pt(20)],
    );
    engine.submit_changes("f", "u", 0, vec![add("u", b)]).unwrap();
    // c's first point subscribes to b's first point
    let c = obj(
        "c",
        vec![Some(edge(ref_id("c", 0), ref_id("b", 0)))],
        vec![pt(99)],
    );
    engine.submit_changes("f", "u", 1, vec![add("u", c)]).unwrap();
    // the traversal from b's first point finds c's subscription
    let deps = engine.deps.get_all_deps("f", 2, &vec![ref_id("b", 0)]);
    assert_eq!(deps.len(), 1);
    assert_eq!(deps[0], edge(ref_id("c", 0), ref_id("b", 0)));
    // modifying b propagates its new point into c in the same submit
    let b_moved = obj(
        "b",
        vec![Some(edge(ref_id("b", 0), ref_id("b", 1)))],
        vec![pt(70), pt(20)],
    );
    let offsets = engine
        .submit_changes("f", "u", 2, vec![modify("u", b_moved)])
        .unwrap();
    assert_eq!(offsets, vec![3, 4]);
    assert_eq!(read_points(&engine, "f", 4, "b")[0], pt(70));
    assert_eq!(read_points(&engine, "f", 4, "c")[0], pt(70));
    // the point-in-time read still shows the old value before the modify
    assert_eq!(read_points(&engine, "f", 2, "c")[0], pt(99));
}

#[test]
fn traversal_returns_chain_in_discovery_order() {
    let mut engine = Engine::new();
    let a = obj("a", vec![], vec![pt(1)]);
    let b = obj("b", vec![Some(edge(ref_id("b", 0), ref_id("a", 0)))], vec![pt(2)]);
    let c = obj("c", vec![Some(edge(ref_id("c", 0), ref_id("b", 0)))], vec![pt(3)]);
    let d = obj("d", vec![Some(edge(ref_id("d", 0), ref_id("c", 0)))], vec![pt(4)]);
    engine.submit_changes("f", "u", 0, vec![add("u", a)]).unwrap();
    engine.submit_changes("f", "u", 1, vec![add("u", b)]).unwrap();
    engine.submit_changes("f", "u", 2, vec![add("u", c)]).unwrap();
    engine.submit_changes("f", "u", 3, vec![add("u", d)]).unwrap();
    let deps = engine.deps.get_all_deps("f", 4, &vec![ref_id("a", 0)]);
    assert_eq!(deps.len(), 3);
    assert_eq!(deps[0], edge(ref_id("b", 0), ref_id("a", 0)));
    assert_eq!(deps[1], edge(ref_id("c", 0), ref_id("b", 0)));
    assert_eq!(deps[2], edge(ref_id("d", 0), ref_id("c", 0)));
}

#[test]
fn undo_and_redo_round_trip() {
    let mut engine = Engine::new();
    engine.begin_undo_event("f", "u").unwrap();
    let offsets = engine
        .submit_changes("f", "u", 0, vec![add("u", obj("a", vec![], vec![pt(1)]))])
        .unwrap();
    assert_eq!(offsets, vec![1]);

    // undo: the add rolls back to a delete
    let undone = engine.undo_latest("f", "u", 1).unwrap();
    assert_eq!(undone, vec![2]);
    let rolled_back = engine.objects.get_object("f", 2, "a").unwrap();
    assert!(matches!(rolled_back.change_type, Some(ChangeType::Delete(_))));

    // a second undo finds no open event with entries left
    assert!(matches!(
        engine.undo_latest("f", "u", 2),
        Err(EngineError::EmptySubmit) | Err(EngineError::NoUndoEvent)
    ));

    // redo: the delete rolls forward to the add again
    let redone = engine.redo_latest("f", "u", 2).unwrap();
    assert_eq!(redone, vec![3]);
    assert_eq!(read_points(&engine, "f", 3, "a"), vec![pt(1)]);

    // toggle once more: the state keeps alternating without losing entries
    let undone_again = engine.undo_latest("f", "u", 3).unwrap();
    assert_eq!(undone_again, vec![4]);
    assert!(matches!(
        engine.objects.get_object("f", 4, "a").unwrap().change_type,
        Some(ChangeType::Delete(_))
    ));
    let redone_again = engine.redo_latest("f", "u", 4).unwrap();
    assert_eq!(redone_again, vec![5]);
    assert_eq!(read_points(&engine, "f", 5, "a"), vec![pt(1)]);
}

#[test]
fn undo_on_empty_stack_changes_nothing() {
    let mut engine = Engine::new();
    assert!(matches!(
        engine.undo_latest("f", "u", 0),
        Err(EngineError::NoUndoEvent)
    ));
    // repeating it still fails and leaves no trace in the log
    assert!(matches!(
        engine.undo_latest("f", "u", 0),
        Err(EngineError::NoUndoEvent)
    ));
    assert!(engine
        .submit_changes("f", "u", 0, vec![add("u", obj("a", vec![], vec![pt(1)]))])
        .unwrap()
        .contains(&1));
}

#[test]
fn dangling_reference_is_pruned_to_tombstone() {
    // the owner keeps its slot count; a dangling slot becomes a tombstone
    let owner = obj(
        "x",
        vec![
            Some(edge(ref_id("x", 0), ref_id("gone", 0))),
            Some(edge(ref_id("x", 1), ref_id("also-gone", 0))),
        ],
        vec![pt(1), pt(2)],
    );
    let mut objs: Vec<(String, Option<ObjectMsg>)> = vec![
        (String::from("x"), Some(owner)),
        (String::from("gone"), None),
    ];
    let refs = vec![edge(ref_id("x", 0), ref_id("gone", 0))];
    update_all(&mut objs, &refs);
    let updated = objs[0].1.as_ref().unwrap();
    let slots = &updated.dependencies.as_ref().unwrap().references;
    assert_eq!(slots.len(), 2);
    assert!(slots[0].reference.is_none());
    assert!(slots[1].reference.is_some());
}

#[test]
fn delete_cascade_clears_the_survivor_reference() {
    // w feeds s, s feeds v; deleting s while touching w walks the chain and
    // prunes v's now dangling reference to a tombstone in the output
    let mut engine = Engine::new();
    let w = obj(
        "w",
        vec![Some(edge(ref_id("w", 0), ref_id("w", 1)))],
        vec![pt(1), pt(2)],
    );
    let s = obj("s", vec![Some(edge(ref_id("s", 0), ref_id("w", 0)))], vec![pt(5)]);
    let v = obj("v", vec![Some(edge(ref_id("v", 0), ref_id("s", 0)))], vec![pt(9)]);
    engine.submit_changes("f", "u", 0, vec![add("u", w)]).unwrap();
    engine.submit_changes("f", "u", 1, vec![add("u", s)]).unwrap();
    engine.submit_changes("f", "u", 2, vec![add("u", v)]).unwrap();
    let w_touched = obj(
        "w",
        vec![Some(edge(ref_id("w", 0), ref_id("w", 1)))],
        vec![pt(1), pt(2)],
    );
    let offsets = engine
        .submit_changes(
            "f",
            "u",
            3,
            vec![delete("u", String::from("s")), modify("u", w_touched)],
        )
        .unwrap();
    let last = *offsets.last().unwrap();
    // the sheet is gone at the new offsets
    assert!(matches!(
        engine.objects.get_object("f", last, "s").unwrap().change_type,
        Some(ChangeType::Delete(_))
    ));
    // and the viewport's slot position survives as a tombstone
    let v_now = match engine.objects.get_object("f", last, "v").unwrap().change_type {
        Some(ChangeType::Modify(o)) => o,
        Some(ChangeType::Add(o)) => o,
        other => panic!("viewport gone: {:?}", other),
    };
    let slots = &v_now.dependencies.as_ref().unwrap().references;
    assert_eq!(slots.len(), 1);
    assert!(slots[0].reference.is_none());
}

#[test]
fn gateway_collects_strictly_or_leniently() {
    let mut engine = Engine::new();
    engine
        .submit_changes("f", "u", 0, vec![add("u", obj("a", vec![], vec![pt(1)]))])
        .unwrap();
    let ids = vec![String::from("a"), String::from("missing")];
    let answers = engine
        .objects
        .get_objects(&GetObjectsInput {
            file: String::from("f"),
            obj_ids: ids
                .iter()
                .map(|id| ObjectAtOffset { offset: 1, obj_id: id.clone() })
                .collect(),
        })
        .unwrap();
    // lenient: the missing slot is skipped
    let lenient = collect_objects(answers, &ids, false).unwrap();
    assert_eq!(lenient.len(), 1);
    assert_eq!(lenient[0].id, String::from("a"));
    // strict: the missing slot fails the read, naming the object
    let answers = engine
        .objects
        .get_objects(&GetObjectsInput {
            file: String::from("f"),
            obj_ids: ids
                .iter()
                .map(|id| ObjectAtOffset { offset: 1, obj_id: id.clone() })
                .collect(),
        })
        .unwrap();
    match collect_objects(answers, &ids, true) {
        Err(GatewayError::ObjMissing(id)) => assert_eq!(id, String::from("missing")),
        other => panic!("expected a missing object, got {:?}", other),
    }
    assert_eq!(last_offset(&vec![4, 5, 6]).unwrap(), 6);
    assert!(matches!(last_offset(&vec![]), Err(GatewayError::NoOffsets)));
}
