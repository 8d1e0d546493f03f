//! Tests of the stores: object cache, dependency cache, undo store,
//! representation cache and fan-out registry.

use model_core::dep_cache::{get_ref_diffs, DepCache, DepChange};
use model_core::fanout::{Registry, UpdateMessage};
use model_core::msg::{
    ChangeMsg, ChangeSource, ChangeType, DeleteMsg, DependenciesMsg, EmptyMsg, ObjectMsg,
    OptionReferenceMsg, RefIdMsg, ReferenceMsg,
};
use model_core::objdef::{viewport_refs, viewport_update, wall_refs, ViewportModel, WallModel};
use model_core::object_cache::ObjectCache;
use model_core::rep_cache::{RepCache, UpdateChangeMsg, UpdateOutputMsg};
use model_core::undo_cache::{UndoChangeType, UndoCache, UndoError};
use uuid::Uuid;

fn user_action(user: &str, change_type: ChangeType) -> ChangeMsg {
    ChangeMsg {
        user: String::from(user),
        change_type: Some(change_type),
        change_source: Some(ChangeSource::UserAction(EmptyMsg {})),
    }
}

fn obj_with_refs(id: &str, data: &str, refs: Vec<Option<ReferenceMsg>>) -> ObjectMsg {
    ObjectMsg {
        id: String::from(id),
        dependencies: Some(DependenciesMsg {
            references: refs
                .into_iter()
                .map(|reference| OptionReferenceMsg { reference })
                .collect(),
        }),
        obj_data: String::from(data).into_bytes(),
        results: None,
    }
}

fn plain_obj(id: &str, data: &str) -> ObjectMsg {
    ObjectMsg {
        id: String::from(id),
        dependencies: None,
        obj_data: String::from(data).into_bytes(),
        results: None,
    }
}

fn ref_id(id: &str, ref_type: i32, index: u64) -> RefIdMsg {
    RefIdMsg { id: String::from(id), ref_type, index }
}

fn edge(owner: &RefIdMsg, other: &RefIdMsg) -> ReferenceMsg {
    ReferenceMsg { owner: Some(owner.clone()), other: Some(other.clone()) }
}

#[test]
fn test_cache_objects() {
    let mut cache = ObjectCache::new();
    let id = Uuid::new_v4().to_string();
    let file = Uuid::new_v4().to_string();
    let user = Uuid::new_v4().to_string();
    let change_1 = user_action(&user, ChangeType::Add(plain_obj(&id, "")));
    let offset_1 = 4;

    // Nothing in cache yet, this should error out
    assert!(cache.get_object(&file, offset_1, &id).is_err());

    cache.update_object_cache(&file, offset_1, change_1.clone()).unwrap();
    assert_eq!(cache.get_object(&file, offset_1, &id).unwrap(), change_1);

    let change_2 = user_action(&user, ChangeType::Modify(plain_obj(&id, "modified")));
    let offset_2 = 5;
    cache.update_object_cache(&file, offset_2, change_2.clone()).unwrap();
    assert_eq!(cache.get_object(&file, offset_2, &id).unwrap(), change_2);

    let change_3 = user_action(&user, ChangeType::Delete(DeleteMsg { id: id.clone() }));
    let offset_3 = 6;
    cache.update_object_cache(&file, offset_3, change_3.clone()).unwrap();
    assert_eq!(cache.get_object(&file, offset_3, &id).unwrap(), change_3);

    assert_eq!(cache.get_object(&file, offset_1, &id).unwrap(), change_1);
    assert!(cache.get_object(&file, offset_1 - 1, &id).is_err());

    // the untyped change is refused
    let untyped = ChangeMsg { user, change_type: None, change_source: None };
    assert!(cache.update_object_cache(&file, 7, untyped).is_err());
}

#[test]
fn test_get_latest_list() {
    let mut cache = ObjectCache::new();
    let id_1 = Uuid::new_v4().to_string();
    let id_2 = Uuid::new_v4().to_string();
    let id_3 = Uuid::new_v4().to_string();
    let file = Uuid::new_v4().to_string();
    let user = Uuid::new_v4().to_string();
    cache
        .update_object_cache(&file, 1, user_action(&user, ChangeType::Add(plain_obj(&id_1, ""))))
        .unwrap();
    cache
        .update_object_cache(
            &file,
            2,
            user_action(&user, ChangeType::Add(plain_obj(&id_2, "modified"))),
        )
        .unwrap();
    cache
        .update_object_cache(
            &file,
            3,
            user_action(&user, ChangeType::Add(plain_obj(&id_3, "modified"))),
        )
        .unwrap();

    let mut answer_set = std::collections::HashSet::new();
    answer_set.insert(id_1.clone());
    answer_set.insert(id_2.clone());
    answer_set.insert(id_3.clone());
    for msg_id in cache.get_latest_obj_list(&file) {
        assert!(answer_set.remove(&msg_id));
    }
    assert_eq!(answer_set.len(), 0);

    // a delete leaves the alive list
    cache
        .update_object_cache(
            &file,
            4,
            user_action(&user, ChangeType::Delete(DeleteMsg { id: id_2.clone() })),
        )
        .unwrap();
    let remaining = cache.get_latest_obj_list(&file);
    assert_eq!(remaining.len(), 2);
    assert!(!remaining.contains(&id_2));
}

#[test]
fn test_deps_simple() {
    let file = Uuid::new_v4().to_string();
    let mut cache = DepCache::new();

    let obj_0_id = Uuid::new_v4().to_string();
    let obj_0_pt_0 = ref_id(&obj_0_id, 3, 0);
    let obj_0_pt_1 = ref_id(&obj_0_id, 3, 1);
    let obj_1_id = Uuid::new_v4().to_string();
    let obj_1_pt_0 = ref_id(&obj_1_id, 3, 0);
    let obj_1_pt_1 = ref_id(&obj_1_id, 3, 1);
    let obj_0 = user_action(
        "u",
        ChangeType::Add(obj_with_refs(&obj_0_id, "", vec![Some(edge(&obj_0_pt_0, &obj_1_pt_1))])),
    );
    let obj_1 = user_action(
        "u",
        ChangeType::Add(obj_with_refs(
            &obj_1_id,
            "",
            vec![
                Some(edge(&obj_1_pt_1, &obj_0_pt_0)),
                Some(edge(&obj_1_pt_0, &obj_0_pt_1)),
                Some(edge(&obj_1_pt_0, &obj_1_pt_1)),
            ],
        )),
    );

    cache.update_deps(&file, 0, &obj_0);
    cache.update_deps(&file, 1, &obj_1);

    let results = cache.get_all_deps(&file, 1, &vec![obj_0_pt_1.clone()]);
    assert_eq!(results.len(), 1);
    assert_eq!(results[0], edge(&obj_1_pt_0, &obj_0_pt_1));

    let results = cache.get_all_deps(&file, 1, &vec![obj_0_pt_0.clone()]);
    assert_eq!(results.len(), 2);
    assert_eq!(results[0], edge(&obj_1_pt_1, &obj_0_pt_0));
    assert_eq!(results[1], edge(&obj_1_pt_0, &obj_1_pt_1));
}

#[test]
fn test_deps_versioned() {
    let file = Uuid::new_v4().to_string();
    let mut cache = DepCache::new();

    let obj_0_id = Uuid::new_v4().to_string();
    let obj_0_pt_0 = ref_id(&obj_0_id, 3, 0);
    let obj_0_pt_1 = ref_id(&obj_0_id, 3, 1);
    let obj_1_id = Uuid::new_v4().to_string();
    let obj_1_pt_0 = ref_id(&obj_1_id, 3, 0);
    let obj_1_pt_1 = ref_id(&obj_1_id, 3, 1);

    let obj_0 = user_action(
        "u",
        ChangeType::Add(obj_with_refs(&obj_0_id, "", vec![Some(edge(&obj_0_pt_1, &obj_1_pt_0))])),
    );
    let obj_1 = user_action(
        "u",
        ChangeType::Add(obj_with_refs(&obj_1_id, "", vec![Some(edge(&obj_1_pt_1, &obj_0_pt_0))])),
    );
    cache.update_deps(&file, 0, &obj_0);
    cache.update_deps(&file, 1, &obj_1);
    let obj_1_modified = user_action(
        "u",
        ChangeType::Modify(obj_with_refs(
            &obj_1_id,
            "",
            vec![Some(edge(&obj_1_pt_0, &obj_0_pt_1)), Some(edge(&obj_1_pt_0, &obj_1_pt_1))],
        )),
    );
    cache.update_deps(&file, 2, &obj_1_modified);

    // the new subscriptions at offset 2 chain the traversal three edges deep
    let results = cache.get_all_deps(&file, 2, &vec![obj_0_pt_0.clone()]);
    assert_eq!(results.len(), 3);
    assert_eq!(results[0], edge(&obj_1_pt_1, &obj_0_pt_0));
    assert_eq!(results[1], edge(&obj_1_pt_0, &obj_1_pt_1));
    assert_eq!(results[2], edge(&obj_0_pt_1, &obj_1_pt_0));

    // at the old offset the old graph still answers
    let results = cache.get_all_deps(&file, 1, &vec![obj_0_pt_0.clone()]);
    assert_eq!(results.len(), 1);
    assert_eq!(results[0], edge(&obj_1_pt_1, &obj_0_pt_0));

    // a delete withdraws the subscriptions the object held when deleted
    let obj_1_deleted = user_action("u", ChangeType::Delete(DeleteMsg { id: obj_1_id.clone() }));
    cache.update_deps(&file, 3, &obj_1_deleted);
    let results = cache.get_all_deps(&file, 3, &vec![obj_0_pt_1.clone()]);
    assert_eq!(results.len(), 0);
}

#[test]
fn ref_diffs_follow_positions() {
    let a = ref_id("a", 3, 0);
    let b = ref_id("b", 3, 0);
    let c = ref_id("c", 3, 0);
    let new_refs = vec![
        OptionReferenceMsg { reference: Some(edge(&a, &b)) },
        OptionReferenceMsg { reference: None },
        OptionReferenceMsg { reference: Some(edge(&a, &c)) },
    ];
    let old_refs = vec![
        OptionReferenceMsg { reference: Some(edge(&a, &b)) },
        OptionReferenceMsg { reference: Some(edge(&a, &c)) },
    ];
    let diffs = get_ref_diffs(&new_refs, &old_refs);
    assert_eq!(diffs.len(), 3);
    assert_eq!(diffs[0], Some((edge(&a, &b), DepChange::Modify)));
    assert_eq!(diffs[1], Some((edge(&a, &c), DepChange::Delete)));
    assert_eq!(diffs[2], Some((edge(&a, &c), DepChange::Add)));
    let empty = get_ref_diffs(&vec![], &vec![]);
    assert_eq!(empty.len(), 0);
}

#[test]
fn test_cache_undo() {
    let mut cache = UndoCache::new();
    let file = Uuid::new_v4().to_string();
    let user = Uuid::new_v4().to_string();
    let obj_1 = Uuid::new_v4().to_string();

    cache.begin_undo_event(&file, &user).unwrap();

    let offset = 1;
    let msg = ChangeMsg {
        user: user.clone(),
        change_type: Some(ChangeType::Add(plain_obj(&obj_1, ""))),
        change_source: Some(ChangeSource::UserAction(EmptyMsg {})),
    };
    cache.update_undo_cache(&file, offset, &msg).unwrap();

    let (event, list) = cache.undo(&file, &user).unwrap();
    assert_eq!(list.len(), 1);
    assert_eq!(list[0].obj_id, obj_1);
    assert_eq!(list[0].offset, offset);
    assert_eq!(list[0].change_type, UndoChangeType::Add);

    let offset = 2;
    let undo_msg = ChangeMsg {
        user: user.clone(),
        change_type: Some(ChangeType::Delete(DeleteMsg { id: obj_1.clone() })),
        change_source: Some(ChangeSource::Undo(event)),
    };
    cache.update_undo_cache(&file, offset, &undo_msg).unwrap();

    // Undo again, there shouldn't be an undo event anymore so this should throw an error
    assert!(cache.undo(&file, &user).is_err());

    let (event, list) = cache.redo(&file, &user).unwrap();
    assert_eq!(list.len(), 1);
    assert_eq!(list[0].obj_id, obj_1);
    assert_eq!(list[0].offset, offset);
    assert_eq!(list[0].change_type, UndoChangeType::Delete);

    let offset = 3;
    let redo_msg = ChangeMsg {
        user: user.clone(),
        change_type: Some(ChangeType::Add(plain_obj(&obj_1, ""))),
        change_source: Some(ChangeSource::Redo(event)),
    };
    cache.update_undo_cache(&file, offset, &redo_msg).unwrap();

    // Redo again, there shouldn't be a redo event anymore so this should throw an error
    assert!(cache.redo(&file, &user).is_err());

    // Now undo/redo again
    let (event, list) = cache.undo(&file, &user).unwrap();
    assert_eq!(list.len(), 1);
    assert_eq!(list[0].obj_id, obj_1);
    assert_eq!(list[0].offset, offset);
    assert_eq!(list[0].change_type, UndoChangeType::Add);
    let offset = 4;
    let undo_msg = ChangeMsg {
        user: user.clone(),
        change_type: Some(ChangeType::Delete(DeleteMsg { id: obj_1.clone() })),
        change_source: Some(ChangeSource::Undo(event)),
    };
    cache.update_undo_cache(&file, offset, &undo_msg).unwrap();
    let (event, list) = cache.redo(&file, &user).unwrap();
    assert_eq!(list.len(), 1);
    assert_eq!(list[0].obj_id, obj_1);
    assert_eq!(list[0].offset, offset);
    assert_eq!(list[0].change_type, UndoChangeType::Delete);
    let offset = 5;
    let redo_msg = ChangeMsg {
        user: user.clone(),
        change_type: Some(ChangeType::Add(plain_obj(&obj_1, ""))),
        change_source: Some(ChangeSource::Redo(event)),
    };
    cache.update_undo_cache(&file, offset, &redo_msg).unwrap();
}

#[test]
fn undo_errors_name_their_cause() {
    let mut cache = UndoCache::new();
    // recording a user action with no open event fails
    let msg = ChangeMsg {
        user: String::from("u"),
        change_type: Some(ChangeType::Add(plain_obj("x", ""))),
        change_source: Some(ChangeSource::UserAction(EmptyMsg {})),
    };
    match cache.update_undo_cache("f", 1, &msg) {
        Err(UndoError::NoUndoEvent(user, file)) => {
            assert_eq!(user, String::from("u"));
            assert_eq!(file, String::from("f"));
        },
        other => panic!("expected a missing event, got {:?}", other),
    }
    // a replay naming an object the event never recorded fails
    cache.begin_undo_event("f", "u").unwrap();
    let replay = ChangeMsg {
        user: String::from("u"),
        change_type: Some(ChangeType::Delete(DeleteMsg { id: String::from("x") })),
        change_source: Some(ChangeSource::Undo(String::from("no such event"))),
    };
    assert!(matches!(
        cache.update_undo_cache("f", 2, &replay),
        Err(UndoError::NoObjInUndoEvent(_, _, _))
    ));
    // the uuid an undo event gets is the hyphenated form
    let another = ChangeMsg {
        user: String::from("u"),
        change_type: Some(ChangeType::Add(plain_obj("x", ""))),
        change_source: Some(ChangeSource::UserAction(EmptyMsg {})),
    };
    cache.update_undo_cache("f", 3, &another).unwrap();
    let (event, _) = cache.undo("f", "u").unwrap();
    assert_eq!(event.len(), 36);
}

#[test]
fn rep_cache_round() {
    let mut cache = RepCache::new();
    let rep = UpdateChangeMsg {
        file: String::from("f"),
        user: String::from("u"),
        obj_id: String::from("o"),
        update: Some(UpdateOutputMsg::Delete),
    };
    assert!(cache.get_object_rep("f", "o").is_err());
    cache.update_object_rep_cache("f", rep.clone());
    assert_eq!(cache.get_object_rep("f", "o").unwrap(), rep);
    // a newer representation shadows the old one
    let newer = UpdateChangeMsg {
        file: String::from("f"),
        user: String::from("u"),
        obj_id: String::from("o"),
        update: Some(UpdateOutputMsg::OtherJson(String::from("{}"))),
    };
    cache.update_object_rep_cache("f", newer.clone());
    assert_eq!(cache.get_object_rep("f", "o").unwrap(), newer);
}

#[test]
fn fanout_routes_in_order() {
    let mut registry = Registry::new();
    registry.subscribe("f", "alice");
    registry.subscribe("f", "bob");
    registry.subscribe("g", "carol");
    assert_eq!(registry.route("f"), vec![String::from("alice"), String::from("bob")]);
    assert_eq!(registry.route("g"), vec![String::from("carol")]);
    registry.unsubscribe("f", "alice");
    assert_eq!(registry.route("f"), vec![String::from("bob")]);
    registry.unsubscribe("f", "nobody");
    assert_eq!(registry.route("f"), vec![String::from("bob")]);
    let message = UpdateMessage::new(String::from("f"), vec![1, 2, 3]);
    assert_eq!(message.file, String::from("f"));
    assert_eq!(message.msg, vec![1, 2, 3]);
}

#[test]
fn wall_slots_keep_their_positions() {
    let bound = ref_id("anchor", 3, 0);
    let opening_target = ref_id("window", 5, 0);
    let wall = WallModel {
        id: String::from("w"),
        first_refer: Some(bound.clone()),
        second_refer: None,
        openings: vec![None, Some(Some(opening_target.clone())), Some(None)],
    };
    let slots = wall_refs(&wall);
    assert_eq!(slots.len(), 9);
    // slot 0 binds the first point outward; slot 1 is a tombstone
    let first = slots[0].reference.as_ref().unwrap();
    assert_eq!(first.owner.as_ref().unwrap(), &ref_id("w", 3, 0));
    assert_eq!(first.other.as_ref().unwrap(), &bound);
    assert!(slots[1].reference.is_none());
    // slots 2..=5 are the fixed intra-object edges
    let bbox_edge = slots[2].reference.as_ref().unwrap();
    assert_eq!(bbox_edge.owner.as_ref().unwrap(), &ref_id("w", 2, 0));
    assert_eq!(bbox_edge.other.as_ref().unwrap(), &ref_id("w", 3, 0));
    let line_edge = slots[5].reference.as_ref().unwrap();
    assert_eq!(line_edge.owner.as_ref().unwrap(), &ref_id("w", 4, 0));
    assert_eq!(line_edge.other.as_ref().unwrap(), &ref_id("w", 3, 1));
    // openings keep their positions: absent, bound, unbound
    assert!(slots[6].reference.is_none());
    let open_edge = slots[7].reference.as_ref().unwrap();
    assert_eq!(open_edge.owner.as_ref().unwrap(), &ref_id("w", 5, 1));
    assert_eq!(open_edge.other.as_ref().unwrap(), &opening_target);
    assert!(slots[8].reference.is_none());
}

#[test]
fn viewport_deletes_itself_without_a_sheet() {
    let with_sheet = ViewportModel {
        id: String::from("v"),
        sheet: Some(String::from("s")),
        origin: (1, 2),
    };
    match viewport_update(&with_sheet) {
        UpdateOutputMsg::OtherJson(data) => assert!(data.contains("\"sheet\":\"s\"")),
        other => panic!("expected a blob, got {:?}", other),
    }
    let slots = viewport_refs(&with_sheet);
    assert_eq!(slots.len(), 1);
    let slot = slots[0].reference.as_ref().unwrap();
    assert_eq!(slot.owner.as_ref().unwrap(), &ref_id("v", 1, 0));
    assert_eq!(slot.other.as_ref().unwrap(), &ref_id("s", 1, 0));

    let orphaned = ViewportModel { id: String::from("v"), sheet: None, origin: (1, 2) };
    assert_eq!(viewport_update(&orphaned), UpdateOutputMsg::Delete);
    assert!(viewport_refs(&orphaned)[0].reference.is_none());
}
