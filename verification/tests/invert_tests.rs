//! Tests of event inversion and message conversion.

use model_core::msg::{
    add, delete, from_change_msg, from_change_msgs, modify, AxisAlignedBBoxMsg, Change, ChangeMsg,
    ChangeSource, ChangeType, DeleteMsg, DependenciesMsg, EmptyMsg, LineMsg, MsgError, ObjectMsg,
    OptionLineMsg, OptionPlaneMsg, OptionPoint3Msg, OptionReferenceMsg, PlaneMsg, Point3Msg,
    ProfileMsg, PropertiesMsg, RefIdMsg, ReferenceMsg, ResultsMsg,
};
use model_core::invert::{invert_changes_inner, InvertError};
use model_core::msg::OptionChangeMsg;
use model_core::undo_cache::{UndoChangeType, UndoEntry};

fn bare_object(id: &str, data: &str) -> ObjectMsg {
    ObjectMsg {
        id: String::from(id),
        dependencies: None,
        obj_data: String::from(data).into_bytes(),
        results: None,
    }
}

#[test]
fn test_invert_changes_inner() {
    let user_1 = String::from("test user");
    let user_2 = String::from("prev user");
    let source = ChangeSource::Undo(String::from("test event"));
    let obj_1 = String::from("obj_1");
    let obj_2 = String::from("obj_2");
    let obj_3 = String::from("obj_3");
    let entries = vec![
        UndoEntry { obj_id: obj_1.clone(), offset: 1, change_type: UndoChangeType::Add },
        UndoEntry { obj_id: obj_2.clone(), offset: 2, change_type: UndoChangeType::Modify },
        UndoEntry { obj_id: obj_3.clone(), offset: 3, change_type: UndoChangeType::Delete },
    ];
    let previous = vec![
        OptionChangeMsg { change: None },
        OptionChangeMsg {
            change: Some(ChangeMsg {
                user: user_2.clone(),
                change_type: Some(ChangeType::Add(bare_object("obj_2", "Object 2 data"))),
                change_source: Some(ChangeSource::UserAction(EmptyMsg {})),
            }),
        },
        OptionChangeMsg {
            change: Some(ChangeMsg {
                user: user_2.clone(),
                change_type: Some(ChangeType::Modify(bare_object("obj_3", "Object 3 data"))),
                change_source: Some(ChangeSource::UserAction(EmptyMsg {})),
            }),
        },
    ];
    let inverted = invert_changes_inner(&user_1, source.clone(), entries, previous).unwrap();
    let answers = vec![
        ChangeMsg {
            user: user_1.clone(),
            change_type: Some(ChangeType::Delete(DeleteMsg { id: obj_1 })),
            change_source: Some(source.clone()),
        },
        ChangeMsg {
            user: user_1.clone(),
            change_type: Some(ChangeType::Modify(bare_object("obj_2", "Object 2 data"))),
            change_source: Some(source.clone()),
        },
        ChangeMsg {
            user: user_1.clone(),
            change_type: Some(ChangeType::Add(bare_object("obj_3", "Object 3 data"))),
            change_source: Some(source.clone()),
        },
    ];
    // Splitting up these asserts so we zero in on which one is wrong
    assert_eq!(inverted[0], answers[0]);
    assert_eq!(inverted[1], answers[1]);
    assert_eq!(inverted[2], answers[2]);
}

#[test]
fn invert_rejects_modify_over_deleted_state() {
    // a modify whose previous state is a delete is a broken history
    let entries = vec![
        UndoEntry { obj_id: String::from("gone"), offset: 5, change_type: UndoChangeType::Modify },
    ];
    let previous = vec![
        OptionChangeMsg {
            change: Some(ChangeMsg {
                user: String::from("u"),
                change_type: Some(ChangeType::Delete(DeleteMsg { id: String::from("gone") })),
                change_source: Some(ChangeSource::UserAction(EmptyMsg {})),
            }),
        },
    ];
    let result = invert_changes_inner(
        "u",
        ChangeSource::Undo(String::from("e")),
        entries,
        previous,
    );
    assert_eq!(result, Err(InvertError::NoPreviousState(String::from("gone"))));
}

#[test]
fn invert_rejects_modify_of_absent_state() {
    // a modify recorded for an object with no history at all is an
    // invariant violation, not a silent delete
    let entries = vec![
        UndoEntry { obj_id: String::from("a"), offset: 2, change_type: UndoChangeType::Add },
        UndoEntry { obj_id: String::from("b"), offset: 3, change_type: UndoChangeType::Modify },
    ];
    let previous = vec![
        OptionChangeMsg { change: None },
        OptionChangeMsg { change: None },
    ];
    let result = invert_changes_inner(
        "u",
        ChangeSource::Undo(String::from("e")),
        entries,
        previous,
    );
    // the first entry inverts fine; the second names the broken row
    assert_eq!(result, Err(InvertError::NoPreviousState(String::from("b"))));
}

#[test]
fn builders_tag_user_action() {
    let obj = bare_object("a", "payload");
    let added = add("alice", obj.clone());
    assert_eq!(added.user, String::from("alice"));
    assert!(matches!(added.change_type, Some(ChangeType::Add(_))));
    assert!(matches!(added.change_source, Some(ChangeSource::UserAction(_))));
    let modified = modify("alice", obj);
    assert!(matches!(modified.change_type, Some(ChangeType::Modify(_))));
    let deleted = delete("alice", String::from("a"));
    match &deleted.change_type {
        Some(ChangeType::Delete(d)) => assert_eq!(d.id, String::from("a")),
        _ => panic!("expected a delete"),
    }
}

#[test]
fn change_conversion_round() {
    let msgs = vec![
        add("u", bare_object("x", "dx")),
        delete("u", String::from("y")),
    ];
    let converted = from_change_msgs(&msgs).unwrap();
    assert_eq!(converted.len(), 2);
    match &converted[0] {
        Change::Add { obj } => assert_eq!(obj.id, String::from("x")),
        _ => panic!("expected an add"),
    }
    match &converted[1] {
        Change::Delete { id } => assert_eq!(id, &String::from("y")),
        _ => panic!("expected a delete"),
    }
    let untyped = ChangeMsg { user: String::from("u"), change_type: None, change_source: None };
    assert!(matches!(from_change_msg(&untyped), Err(MsgError::NoChangeType)));
    assert!(from_change_msgs(&vec![untyped]).is_err());
}

fn pt(x: u64, y: u64, z: u64) -> Point3Msg {
    Point3Msg { x, y, z }
}

#[test]
fn object_getters_read_results() {
    let obj = ObjectMsg {
        id: String::from("w"),
        dependencies: Some(DependenciesMsg {
            references: vec![
                OptionReferenceMsg {
                    reference: Some(ReferenceMsg {
                        owner: Some(RefIdMsg {
                            id: String::from("w"),
                            ref_type: 3,
                            index: 0,
                        }),
                        other: Some(RefIdMsg {
                            id: String::from("v"),
                            ref_type: 3,
                            index: 1,
                        }),
                    }),
                },
                OptionReferenceMsg { reference: None },
            ],
        }),
        obj_data: vec![1, 2, 3],
        results: Some(ResultsMsg {
            visible: true,
            profile: Some(ProfileMsg {
                points: vec![OptionPoint3Msg::new(Some(pt(1, 2, 3)))],
                lines: vec![OptionLineMsg {
                    line: Some(LineMsg { pt_1: Some(pt(1, 2, 3)), pt_2: Some(pt(4, 5, 6)) }),
                }],
                planes: vec![OptionPlaneMsg {
                    plane: Some(PlaneMsg {
                        pt_1: Some(pt(1, 2, 3)),
                        pt_2: Some(pt(4, 5, 6)),
                        pt_3: Some(pt(7, 8, 9)),
                    }),
                }],
            }),
            bbox: Some(AxisAlignedBBoxMsg {
                bottom_left: Some(pt(0, 0, 0)),
                top_right: Some(pt(9, 9, 9)),
            }),
            properties: Some(PropertiesMsg { prop_json: String::from("{\"kind\":\"wall\"}") }),
        }),
    };
    assert_eq!(obj.get_profile_pt(0), Some(&pt(1, 2, 3)));
    assert!(obj.get_profile_pt(1).is_none());
    assert!(obj.get_profile_line(0).is_some());
    assert!(obj.get_profile_plane(0).is_some());
    assert!(obj.get_reference(0).is_some());
    assert!(obj.get_reference(1).is_none());
    assert!(obj.get_bbox().is_some());
    let parsed = obj.get_properties().unwrap().unwrap();
    assert_eq!(
        parsed.get("kind").and_then(|v| v.as_str()),
        Some("wall"),
    );
}

#[test]
fn properties_reject_malformed_json() {
    let obj = ObjectMsg {
        id: String::from("w"),
        dependencies: None,
        obj_data: vec![],
        results: Some(ResultsMsg {
            visible: false,
            profile: Some(ProfileMsg { points: vec![], lines: vec![], planes: vec![] }),
            bbox: None,
            properties: Some(PropertiesMsg { prop_json: String::from("{not json") }),
        }),
    };
    assert!(obj.get_properties().is_err());
    let plain = bare_object("p", "");
    assert!(plain.get_properties().unwrap().is_none());
}
