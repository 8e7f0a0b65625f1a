use scene_browser::display::{field_to_string, get_components_fields};
use scene_browser::hierarchy::{
    generate_game_object_named_list, generate_game_object_names, get_unparented, hierarchy_rows,
};
use scene_browser::object::{Component, Field, Object, Transform};
use scene_browser::parser::parse;
use scene_browser::repository::{construct_repository, Repository};
use scene_browser::value::YamlValue;
use scene_browser::vector::{Number, Vec2};

fn repo_of(text: &str) -> Repository {
    let lines: Vec<String> = text.lines().map(String::from).collect();
    construct_repository(parse(&lines).unwrap())
}

fn game_object(id: &str, name: &str, components: &[&str]) -> String {
    let mut s = format!("--- !u!1 &{}\nGameObject:\n", id);
    if components.is_empty() {
        s += "  m_Component: []\n";
    } else {
        s += "  m_Component:\n";
    }
    for c in components {
        s += &format!("  - component: {{fileID: {}}}\n", c);
    }
    s += &format!("  m_Layer: 0\n  m_Name: {}\n  m_TagString: Untagged\n  m_IsActive: 1\n", name);
    s
}

fn transform(id: &str, go: &str, father: &str, order: i64, children: &[&str]) -> String {
    let mut s = format!(
        "--- !u!4 &{}\nTransform:\n  m_GameObject: {{fileID: {}}}\n  m_LocalRotation: {{x: 0, y: 0, z: 0, w: 1}}\n  m_LocalPosition: {{x: 1.5, y: 0, z: -2}}\n  m_LocalScale: {{x: 1, y: 1, z: 1}}\n",
        id, go
    );
    if children.is_empty() {
        s += "  m_Children: []\n";
    } else {
        s += "  m_Children:\n";
        for c in children {
            s += &format!("  - {{fileID: {}}}\n", c);
        }
    }
    s += &format!("  m_Father: {{fileID: {}}}\n  m_RootOrder: {}\n", father, order);
    s
}

#[test]
fn transform_and_game_object_scenario() {
    let text = format!("{}{}", transform("10", "11", "0", 0, &[]), game_object("11", "Cube", &["10"]));
    let repo = repo_of(&text);
    let go = repo.get_game_object(&"11".to_string()).unwrap();
    assert_eq!(go.name, "Cube");
    assert_eq!(go.component_ids, vec!["10".to_string()]);
    assert!(go.active);
    let t = repo.get_transform(&"10".to_string()).unwrap();
    assert_eq!(t.get_father_id(), "0");
    assert!(!t.has_parent());
    let roots = repo.get_unparented_transforms();
    assert_eq!(roots.len(), 1);
    assert_eq!(roots[0].get_game_object_id(), "11");
}

#[test]
fn spec_transform_scenario_builds_with_default_local_fields() {
    let text = "--- !u!4 &10\nTransform:\n  m_Father: {fileID: 0}\n  m_RootOrder: 0\n  m_Children: []\n  m_GameObject: {fileID: 11}\n";
    let repo = repo_of(&format!("{}{}", text, game_object("11", "Cube", &["10"])));
    assert_eq!(repo.len(), 2);
    assert_eq!(repo.get_game_object(&"11".to_string()).unwrap().name, "Cube");
    let t = repo.get_transform(&"10".to_string()).unwrap();
    assert_eq!(t.get_father_id(), "0");
    assert_eq!(t.get_root_order(), 0);
    assert!(t.get_children_ids().is_empty());
    assert_eq!(t.get_game_object_id(), "11");
    match t {
        Transform::Transform3D(t3) => {
            assert_eq!(t3.local_rotation.w, Number::Int(1));
            assert_eq!(t3.local_rotation.x, Number::Int(0));
            assert_eq!(t3.local_position.y, Number::Int(0));
            assert_eq!(t3.local_scale.z, Number::Int(1));
        }
        _ => panic!("expected a transform"),
    }
    let roots = repo.get_unparented_transforms();
    assert_eq!(roots.len(), 1);
    assert_eq!(roots[0].get_father_id(), "0");
    assert_eq!(roots[0].get_game_object_id(), "11");
}

#[test]
fn malformed_local_field_rejects_the_transform() {
    let text = "--- !u!4 &10\nTransform:\n  m_LocalScale: big\n  m_Father: {fileID: 0}\n  m_RootOrder: 0\n  m_Children: []\n  m_GameObject: {fileID: 11}\n";
    let repo = repo_of(text);
    assert!(repo.get_transform(&"10".to_string()).is_none());
}

#[test]
fn lookups_by_kind() {
    let text = format!("{}{}", transform("10", "11", "0", 0, &[]), game_object("11", "Cube", &["10"]));
    let repo = repo_of(&text);
    assert!(repo.get_game_object(&"10".to_string()).is_none());
    assert!(repo.get_component(&"10".to_string()).is_some());
    assert!(repo.get_component(&"11".to_string()).is_none());
    assert!(repo.get_monobehaviour(&"10".to_string()).is_none());
    assert!(repo.get(&"12".to_string()).is_none());
    assert_eq!(repo.get_game_object_ids(), vec!["11".to_string()]);
    match repo.get(&"10".to_string()) {
        Some(Object::Component(Component::Transform(Transform::Transform3D(t)))) => {
            assert_eq!(t.local_position.x, Number::Real("1.5".to_string()));
            assert_eq!(t.local_position.z, Number::Int(-2));
            assert_eq!(t.local_rotation.w, Number::Int(1));
        }
        _ => panic!("expected a transform"),
    }
}

#[test]
fn unknown_classes_and_mismatched_type_names_are_skipped() {
    let text = format!(
        "--- !u!104 &1\nRenderSettings:\n  m_Fog: 0\n--- !u!1 &2\nTransform:\n  m_Name: X\n{}",
        game_object("3", "Kept", &[])
    );
    let repo = repo_of(&text);
    assert!(repo.get(&"1".to_string()).is_none());
    assert!(repo.get(&"2".to_string()).is_none());
    assert_eq!(repo.get_game_object(&"3".to_string()).unwrap().name, "Kept");
}

#[test]
fn layer_keeps_low_eight_bits() {
    let text = "--- !u!1 &5\nGameObject:\n  m_Component: []\n  m_Layer: 261\n  m_Name: L\n  m_TagString: T\n  m_IsActive: 0\n";
    let repo = repo_of(text);
    let go = repo.get_game_object(&"5".to_string()).unwrap();
    assert_eq!(go.layer, 5);
    assert!(!go.active);
}

#[test]
fn monobehaviour_fields_after_marker() {
    let text = "--- !u!114 &20\nMonoBehaviour:\n  m_GameObject: {fileID: 11}\n  m_Enabled: 1\n  m_Script: {fileID: 115, guid: abc}\n  m_EditorClassIdentifier: \n  speed: 2.5\n  count: 3\n  label: hi\n  offset: {x: 1, y: 2}\n  color: {r: 1, g: 0, b: 0, a: 1}\n  count: 4\n";
    let repo = repo_of(text);
    let m = repo.get_monobehaviour(&"20".to_string()).unwrap();
    assert!(m.enabled);
    assert_eq!(m.game_object_id, "11");
    assert_eq!(m.fields.len(), 5);
    assert_eq!(m.fields[0], ("speed".to_string(), Field::Float("2.5".to_string())));
    assert_eq!(m.fields[1], ("count".to_string(), Field::I64(4)));
    assert_eq!(m.fields[2], ("label".to_string(), Field::Str("hi".to_string())));
    assert_eq!(
        m.fields[3],
        ("offset".to_string(), Field::Vector2(Vec2 { x: Number::Int(1), y: Number::Int(2) }))
    );
    match &m.fields[4] {
        (k, Field::Raw(YamlValue::Object(es))) => {
            assert_eq!(k, "color");
            assert_eq!(es.len(), 4);
        }
        other => panic!("unexpected {:?}", other),
    }
}

#[test]
fn later_document_with_same_id_replaces_earlier() {
    let text = format!("{}{}", game_object("7", "First", &[]), game_object("7", "Second", &[]));
    let repo = repo_of(&text);
    assert_eq!(repo.len(), 1);
    assert_eq!(repo.get_game_object(&"7".to_string()).unwrap().name, "Second");
}

fn family() -> String {
    format!(
        "{}{}{}{}{}{}{}{}",
        game_object("1", "Root", &["2"]),
        transform("2", "1", "0", 0, &["4", "6"]),
        game_object("3", "A", &["4"]),
        transform("4", "3", "2", 2, &[]),
        game_object("5", "B", &["6"]),
        transform("6", "5", "2", 1, &["8"]),
        game_object("7", "C", &["8"]),
        transform("8", "7", "6", 0, &[]),
    )
}

#[test]
fn hierarchy_orders_children_by_root_order() {
    let repo = repo_of(&family());
    let rows = hierarchy_rows(&repo).unwrap();
    let names: Vec<&str> = rows.iter().map(|(n, _)| n.as_str()).collect();
    assert_eq!(names, vec!["Root", "\u{2514}B", " \u{2514}C", "\u{2514}A"]);
    let root_go = repo.get_game_object(&"1".to_string()).unwrap();
    let root_t = repo.get_transform(&"2".to_string()).unwrap();
    let labels = generate_game_object_names(root_go, root_t, 0, &repo, 10).unwrap();
    assert_eq!(labels, vec!["Root", "\u{2514}B", " \u{2514}C", "\u{2514}A"]);
    let list = generate_game_object_named_list(root_go, root_t, 0, &repo, 10).unwrap();
    assert_eq!(list[3].1.name, "A");
    assert!(generate_game_object_named_list(root_go, root_t, 0, &repo, 2).is_none());
}

#[test]
fn unparented_transforms_sorted_with_game_objects() {
    let text = format!(
        "{}{}{}{}",
        game_object("1", "Second", &["2"]),
        transform("2", "1", "0", 5, &[]),
        game_object("3", "First", &["4"]),
        transform("4", "3", "0", 1, &[]),
    );
    let repo = repo_of(&text);
    let roots = get_unparented(&repo).unwrap();
    assert_eq!(roots.len(), 2);
    assert_eq!(roots[0].0.name, "First");
    assert_eq!(roots[1].0.name, "Second");
    assert_eq!(repo.get_unparented_transforms().len(), 2);
}

#[test]
fn missing_child_aborts_the_branch() {
    let text = format!("{}{}", game_object("1", "Root", &["2"]), transform("2", "1", "0", 0, &["99"]));
    let repo = repo_of(&text);
    assert!(hierarchy_rows(&repo).is_none());
}

#[test]
fn cycle_fails_closed() {
    let text = format!(
        "{}{}{}{}",
        game_object("1", "Root", &["2"]),
        transform("2", "1", "0", 0, &["4"]),
        game_object("3", "Loop", &["4"]),
        transform("4", "3", "2", 0, &["4"]),
    );
    let repo = repo_of(&text);
    assert!(hierarchy_rows(&repo).is_none());
}

#[test]
fn component_rows() {
    let text = format!(
        "{}--- !u!114 &20\nMonoBehaviour:\n  m_Enabled: 0\n  m_GameObject: {{fileID: 1}}\n  m_EditorClassIdentifier: \n  maxSpeed: 3\n",
        transform("2", "1", "0", 0, &[])
    );
    let repo = repo_of(&text);
    let t = repo.get_component(&"2".to_string()).unwrap();
    assert_eq!(
        get_components_fields(t),
        vec![
            "Local Position: x:1.5 y:0 z:-2".to_string(),
            "Local Rotation: x:0 y:0 z:0 w:1".to_string(),
            "Local Scale: x:1 y:1 z:1".to_string(),
        ]
    );
    let m = repo.get_component(&"20".to_string()).unwrap();
    assert_eq!(
        get_components_fields(m),
        vec!["Enabled: false".to_string(), "Max Speed: 3".to_string()]
    );
    assert_eq!(field_to_string(&Field::Bool(true)), "true");
    assert_eq!(field_to_string(&Field::I64(-12)), "-12");
}

#[test]
fn rect_transform_is_built() {
    let text = "--- !u!224 &30\nRectTransform:\n  m_GameObject: {fileID: 31}\n  m_LocalRotation: {x: 0, y: 0, z: 0, w: 1}\n  m_LocalPosition: {x: 0, y: 0, z: 0}\n  m_LocalScale: {x: 1, y: 1, z: 1}\n  m_Children: []\n  m_Father: {fileID: 0}\n  m_RootOrder: 0\n  m_AnchorMin: {x: 0, y: 0}\n  m_AnchorMax: {x: 1, y: 1}\n  m_AnchoredPosition: {x: 0, y: 0}\n  m_SizeDelta: {x: 100, y: 30}\n  m_Pivot: {x: 0.5, y: 0.5}\n";
    let repo = repo_of(text);
    let t = repo.get_transform(&"30".to_string()).unwrap();
    assert_eq!(t.get_name(), "RectTransform");
    match t {
        Transform::RectTransform(r) => {
            assert_eq!(r.size_delta.x, Number::Int(100));
            assert_eq!(r.pivot.y, Number::Real("0.5".to_string()));
        }
        _ => panic!("expected a rect transform"),
    }
    let rows = get_components_fields(repo.get_component(&"30".to_string()).unwrap());
    assert_eq!(rows.len(), 8);
    assert_eq!(rows[3], "Pivot: x:0.5 y:0.5");
}

#[test]
fn component_names_and_game_object_components() {
    use_components();
}

fn use_components() {
    let text = format!(
        "{}{}--- !u!114 &20\nMonoBehaviour:\n  m_Enabled: 1\n  m_GameObject: {{fileID: 1}}\n",
        game_object("1", "Root", &["2", "20", "99"]),
        transform("2", "1", "0", 0, &[])
    );
    let repo = repo_of(&text);
    let go = repo.get_game_object(&"1".to_string()).unwrap();
    let comps = scene_browser::hierarchy::get_game_object_components(&repo, go);
    assert_eq!(comps.len(), 2);
    assert_eq!(comps[0].get_name(), "Transform");
    assert_eq!(comps[1].get_name(), "20");
    assert_eq!(comps[1].get_game_object_id(), "1");
}

#[test]
fn replaced_document_moves_to_the_end() {
    let text = format!(
        "{}{}{}",
        game_object("1", "One", &[]),
        game_object("2", "Two", &[]),
        game_object("1", "Again", &[])
    );
    let repo = repo_of(&text);
    assert_eq!(repo.get_game_object_ids(), vec!["2".to_string(), "1".to_string()]);
    assert_eq!(repo.get_game_object(&"1".to_string()).unwrap().name, "Again");
}

#[test]
fn rect_transform_requires_local_fields() {
    let text = "--- !u!224 &30\nRectTransform:\n  m_GameObject: {fileID: 31}\n  m_LocalPosition: {x: 0, y: 0, z: 0}\n  m_LocalScale: {x: 1, y: 1, z: 1}\n  m_Children: []\n  m_Father: {fileID: 0}\n  m_RootOrder: 0\n  m_AnchorMin: {x: 0, y: 0}\n  m_AnchorMax: {x: 1, y: 1}\n  m_AnchoredPosition: {x: 0, y: 0}\n  m_SizeDelta: {x: 100, y: 30}\n  m_Pivot: {x: 0.5, y: 0.5}\n";
    let repo = repo_of(text);
    assert!(repo.get_transform(&"30".to_string()).is_none());
    assert_eq!(repo.len(), 0);
}
