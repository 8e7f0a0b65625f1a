use scene_browser::navigation::{
    FileSelectState, HierarchyViewBlocksState, ListSelection, NavAction, NavKey, PairWith,
    SelectNextPrev,
};
use scene_browser::number::{int_to_string, is_float, parse_i64};
use scene_browser::project::{
    file_extension, find_project_files, path_to_absolute, path_to_relative, ArgsError, ProjectFiles,
};
use scene_browser::query::AsFileId;
use scene_browser::readable::field_name_to_readable;
use scene_browser::value::YamlValue;

#[test]
fn readable_field_names() {
    assert_eq!(field_name_to_readable("maxSpeed"), "Max Speed");
    assert_eq!(field_name_to_readable("level2"), "Level 2");
    assert_eq!(field_name_to_readable("m_Color"), "M Color");
    assert_eq!(field_name_to_readable("m_<Speed>k__BackingField"), "M Speed");
    assert_eq!(field_name_to_readable("m__value"), "M  Value");
    assert_eq!(field_name_to_readable("_health"), "_health");
    assert_eq!(field_name_to_readable("trail_ "), "Trail");
    assert_eq!(field_name_to_readable(""), "");
}

#[test]
fn project_files_by_extension() {
    let files = vec![
        "p/Assets/Main.unity".to_string(),
        "p/Assets/Data.asset".to_string(),
        "p/Assets/Hero.prefab".to_string(),
        "p/Assets/readme.txt".to_string(),
        "p/Assets/.unity".to_string(),
        "p/Assets/Other.unity".to_string(),
    ];
    let project = find_project_files("p", &files);
    assert_eq!(project.base_path, "p");
    assert_eq!(project.scenes, vec!["p/Assets/Main.unity".to_string(), "p/Assets/Other.unity".to_string()]);
    assert_eq!(project.assets, vec!["p/Assets/Data.asset".to_string()]);
    assert_eq!(project.prefabs, vec!["p/Assets/Hero.prefab".to_string()]);
    assert!(!project.is_empty());
    assert!(ProjectFiles::new("x").is_empty());
}

#[test]
fn project_files_append_moves_lists() {
    let mut a = ProjectFiles::new("a");
    let mut b = find_project_files("b", &vec!["b/s.unity".to_string()]);
    a.append(&mut b);
    assert_eq!(a.scenes, vec!["b/s.unity".to_string()]);
    assert!(b.is_empty());
}

#[test]
fn file_extensions() {
    assert_eq!(file_extension("dir/a.b.unity"), Some("unity"));
    assert_eq!(file_extension("dir.x/noext"), None);
    assert_eq!(file_extension(".hidden"), None);
}

#[test]
fn relative_and_absolute_paths() {
    assert_eq!(path_to_relative("/p/Assets/a.unity", "/p"), Ok("Assets/a.unity".to_string()));
    assert_eq!(path_to_relative("/p/Assets", "/p/"), Ok("Assets".to_string()));
    assert!(path_to_relative("/pq/a", "/p").is_err());
    assert!(path_to_relative("/x/a", "/p").is_err());
    assert_eq!(path_to_absolute("a/b", "/p"), "/p/a/b");
    assert_eq!(path_to_absolute("a", "/p/"), "/p/a");
    assert_eq!(path_to_absolute("/abs", "/p"), "/abs");
    assert_eq!(path_to_absolute("a", ""), "a");
    assert_eq!(path_to_relative("/a", ""), Ok("/a".to_string()));
    assert_eq!(path_to_relative("a/b", ""), Ok("a/b".to_string()));
    assert_eq!(path_to_absolute("/a", ""), "/a");
}

#[test]
fn relative_then_absolute_gives_the_path_back() {
    for (full, base) in [("/a", ""), ("a/b", ""), ("/p/x/y", "/p"), ("/p/x", "/p/"), ("/p/", "/p")] {
        let rel = path_to_relative(full, base).unwrap();
        assert_eq!(path_to_absolute(&rel, base), full);
    }
}

#[test]
fn selection_wraps_around() {
    let mut s = ListSelection { selected: Some(2) };
    s.next_if_some(3);
    assert_eq!(s.selected, Some(0));
    s.prev_if_some(3);
    assert_eq!(s.selected, Some(2));
    s.prev_if_some(3);
    assert_eq!(s.selected, Some(1));
    let mut none = ListSelection { selected: None };
    none.next_if_some(0);
    assert_eq!(none.selected, None);
}

#[test]
fn hierarchy_view_keys() {
    assert_eq!(HierarchyViewBlocksState::Hierarchy.on_key(NavKey::Back), (HierarchyViewBlocksState::Hierarchy, NavAction::LeaveView));
    assert_eq!(HierarchyViewBlocksState::Hierarchy.on_key(NavKey::Select), (HierarchyViewBlocksState::GameObject, NavAction::SelectFirstComponent));
    assert_eq!(HierarchyViewBlocksState::GameObject.on_key(NavKey::Select), (HierarchyViewBlocksState::Component, NavAction::Nothing));
    assert_eq!(HierarchyViewBlocksState::Component.on_key(NavKey::Back), (HierarchyViewBlocksState::GameObject, NavAction::ClearFields));
    assert_eq!(HierarchyViewBlocksState::GameObject.on_key(NavKey::Back), (HierarchyViewBlocksState::Hierarchy, NavAction::ClearComponents));
    assert_eq!(HierarchyViewBlocksState::Component.on_key(NavKey::Down), (HierarchyViewBlocksState::Component, NavAction::NextRow));
    assert_eq!(HierarchyViewBlocksState::Hierarchy.on_key(NavKey::Up), (HierarchyViewBlocksState::Hierarchy, NavAction::PrevRow));
    assert_eq!(HierarchyViewBlocksState::Component.on_key(NavKey::Other), (HierarchyViewBlocksState::Component, NavAction::Nothing));
    assert_ne!(ArgsError::TooFew, ArgsError::NotDir);
}

#[test]
fn pair_and_file_ids() {
    assert_eq!(1.pair_with("a"), (1, "a"));
    assert_eq!(YamlValue::Int(-5).as_file_id(), Some("-5".to_string()));
    assert_eq!(YamlValue::Str("abc".to_string()).as_file_id(), Some("abc".to_string()));
    assert_eq!(YamlValue::Float("1.5".to_string()).as_file_id(), None);
}

#[test]
fn numbers() {
    assert_eq!(parse_i64("-123"), Some(-123));
    assert_eq!(parse_i64("+9"), Some(9));
    assert_eq!(parse_i64("9223372036854775808"), None);
    assert_eq!(parse_i64("-"), None);
    assert_eq!(parse_i64("1a"), None);
    assert_eq!(int_to_string(0), "0");
    assert_eq!(int_to_string(-40), "-40");
    assert!(is_float("1."));
    assert!(is_float(".5e-3"));
    assert!(is_float("-Infinity"));
    assert!(is_float("NaN"));
    assert!(!is_float("."));
    assert!(!is_float("1e"));
    assert!(!is_float("abc"));
}

#[test]
fn file_selection_sections() {
    let files = vec![
        "p/a.unity".to_string(),
        "p/b.unity".to_string(),
        "p/c.asset".to_string(),
    ];
    let project = find_project_files("p", &files);
    let mut sel = FileSelectState::new_file_select(&project);
    assert_eq!(sel.scenes.selected, Some(0));
    assert_eq!(sel.prefabs.selected, None);
    sel.move_down(&project);
    assert_eq!(sel.scenes.selected, Some(1));
    assert_eq!(sel.selected_file(&project), Some("p/b.unity".to_string()));
    sel.move_down(&project);
    assert_eq!(sel.scenes.selected, Some(0));
    sel.next_section(&project);
    assert_eq!(sel.scenes.selected, None);
    assert_eq!(sel.assets.selected, Some(0));
    assert_eq!(sel.selected_file(&project), Some("p/c.asset".to_string()));
    sel.next_section(&project);
    assert_eq!(sel.scenes.selected, Some(0));
    assert_eq!(sel.assets.selected, None);
    sel.prev_section(&project);
    assert_eq!(sel.assets.selected, Some(0));
    sel.move_up(&project);
    assert_eq!(sel.assets.selected, Some(0));
}

#[test]
fn empty_project_selects_nothing() {
    let project = ProjectFiles::new("p");
    let mut sel = FileSelectState::new_file_select(&project);
    assert_eq!(sel.selected_file(&project), None);
    sel.next_section(&project);
    assert_eq!(sel, FileSelectState::new_file_select(&project));
}
