use stellaris_hunter_scan::documents::{
    enabled_mods_from_rows, group_saves_by_run, normalize_string_list, order_saves_by_preference,
    ListItem, ListSource, PlaysetModRow, SaveStamp,
};
use stellaris_hunter_scan::model::LauncherModSummary;
use stellaris_hunter_scan::values::FactValue;

fn stamp(name: &str, modified: Option<i128>) -> SaveStamp {
    SaveStamp { file_name: Some(name.to_string()), modified }
}

#[test]
fn saves_are_ordered_newest_first() {
    let files = vec![
        stamp("autosave_1.sav", Some(100)),
        stamp("autosave_2.sav", Some(300)),
        stamp("autosave_3.sav", Some(200)),
    ];
    assert_eq!(order_saves_by_preference(&files), vec![1, 2, 0]);
}

#[test]
fn ironman_save_comes_first_whatever_its_age() {
    let files = vec![
        stamp("autosave_1.sav", Some(500)),
        stamp("ironman.sav", Some(10)),
        stamp("autosave_2.sav", Some(300)),
    ];
    assert_eq!(order_saves_by_preference(&files), vec![1, 0, 2]);
}

#[test]
fn saves_of_equal_or_unknown_age_keep_reverse_listing_order() {
    let files = vec![
        stamp("a.sav", None),
        stamp("b.sav", Some(7)),
        stamp("c.sav", Some(7)),
        stamp("d.sav", None),
    ];
    // Ascending with the unknown times first, then reversed.
    assert_eq!(order_saves_by_preference(&files), vec![2, 1, 3, 0]);
}

#[test]
fn newest_of_several_ironman_saves_comes_first() {
    let files = vec![
        stamp("ironman.sav", Some(1)),
        stamp("x.sav", Some(50)),
        stamp("ironman.sav", Some(9)),
    ];
    assert_eq!(order_saves_by_preference(&files), vec![2, 1, 0]);
    assert!(order_saves_by_preference(&[]).is_empty());
}

#[test]
fn saves_are_grouped_by_run_folder() {
    let folders: Vec<String> = ["run_b", "run_a", "run_b", "run_c", "run_a"]
        .iter()
        .map(|s| s.to_string())
        .collect();
    let groups = group_saves_by_run(&folders);
    let view: Vec<(&str, Vec<usize>)> = groups.iter().map(|(k, v)| (k.as_str(), v.clone())).collect();
    assert_eq!(
        view,
        vec![("run_a", vec![1, 4]), ("run_b", vec![0, 2]), ("run_c", vec![3])]
    );
    assert!(group_saves_by_run(&[]).is_empty());
}

#[test]
fn string_list_of_an_array() {
    let items = ListSource::Array(vec![
        ListItem::Text("mod/alpha.mod".to_string()),
        ListItem::Text(String::new()),
        ListItem::Object(vec![
            ("id".to_string(), FactValue::Text("by-id".to_string())),
            ("name".to_string(), FactValue::Text("by-name".to_string())),
        ]),
        ListItem::Object(vec![("path".to_string(), FactValue::Bool(true))]),
        ListItem::Other("42".to_string()),
    ]);
    assert_eq!(normalize_string_list(&items), vec!["mod/alpha.mod", "by-name", "42"]);
}

#[test]
fn string_list_of_an_object_and_of_other_values() {
    let object = ListSource::Object(vec![
        ("a".to_string(), FactValue::Text("first".to_string())),
        ("b".to_string(), FactValue::Null),
        ("c".to_string(), FactValue::Text(String::new())),
    ]);
    assert_eq!(normalize_string_list(&object), vec!["first", ""]);
    assert!(normalize_string_list(&ListSource::Other).is_empty());
}

fn row(enabled: Option<i64>, playset: Option<&str>, mod_id: Option<&str>, position: Option<i64>) -> PlaysetModRow {
    PlaysetModRow {
        enabled,
        playset_key: playset.map(|s| s.to_string()),
        mod_id: mod_id.map(|s| s.to_string()),
        position,
    }
}

fn catalog_mod(id: &str, name: &str) -> LauncherModSummary {
    LauncherModSummary {
        position: None,
        id: Some(id.to_string()),
        name: Some(name.to_string()),
        registry_id: None,
        path: Some(format!("mod/{id}")),
    }
}

#[test]
fn enabled_mods_of_the_active_playset() {
    let rows = vec![
        row(Some(1), Some("active"), Some("m1"), Some(0)),
        row(Some(0), Some("active"), Some("m2"), Some(1)),
        row(None, Some("other"), Some("m3"), Some(2)),
        row(None, None, Some("m4"), Some(3)),
        row(Some(1), Some("active"), Some("unknown"), Some(4)),
    ];
    let catalog = vec![catalog_mod("m1", "Old"), catalog_mod("m4", "Four"), catalog_mod("m1", "One")];
    let mods = enabled_mods_from_rows(&rows, Some("active"), &catalog);
    let ids: Vec<Option<&str>> = mods.iter().map(|m| m.id.as_deref()).collect();
    assert_eq!(ids, vec![Some("m1"), Some("m4"), Some("unknown")]);
    assert_eq!(mods[0].name.as_deref(), Some("One"));
    assert_eq!(mods[0].position, Some(0));
    assert_eq!(mods[1].path.as_deref(), Some("mod/m4"));
    assert_eq!(mods[2].name, None);
    assert_eq!(mods[2].position, Some(4));

    let all = enabled_mods_from_rows(&rows, None, &catalog);
    assert_eq!(all.len(), 4);
}
