use stellaris_hunter_scan::catalog::{
    sort_catalog_rows, CatalogRowInput,
    check_catalog_row, collapse_hyphens, ids_to_deprecate, is_semver_catalog_version,
    normalize_catalog, normalize_required_slug, normalize_required_snake, prepare_catalog,
    validate_catalog, AchievementCatalog, CatalogError,
};
use stellaris_hunter_scan::model::{
    AchievementCatalogEntry, AchievementCondition, AchievementCurationFields, AchievementSourceFields,
};
use stellaris_hunter_scan::values::FactValue;

fn condition() -> AchievementCondition {
    AchievementCondition {
        condition_type: "required".to_string(),
        dimension: "species_class".to_string(),
        operator: "equals".to_string(),
        value: FactValue::Text("LITH".to_string()),
        timing: "setup".to_string(),
        mutability: "immutable".to_string(),
        severity: "hard".to_string(),
        source: Some(" wiki ".to_string()),
        notes: Some("   ".to_string()),
        children: vec![],
    }
}

fn entry(id: &str) -> AchievementCatalogEntry {
    AchievementCatalogEntry {
        id: id.to_string(),
        steam_app_id: 281_990,
        steam_api_name: Some(format!("achievement_{id}")),
        local_key: None,
        deprecated: false,
        source: AchievementSourceFields {
            name: "Some Achievement".to_string(),
            difficulty: Some("M".to_string()),
            ..Default::default()
        },
        curation: AchievementCurationFields {
            tags: vec!["lithoid".to_string(), "galactic-community".to_string()],
            conditions: vec![condition()],
            ..Default::default()
        },
        completed: false,
    }
}

fn catalog() -> AchievementCatalog {
    AchievementCatalog {
        catalog_version: "1.0.0".to_string(),
        snapshot_kind: "full".to_string(),
        stellaris_version: Some("4.0".to_string()),
        source_url: None,
        source_hash: None,
        updated_at: "2024-06-01T00:00:00Z".to_string(),
        achievements: vec![entry("rock_beats_paper"), entry("humble_pie")],
    }
}

fn message(r: Result<AchievementCatalog, CatalogError>) -> String {
    match r {
        Err(CatalogError::Parse(m)) => m,
        Ok(_) => panic!("the catalog should have been refused"),
    }
}

const SLUG_RULE: &str = "must contain only lowercase letters, digits, and hyphens after normalization";

#[test]
fn catalog_prepares_valid_snapshot() {
    let prepared = prepare_catalog(catalog()).expect("a well formed catalog is accepted");
    assert_eq!(prepared.catalog_version, "1.0.0");
    assert_eq!(prepared.snapshot_kind, "full");
    assert_eq!(prepared.achievements.len(), 2);
    assert_eq!(prepared.achievements[0].id, "rock_beats_paper");
    assert_eq!(
        prepared.achievements[0].steam_api_name.as_deref(),
        Some("achievement_rock_beats_paper")
    );
    let c = &prepared.achievements[0].curation.conditions[0];
    assert_eq!(c.source.as_deref(), Some("wiki"));
    assert_eq!(c.notes, None);
}

#[test]
fn catalog_trims_snapshot_kind_before_checking_it() {
    let mut c = catalog();
    c.snapshot_kind = "  full ".to_string();
    let prepared = prepare_catalog(c).expect("the kind is trimmed");
    assert_eq!(prepared.snapshot_kind, "full");
}

#[test]
fn catalog_rejects_blank_snapshot_kind() {
    let mut c = catalog();
    c.snapshot_kind = "  ".to_string();
    assert_eq!(message(prepare_catalog(c)), "snapshot_kind must not be empty");
}

#[test]
fn catalog_rejects_partial_snapshot() {
    let mut c = catalog();
    c.snapshot_kind = "partial".to_string();
    assert_eq!(
        message(prepare_catalog(c)),
        "unsupported snapshot_kind partial; only full catalog snapshots can be imported"
    );
}

#[test]
fn catalog_rejects_tag_with_punctuation() {
    let mut c = catalog();
    c.achievements[0].curation.tags[0] = "lithoid!".to_string();
    assert_eq!(
        message(prepare_catalog(c)),
        format!("achievement.curation.tags[] {SLUG_RULE}")
    );
}

#[test]
fn catalog_rejects_tag_with_non_ascii_letter() {
    let mut c = catalog();
    c.achievements[1].curation.tags[1] = "lithoïd".to_string();
    assert_eq!(
        message(prepare_catalog(c)),
        format!("achievement.curation.tags[] {SLUG_RULE}")
    );
}

#[test]
fn catalog_rejects_condition_key_with_punctuation() {
    let mut c = catalog();
    c.achievements[0].curation.conditions[0].dimension = "species_class!".to_string();
    assert_eq!(
        message(prepare_catalog(c)),
        format!("condition.dimension {SLUG_RULE}")
    );
}

#[test]
fn catalog_rejects_blank_condition_key() {
    let mut c = catalog();
    c.achievements[0].curation.conditions[0].operator = " - ".to_string();
    assert_eq!(
        message(prepare_catalog(c)),
        "condition.operator must not be empty"
    );
}

#[test]
fn catalog_rejects_whitespace_only_id() {
    let mut c = catalog();
    c.achievements[0].id = "   ".to_string();
    assert_eq!(message(prepare_catalog(c)), "achievement.id must not be empty");
}

#[test]
fn catalog_rejects_duplicate_ids() {
    let mut c = catalog();
    c.achievements[1].id = "rock_beats_paper".to_string();
    assert_eq!(
        message(prepare_catalog(c)),
        "duplicate achievement id in catalog: rock_beats_paper"
    );
}

#[test]
fn catalog_rejects_ids_equal_after_trimming() {
    let mut c = catalog();
    c.achievements[1].id = " rock_beats_paper ".to_string();
    assert_eq!(
        message(prepare_catalog(c)),
        "duplicate achievement id in catalog: rock_beats_paper"
    );
}

#[test]
fn catalog_rejects_unsupported_difficulty() {
    let mut c = catalog();
    c.achievements[0].source.difficulty = Some("BAD".to_string());
    assert_eq!(
        message(prepare_catalog(c)),
        "achievement rock_beats_paper has unsupported difficulty BAD"
    );
}

#[test]
fn catalog_accepts_every_supported_difficulty() {
    for d in ["VE", "E", "M", "H", "VH", "I", "UC"] {
        let mut c = catalog();
        c.achievements[0].source.difficulty = Some(d.to_string());
        assert!(prepare_catalog(c).is_ok(), "difficulty {d} is supported");
    }
    let mut c = catalog();
    c.achievements[0].source.difficulty = None;
    assert!(prepare_catalog(c).is_ok());
}

#[test]
fn catalog_rejects_foreign_steam_app_id() {
    let mut c = catalog();
    c.achievements[1].steam_app_id = 1234;
    assert_eq!(
        message(prepare_catalog(c)),
        "achievement humble_pie has unsupported steam_app_id 1234"
    );
}

#[test]
fn catalog_rejects_blank_source_name() {
    let mut c = catalog();
    c.achievements[1].source.name = " ".to_string();
    assert_eq!(
        message(prepare_catalog(c)),
        "achievement.source.name must not be empty"
    );
}

#[test]
fn catalog_rejects_empty_achievement_list() {
    let mut c = catalog();
    c.achievements.clear();
    assert_eq!(
        message(prepare_catalog(c)),
        "catalog must contain at least one achievement"
    );
}

#[test]
fn catalog_rejects_blank_updated_at() {
    let mut c = catalog();
    c.updated_at = "\t".to_string();
    assert_eq!(message(prepare_catalog(c)), "updated_at must not be empty");
}

#[test]
fn catalog_rejects_non_semver_version() {
    let mut c = catalog();
    c.catalog_version = "v1".to_string();
    assert_eq!(
        message(prepare_catalog(c)),
        "catalog_version must use MAJOR.MINOR.PATCH digits: v1"
    );
    let mut c = catalog();
    c.catalog_version = " ".to_string();
    assert_eq!(message(prepare_catalog(c)), "catalog_version must not be empty");
}

#[test]
fn catalog_normalizes_tags_and_condition_keys() {
    let mut c = catalog();
    c.achievements[0].curation.tags = vec![
        " Lithoid ".to_string(),
        "galactic community".to_string(),
        "lithoid".to_string(),
    ];
    c.achievements[0].curation.conditions[0].dimension = "Species Class".to_string();
    c.achievements[0].curation.conditions[0].mutability = "Immutable".to_string();
    c.achievements[0].curation.conditions[0].condition_type = "Hard-Blocker".to_string();

    let prepared = prepare_catalog(c).expect("normalizable values are accepted");
    let e = &prepared.achievements[0];
    assert_eq!(e.curation.tags, vec!["lithoid", "galactic-community"]);
    assert_eq!(e.curation.conditions[0].dimension, "species_class");
    assert_eq!(e.curation.conditions[0].mutability, "immutable");
    assert_eq!(e.curation.conditions[0].condition_type, "hard_blocker");
}

#[test]
fn normalize_catalog_keeps_entries_in_order() {
    let n = normalize_catalog(catalog()).expect("normalizes");
    let ids: Vec<&str> = n.achievements.iter().map(|e| e.id.as_str()).collect();
    assert_eq!(ids, vec!["rock_beats_paper", "humble_pie"]);
}

#[test]
fn validate_catalog_reports_the_first_bad_entry() {
    let mut c = catalog();
    c.achievements[0].source.difficulty = Some("X".to_string());
    c.achievements[1].steam_app_id = 7;
    match validate_catalog(&c) {
        Err(CatalogError::Parse(m)) => {
            assert_eq!(m, "achievement rock_beats_paper has unsupported difficulty X")
        }
        Ok(()) => panic!("the catalog should have been refused"),
    }
}

#[test]
fn semver_catalog_versions() {
    assert!(is_semver_catalog_version("1.0.0"));
    assert!(is_semver_catalog_version("10.20.30"));
    assert!(is_semver_catalog_version("01.0.0"));
    assert!(!is_semver_catalog_version("1.0"));
    assert!(!is_semver_catalog_version("1..0"));
    assert!(!is_semver_catalog_version(".1.2"));
    assert!(!is_semver_catalog_version("1.2."));
    assert!(!is_semver_catalog_version("1.0.0.0"));
    assert!(!is_semver_catalog_version("a.b.c"));
    assert!(!is_semver_catalog_version("1.0.0-beta"));
    assert!(!is_semver_catalog_version(""));
}

#[test]
fn slug_normalization() {
    assert_eq!(collapse_hyphens("--a---b--"), "a-b");
    assert_eq!(collapse_hyphens("plain"), "plain");
    assert_eq!(collapse_hyphens("---"), "");
    match normalize_required_slug("tag", " Foo/Bar_baz  qux ") {
        Ok(s) => assert_eq!(s, "foo-bar-baz-qux"),
        Err(_) => panic!("should normalize"),
    }
    match normalize_required_snake("key", "Timing-Window") {
        Ok(s) => assert_eq!(s, "timing_window"),
        Err(_) => panic!("should normalize"),
    }
    match normalize_required_slug("tag", " / ") {
        Err(CatalogError::Parse(m)) => assert_eq!(m, "tag must not be empty"),
        Ok(_) => panic!("should be refused"),
    }
}

#[test]
fn full_snapshot_deprecates_the_achievements_it_does_not_list() {
    let existing: Vec<String> = ["a", "b", "c", "d"].iter().map(|s| s.to_string()).collect();
    let active: Vec<String> = ["d", "b", "e"].iter().map(|s| s.to_string()).collect();
    assert_eq!(ids_to_deprecate(&existing, &active), vec!["a", "c"]);
    assert!(ids_to_deprecate(&existing, &existing).is_empty());
    assert!(ids_to_deprecate(&[], &active).is_empty());
}

#[test]
fn stored_rows_are_checked_again_in_order() {
    let mut ids: Vec<String> = Vec::new();
    let mut first = entry(" rock_beats_paper ");
    first.curation.tags = vec!["Lithoid".to_string(), "lithoid".to_string()];
    let ok = check_catalog_row(first, &mut ids).expect("a valid row passes");
    assert_eq!(ok.id, "rock_beats_paper");
    assert_eq!(ok.curation.tags, vec!["lithoid"]);
    assert_eq!(ids, vec!["rock_beats_paper"]);

    let again = check_catalog_row(entry("rock_beats_paper"), &mut ids);
    assert_eq!(
        again.err(),
        Some(
            "catalog row rock_beats_paper has invalid catalog data: duplicate achievement id in catalog: rock_beats_paper"
                .to_string()
        )
    );

    let mut bad_tag = entry(" humble_pie ");
    bad_tag.curation.tags = vec!["-".to_string()];
    assert_eq!(
        check_catalog_row(bad_tag, &mut ids).err(),
        Some(format!(
            "catalog row humble_pie has invalid catalog data: achievement.curation.tags[] must not be empty"
        ))
    );
    assert_eq!(ids, vec!["rock_beats_paper"]);
}

#[test]
fn rejects_tags_with_punctuation_or_non_ascii() {
    let mut c = catalog();
    c.achievements[0].curation.tags = vec!["lithoid!".to_string(), "galactic-community".to_string()];
    let error = message(prepare_catalog(c));
    assert!(error.contains("achievement.curation.tags[]"), "unexpected error: {error}");
}

#[test]
fn rejects_condition_keys_with_punctuation() {
    let mut c = catalog();
    c.achievements[0].curation.conditions[0].dimension = "species_class!".to_string();
    let error = message(prepare_catalog(c));
    assert!(error.contains("condition.dimension"), "unexpected error: {error}");
}

#[test]
fn rejects_whitespace_only_required_text() {
    let mut c = catalog();
    c.achievements[0].id = "   ".to_string();
    let error = message(prepare_catalog(c));
    assert!(error.contains("achievement.id"), "unexpected error: {error}");
}

#[test]
fn rejects_duplicate_achievement_ids() {
    let mut c = catalog();
    c.achievements[1] = entry("rock_beats_paper");
    let error = message(prepare_catalog(c));
    assert!(error.contains("duplicate achievement id"), "unexpected error: {error}");
}

#[test]
fn rejects_unsupported_difficulty() {
    let mut c = catalog();
    c.achievements[0].source.difficulty = Some("BAD".to_string());
    let error = message(prepare_catalog(c));
    assert!(error.contains("unsupported difficulty"), "unexpected error: {error}");
}

#[test]
fn normalizes_tags_and_condition_keys() {
    let mut c = catalog();
    c.achievements[0].curation.tags = vec![
        " Lithoid ".to_string(),
        "galactic community".to_string(),
        "lithoid".to_string(),
    ];
    c.achievements[0].curation.conditions[0].dimension = "Species Class".to_string();
    c.achievements[0].curation.conditions[0].mutability = "Immutable".to_string();

    let prepared = prepare_catalog(c).expect("normalizable values should parse");
    let e = &prepared.achievements[0];
    assert_eq!(e.curation.tags, vec!["lithoid", "galactic-community"]);
    assert_eq!(e.curation.conditions[0].dimension, "species_class");
    assert_eq!(e.curation.conditions[0].mutability, "immutable");
}

#[test]
fn rejects_non_semver_catalog_version() {
    let mut c = catalog();
    c.catalog_version = "v1".to_string();
    let error = message(prepare_catalog(c));
    assert!(error.contains("catalog_version"), "unexpected error: {error}");
}

#[test]
fn full_snapshot_import_marks_missing_existing_achievements_deprecated() {
    let full = prepare_catalog(catalog()).expect("fixture should be accepted");
    let stored: Vec<String> = full.achievements.iter().map(|e| e.id.clone()).collect();
    let mut reduced = catalog();
    reduced.achievements.retain(|e| e.id == "rock_beats_paper");
    let reduced = prepare_catalog(reduced).expect("reduced snapshot should be accepted");
    let active: Vec<String> = reduced.achievements.iter().map(|e| e.id.clone()).collect();

    let deprecated = ids_to_deprecate(&stored, &active);
    assert!(deprecated.contains(&"humble_pie".to_string()));
    assert!(!deprecated.contains(&"rock_beats_paper".to_string()));
}

#[test]
fn load_catalog_entries_with_issues_skips_semantically_invalid_rows() {
    let mut ids: Vec<String> = Vec::new();
    let mut entries = Vec::new();
    let mut issues = Vec::new();
    let mut humble = entry("humble_pie");
    humble.source.name = "Humble Pie".to_string();
    humble.source.difficulty = Some("BAD".to_string());
    for row in [entry("rock_beats_paper"), humble] {
        match check_catalog_row(row, &mut ids) {
            Ok(e) => entries.push(e),
            Err(issue) => issues.push(issue),
        }
    }

    assert_eq!(entries.len(), 1);
    assert!(entries.iter().any(|e| e.id == "rock_beats_paper"));
    assert_eq!(issues.len(), 1);
    assert!(issues[0].contains("humble_pie"), "unexpected issue: {:?}", issues);
    assert!(issues[0].contains("unsupported difficulty"), "unexpected issue: {:?}", issues);
}

#[test]
fn stored_rows_are_sorted_into_entries_and_issues() {
    let mut bad = entry("humble_pie");
    bad.source.difficulty = Some("BAD".to_string());
    let rows = vec![
        CatalogRowInput::BadId("invalid column type".to_string()),
        CatalogRowInput::Decoded(entry(" rock_beats_paper ")),
        CatalogRowInput::BadColumn(
            "broken".to_string(),
            "curation_json".to_string(),
            "expected value at line 1".to_string(),
        ),
        CatalogRowInput::Decoded(bad),
        CatalogRowInput::Decoded(entry("rock_beats_paper")),
        CatalogRowInput::Decoded(entry("humble_pie")),
    ];
    let (entries, issues) = sort_catalog_rows(rows);
    let ids: Vec<&str> = entries.iter().map(|e| e.id.as_str()).collect();
    // The refused humble_pie row still records its id, so the later one is
    // a duplicate.
    assert_eq!(ids, vec!["rock_beats_paper"]);
    assert_eq!(
        issues,
        vec![
            "catalog row with unknown achievement id has invalid id column: invalid column type".to_string(),
            "catalog row broken has invalid curation_json: expected value at line 1".to_string(),
            "catalog row humble_pie has invalid catalog data: achievement humble_pie has unsupported difficulty BAD".to_string(),
            "catalog row rock_beats_paper has invalid catalog data: duplicate achievement id in catalog: rock_beats_paper".to_string(),
            "catalog row humble_pie has invalid catalog data: duplicate achievement id in catalog: humble_pie".to_string(),
        ]
    );
}
