use stellaris_hunter_scan::addresses::fact_address;
use stellaris_hunter_scan::catalog_sync::{plan_catalog_sync, CatalogSyncPlan};
use stellaris_hunter_scan::dlc::{
    dlc_match_keys, launcher_dlc_match_key, local_dlc_lists, run_dlc_info, runs_dlc_info, DlcState,
    LauncherDlcSummary,
};
use stellaris_hunter_scan::eligibility::{runs_eligibility, EligibilityConclusion, ModChecksumRisk};
use stellaris_hunter_scan::icons::{sync_icons_from_steam, IconCache};
use stellaris_hunter_scan::install::{install_summary, parse_checksum_manifest, parse_steam_appid};
use stellaris_hunter_scan::model::{
    AchievementCatalogEntry, AchievementCurationFields, AchievementSourceFields, LauncherModSummary,
    RunAchievementUserStatus, RunFactSummary,
};
use stellaris_hunter_scan::numbers::{decimal_string, numeral_is_minus_one, parse_count};
use stellaris_hunter_scan::planner::{evaluate_planner_achievements, validate_user_status, FactLookup};
use stellaris_hunter_scan::progression::is_positive_numeral;
use stellaris_hunter_scan::save::SaveSummary;
use stellaris_hunter_scan::values::{display_value, fact_values_equal, FactValue};

fn strings(items: &[&str]) -> Vec<String> {
    items.iter().map(|s| s.to_string()).collect()
}

fn run_fact(dimension: &str, key: &str, value: FactValue, confidence: &str) -> RunFactSummary {
    RunFactSummary {
        run_folder_path: "/run".to_string(),
        dimension: dimension.to_string(),
        key: key.to_string(),
        value,
        source: "parsed_save".to_string(),
        confidence: confidence.to_string(),
        updated_from_save_path: None,
        updated_at: "now".to_string(),
        is_override: false,
    }
}

#[test]
fn fact_lookup_keeps_high_confidence_and_the_last_fact() {
    let facts = vec![
        run_fact("empire", "origin", FactValue::Text("origin_first".to_string()), "high"),
        run_fact("empire", "origin", FactValue::Text("origin_second".to_string()), "high"),
        run_fact("empire", "origin", FactValue::Text("origin_low".to_string()), "low"),
    ];
    let lookup = FactLookup::new(&facts);
    match lookup.find("origin") {
        Some(FactValue::Text(s)) => assert_eq!(s, "origin_second"),
        other => panic!("unexpected fact: {other:?}"),
    }
    assert!(lookup.find("ethic").is_none());
    assert!(lookup.find("not_a_dimension").is_none());
}

#[test]
fn fact_addresses() {
    assert_eq!(fact_address("origin"), Some(("empire", "origin")));
    assert_eq!(fact_address("species_class"), Some(("species", "founder_species_class")));
    assert_eq!(fact_address("galatron_captured"), Some(("action", "galatron_captured")));
    assert_eq!(fact_address("fleet_power"), Some(("progression", "fleet_power")));
    assert_eq!(fact_address("not_a_dimension"), None);
}

fn entry(id: &str) -> AchievementCatalogEntry {
    AchievementCatalogEntry {
        id: id.to_string(),
        steam_app_id: 281_990,
        source: AchievementSourceFields { name: id.to_string(), ..Default::default() },
        curation: AchievementCurationFields::default(),
        ..Default::default()
    }
}

fn status(id: &str, s: &str) -> RunAchievementUserStatus {
    RunAchievementUserStatus {
        run_folder_path: "/run".to_string(),
        achievement_id: id.to_string(),
        user_status: s.to_string(),
        notes: None,
        updated_at: "now".to_string(),
    }
}

#[test]
fn planner_orders_completion_then_plan_then_conditions() {
    let evaluations = evaluate_planner_achievements(
        vec![entry("done"), entry("planned"), entry("open")],
        &[],
        &strings(&["done"]),
        &[status("planned", "ignored"), status("planned", "planned"), status("open", "ignored")],
    );
    let statuses: Vec<&str> = evaluations.iter().map(|e| e.status.as_str()).collect();
    assert_eq!(statuses, vec!["Completed", "Planned", "Possible"]);
    assert!(evaluations[1].planned);
    assert!(evaluations[2].ignored);
    assert_eq!(evaluations[2].computed_status, "Possible");
    assert_eq!(
        evaluations[2].reasons,
        vec!["Catalog entry has no curated conditions yet, so no hard blocker is known."]
    );
}

#[test]
fn user_status_values() {
    assert!(validate_user_status(None).is_ok());
    assert!(validate_user_status(Some("planned")).is_ok());
    assert!(validate_user_status(Some("ignored")).is_ok());
    assert_eq!(
        validate_user_status(Some("done")),
        Err("unsupported run achievement status: done".to_string())
    );
}

#[test]
fn dlc_match_keys_are_sorted_and_contain_the_normalized_id() {
    let keys = dlc_match_keys("dlc/dlc028_ancient_relics.dlc");
    assert!(keys.contains(&"dlc028_ancient_relics".to_string()));
    assert!(keys.contains(&"ancient_relics".to_string()));
    let mut sorted = keys.clone();
    sorted.sort();
    sorted.dedup();
    assert_eq!(keys, sorted);
}

#[test]
fn launcher_match_key_prefers_registry_id_then_path() {
    let dlc = LauncherDlcSummary {
        id: Some("ID".to_string()),
        name: Some("Name".to_string()),
        registry_id: None,
        path: Some("dlc/dlc009_plantoids/".to_string()),
        enabled_in_active_playset: Some(true),
    };
    assert_eq!(launcher_dlc_match_key(&dlc), Some("dlc009_plantoids".to_string()));
    let dlc = LauncherDlcSummary { registry_id: Some("DLC014_LEVIATHANS".to_string()), ..dlc };
    assert_eq!(launcher_dlc_match_key(&dlc), Some("dlc014_leviathans".to_string()));
}

#[test]
fn required_dlcs_are_split_by_local_state() {
    let info = run_dlc_info(
        &strings(&["ancient_relics", "dlc009_plantoids", "dlc099_unknown"]),
        &strings(&["dlc028_ancient_relics"]),
        &strings(&["dlc009_plantoids"]),
    );
    assert_eq!(info.enabled_and_required, vec!["ancient_relics"]);
    assert_eq!(info.disabled_but_required, vec!["dlc009_plantoids"]);
    assert_eq!(info.unknown_status_required, vec!["dlc099_unknown"]);
}

#[test]
fn local_lists_merge_dlc_load_and_launcher() {
    let state = DlcState {
        enabled_dlcs: strings(&["dlc014_leviathans"]),
        disabled_dlcs: strings(&["dlc009_plantoids"]),
    };
    let launcher = vec![
        LauncherDlcSummary {
            id: Some("dlc014_leviathans".to_string()),
            name: None,
            registry_id: None,
            path: None,
            enabled_in_active_playset: Some(true),
        },
        LauncherDlcSummary {
            id: Some("dlc028_ancient_relics".to_string()),
            name: None,
            registry_id: None,
            path: None,
            enabled_in_active_playset: Some(true),
        },
        LauncherDlcSummary {
            id: Some("dlc016_synthetic_dawn".to_string()),
            name: None,
            registry_id: None,
            path: None,
            enabled_in_active_playset: Some(false),
        },
    ];
    let (enabled, disabled) = local_dlc_lists(Some(&state), Some(&launcher));
    assert_eq!(enabled, vec!["dlc014_leviathans", "dlc028_ancient_relics"]);
    assert_eq!(disabled, vec!["dlc009_plantoids", "dlc016_synthetic_dawn"]);

    let runs = vec![Some(strings(&["dlc016_synthetic_dawn"])), None];
    let infos = runs_dlc_info(&runs, Some(&state), Some(&launcher));
    assert_eq!(infos.len(), 2);
    let first = infos[0].as_ref().expect("a parsed run gets DLC info");
    assert_eq!(first.disabled_but_required, vec!["dlc016_synthetic_dawn"]);
    assert_eq!(first.all_enabled_dlcs, vec!["dlc014_leviathans", "dlc028_ancient_relics"]);
    assert!(infos[1].is_none());
}

#[test]
fn eligibility_of_runs_ignores_a_launcher_with_issues() {
    let save = SaveSummary { ironman: Some(true), cheated_on_save: Some(false), ..Default::default() };
    let saves = vec![Some(save), None];
    let no_mods: Vec<LauncherModSummary> = vec![];
    let clean = runs_eligibility(&saves, Some(&no_mods), false, Some(&[]), &[]);
    assert_eq!(clean.len(), 2);
    let e = clean[0].as_ref().expect("parsed save");
    assert_eq!(e.conclusion, EligibilityConclusion::LikelyEligible);
    assert_eq!(e.mod_risk, ModChecksumRisk::NoRisk);
    assert!(clean[1].is_none());

    let broken = runs_eligibility(&saves, Some(&no_mods), true, Some(&[]), &[]);
    let e = broken[0].as_ref().expect("parsed save");
    assert_eq!(e.conclusion, EligibilityConclusion::Unknown);
    assert_eq!(e.mod_risk, ModChecksumRisk::Unknown);
}

#[test]
fn catalog_sync_imports_only_newer_catalogs() {
    match plan_catalog_sync(Some("1.0.0"), "1.1.0") {
        CatalogSyncPlan::Import(r) => {
            assert!(r.updated);
            assert_eq!(r.message, "Catalog updated to v1.1.0");
            assert_eq!(r.old_version.as_deref(), Some("1.0.0"));
        }
        other => panic!("unexpected plan: {other:?}"),
    }
    match plan_catalog_sync(Some("1.1.0"), "1.1.0") {
        CatalogSyncPlan::UpToDate(r) => {
            assert!(!r.updated);
            assert_eq!(r.message, "Catalog is up to date (v1.1.0)");
        }
        other => panic!("unexpected plan: {other:?}"),
    }
    match plan_catalog_sync(None, "0.0.1") {
        CatalogSyncPlan::Import(r) => assert_eq!(r.old_version, None),
        other => panic!("unexpected plan: {other:?}"),
    }
}

#[test]
fn install_summary_from_read_files() {
    let settings = FactValue::Object(
        vec![
            ("rawVersion".to_string(), FactValue::Text("v4.0.1".to_string())),
            ("version".to_string(), FactValue::Text("Cetus v4.0.1".to_string())),
        ],
        "{}".to_string(),
    );
    let summary = install_summary(
        "/games/stellaris".to_string(),
        Some(" 281990\n"),
        Some("common *.txt\n# comment\nevents *.txt with subdirectories\n"),
        Some(&settings),
    );
    assert_eq!(summary.root, "/games/stellaris");
    assert_eq!(summary.steam_appid, Some(281990));
    assert_eq!(summary.version.as_deref(), Some("Cetus v4.0.1"));
    assert_eq!(summary.raw_version.as_deref(), Some("v4.0.1"));
    assert_eq!(summary.checksum_manifest.len(), 2);
    assert!(summary.checksum_manifest[1].recursive);
    assert!(summary.issues.is_empty());

    let bare = install_summary("/x".to_string(), None, None, None);
    assert_eq!(bare.issues, vec!["launcher-settings.json missing or unreadable"]);
    assert_eq!(parse_steam_appid("not a number"), None);
    assert!(parse_checksum_manifest("").is_empty());
}

#[test]
fn icon_cache_paths() {
    let cache = IconCache::new("/data");
    assert_eq!(cache.cache_dir, "/data/icons");
    assert_eq!(cache.icon_path("ach_1"), Some("/data/icons/ach_1.png".to_string()));
    assert_eq!(cache.icon_path("../x"), None);
    assert!(sync_icons_from_steam(&cache, &[]).is_err());
}

#[test]
fn numerals() {
    assert_eq!(parse_count("42"), Some(42));
    assert_eq!(parse_count("12.75"), Some(12));
    assert_eq!(parse_count("-3"), Some(0));
    assert_eq!(parse_count("abc"), None);
    assert!(numeral_is_minus_one("-1"));
    assert!(numeral_is_minus_one("-1.000"));
    assert!(!numeral_is_minus_one("-1.5"));
    assert_eq!(decimal_string(0), "0");
    assert_eq!(decimal_string(281990), "281990");
    assert!(is_positive_numeral("0.5"));
    assert!(is_positive_numeral("+3"));
    assert!(!is_positive_numeral("0.000"));
    assert!(!is_positive_numeral("-2"));
    assert!(!is_positive_numeral("x"));
}

#[test]
fn numerals_read_as_f64_text() {
    // Each count is what `text.parse::<f64>()` and `as usize` give.
    for text in [
        "1e3", "1E3", "+2.5e1", "1e-3", ".5e1", "5.", "0.0", "-0.5", "1e400", "-1e400", "inf",
        "-inf", "Infinity", "INF", "NaN", "nan", "-nan", "18446744073709551616", "123e-1",
    ] {
        let expected = text.parse::<f64>().ok().map(|v| v as usize);
        assert_eq!(parse_count(text), expected, "{text}");
    }
    for text in ["1e", "e3", ".", "1e+", "1.2.3", "infinit", "1e3.5", "", "+", "--1", "1_000"] {
        assert!(text.parse::<f64>().is_err(), "{text}");
        assert_eq!(parse_count(text), None, "{text}");
    }
    assert_eq!(parse_count("1e3"), Some(1000));
    assert_eq!(parse_count("inf"), Some(usize::MAX));
    assert_eq!(parse_count("NaN"), Some(0));
    for text in ["-1", "-1e0", "-0.1e1", "-10e-1", "-1.0", "-100e-2"] {
        assert!(numeral_is_minus_one(text), "{text}");
        assert_eq!(text.parse::<f64>().unwrap(), -1.0);
    }
    for text in ["-1.5", "1", "-0.1", "-1e1", "-inf", "nan"] {
        assert!(!numeral_is_minus_one(text), "{text}");
    }
    for text in ["inf", "1e2", "0.001e1", "+Infinity"] {
        assert!(is_positive_numeral(text), "{text}");
        assert!(text.parse::<f64>().unwrap() > 0.0);
    }
    for text in ["0e5", "-inf", "nan", "-1e2", "0.0e-3"] {
        assert!(!is_positive_numeral(text), "{text}");
    }
}

#[test]
fn values_display_and_equality() {
    let list = FactValue::List(vec![FactValue::Text("a".to_string()), FactValue::Bool(true)]);
    assert_eq!(display_value(&list), "a, true");
    assert_eq!(display_value(&FactValue::Null), "null");
    assert!(fact_values_equal(
        &FactValue::Text("ETHIC_X".to_string()),
        &FactValue::Text("ethic_x".to_string())
    ));
    assert!(!fact_values_equal(&FactValue::Bool(true), &FactValue::Text("true".to_string())));
}
