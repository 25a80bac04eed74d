use stellaris_hunter_scan::dlc::{
    classify_dlc_state, normalize_dlc_id, normalize_lowered_dlc_id, normalize_readable_dlc_name,
    readable_key_of_lowered,
};

// ── Unit tests for normalize_dlc_id ───────────────────────────────

#[test]
fn normalizes_dlc_path_with_prefix_and_extension() {
    assert_eq!(
        normalize_dlc_id("dlc/dlc014_leviathans.dlc"),
        "dlc014_leviathans"
    );
}

#[test]
fn normalizes_dlc_path_with_backslash() {
    assert_eq!(
        normalize_dlc_id("dlc\\dlc014_leviathans.dlc"),
        "dlc014_leviathans"
    );
}

#[test]
fn normalizes_short_dlc_id_without_path() {
    assert_eq!(
        normalize_dlc_id("dlc028_ancient_relics"),
        "dlc028_ancient_relics"
    );
}

#[test]
fn normalizes_case_insensitively() {
    assert_eq!(normalize_dlc_id("DLC/DLC_ALPHA.DLC"), "dlc_alpha");
}

#[test]
fn normalizes_save_required_dlc() {
    // Save required_dlcs entries look like "dlc_alpha" or "dlc_beta"
    assert_eq!(normalize_dlc_id("dlc_alpha"), "dlc_alpha");
}

#[test]
fn normalizes_plain_name() {
    // Some DLC entries might not have the dlc_ prefix
    assert_eq!(normalize_dlc_id("leviathans"), "leviathans");
}

#[test]
fn normalizes_trailing_slash_from_dirpath() {
    // Real launcher dirPath values often end with a trailing slash
    assert_eq!(
        normalize_dlc_id("dlc/dlc009_plantoids/"),
        "dlc009_plantoids"
    );
    assert_eq!(
        normalize_dlc_id("dlc/dlc028_ancient_relics/"),
        "dlc028_ancient_relics"
    );
}

#[test]
fn normalizes_trailing_backslash_from_dirpath() {
    assert_eq!(
        normalize_dlc_id("dlc\\dlc009_plantoids\\"),
        "dlc009_plantoids"
    );
}

#[test]
fn normalizes_filename_extracted_from_dirpath() {
    // When only the last path component is passed (e.g., after extracting filename)
    assert_eq!(normalize_dlc_id("dlc009_plantoids/"), "dlc009_plantoids");
}

// ── Unit tests for classify_dlc_state ─────────────────────────────

#[test]
fn classifies_dlc_entries_from_enabled_mods() {
    let enabled_mods: Vec<String> = vec![
        "dlc/dlc014_leviathans.dlc".to_string(),
        "dlc/dlc028_ancient_relics.dlc".to_string(),
        "mod/alpha.mod".to_string(),
        "mod/beta.mod".to_string(),
    ]
    .into_iter()
    .map(String::from)
    .collect();
    let disabled_dlcs: Vec<String> = vec!["dlc009_plantoids".to_string()];

    let state = classify_dlc_state(&enabled_mods, &disabled_dlcs);

    assert_eq!(
        state.enabled_dlcs,
        vec![
            "dlc014_leviathans".to_string(),
            "dlc028_ancient_relics".to_string(),
        ]
    );
    assert_eq!(state.disabled_dlcs, vec!["dlc009_plantoids".to_string()]);
}

#[test]
fn classifies_no_dlc_when_enabled_mods_empty() {
    let enabled_mods: Vec<String> = vec![];
    let disabled_dlcs: Vec<String> = vec![];

    let state = classify_dlc_state(&enabled_mods, &disabled_dlcs);

    assert!(state.enabled_dlcs.is_empty());
    assert!(state.disabled_dlcs.is_empty());
}

#[test]
fn classifies_no_dlc_when_only_mods_present() {
    let enabled_mods: Vec<String> = vec!["mod/alpha.mod".to_string(), "mod/beta.mod".to_string()];
    let disabled_dlcs: Vec<String> = vec![];

    let state = classify_dlc_state(&enabled_mods, &disabled_dlcs);

    assert!(state.enabled_dlcs.is_empty());
    assert!(state.disabled_dlcs.is_empty());
}

#[test]
fn classifies_dlc_with_mixed_case() {
    let enabled_mods: Vec<String> = vec!["DLC/DLC014_LEVIATHANS.DLC".to_string()];
    let disabled_dlcs: Vec<String> = vec!["DLC028_ANCIENT_RELICS".to_string()];

    let state = classify_dlc_state(&enabled_mods, &disabled_dlcs);

    assert_eq!(state.enabled_dlcs, vec!["dlc014_leviathans"]);
    assert_eq!(state.disabled_dlcs, vec!["dlc028_ancient_relics"]);
}

#[test]
fn classifies_dlc_lists_without_duplicates() {
    let enabled_mods: Vec<String> = vec![
        "dlc/dlc014_leviathans.dlc".to_string(),
        "dlc/dlc014_leviathans.dlc".to_string(),
    ];
    let disabled_dlcs: Vec<String> = vec![
        "dlc009_plantoids".to_string(),
        "dlc009_plantoids".to_string(),
    ];

    let state = classify_dlc_state(&enabled_mods, &disabled_dlcs);

    assert_eq!(state.enabled_dlcs, vec!["dlc014_leviathans"]);
    assert_eq!(state.disabled_dlcs, vec!["dlc009_plantoids"]);
}


#[test]
fn lowered_dlc_ids_and_readable_names() {
    assert_eq!(normalize_lowered_dlc_id("dlc/dlc014_leviathans.dlc"), "dlc014_leviathans");
    assert_eq!(normalize_lowered_dlc_id("DLC/X.dlc"), "DLC");
    assert_eq!(normalize_dlc_id("DLC/X.dlc"), "x");
    assert_eq!(readable_key_of_lowered("ancient relics story pack"), "ancient_relics");
    assert_eq!(readable_key_of_lowered("Ancient Relics"), "Ancient_Relics");
    assert_eq!(normalize_readable_dlc_name("Ancient Relics Story Pack"), "ancient_relics");
}
