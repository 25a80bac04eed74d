use stellaris_hunter_scan::eligibility::{compute_save_eligibility, EligibilityConclusion, ModChecksumRisk};
use stellaris_hunter_scan::model::{ChecksumScope, LauncherModSummary};
use stellaris_hunter_scan::save::SaveSummary;


fn save(ironman: Option<bool>, cheated_on_save: Option<bool>) -> SaveSummary {
    SaveSummary {
        ironman,
        cheated_on_save,
        ..Default::default()
    }
}

#[test]
fn uncheated_save_without_mods_is_likely_eligible() {
    let result =
        compute_save_eligibility(&save(Some(true), Some(false)), Some(&[]), Some(&[]), &[]);

    assert_eq!(result.conclusion, EligibilityConclusion::LikelyEligible);
    assert_eq!(result.mod_risk, ModChecksumRisk::NoRisk);
}

#[test]
fn cheated_save_is_likely_ineligible() {
    let result =
        compute_save_eligibility(&save(Some(true), Some(true)), Some(&[]), Some(&[]), &[]);

    assert_eq!(result.conclusion, EligibilityConclusion::LikelyIneligible);
}

#[test]
fn non_ironman_save_is_not_globally_ineligible() {
    let result =
        compute_save_eligibility(&save(Some(false), Some(false)), Some(&[]), Some(&[]), &[]);

    assert_eq!(result.conclusion, EligibilityConclusion::LikelyEligible);
    assert!(result
        .warnings
        .iter()
        .any(|warning| warning.contains("not a global achievement blocker")));
}

#[test]
fn enabled_mods_make_eligibility_unknown_until_validated() {
    let enabled_mods = vec![LauncherModSummary {
        name: Some("UI Mod".to_string()),
        ..Default::default()
    }];

    let result = compute_save_eligibility(
        &save(Some(true), Some(false)),
        Some(&enabled_mods),
        Some(&[]),
        &[],
    );

    assert_eq!(result.conclusion, EligibilityConclusion::Unknown);
    assert_eq!(result.mod_risk, ModChecksumRisk::Unknown);
    assert!(result
        .warnings
        .iter()
        .any(|warning| warning.contains("checksum impact is unvalidated")));
}

#[test]
fn missing_cheat_flag_keeps_eligibility_unknown() {
    let result = compute_save_eligibility(&save(Some(true), None), Some(&[]), Some(&[]), &[]);

    assert_eq!(result.conclusion, EligibilityConclusion::Unknown);
}

#[test]
fn unavailable_mod_state_keeps_eligibility_unknown() {
    let result = compute_save_eligibility(&save(Some(true), Some(false)), None, None, &[]);

    assert_eq!(result.conclusion, EligibilityConclusion::Unknown);
    assert_eq!(result.mod_risk, ModChecksumRisk::Unknown);
}

#[test]
fn dlc_load_mods_make_eligibility_unknown_even_without_launcher_mods() {
    let dlc_mods = vec!["mod/alpha.mod".to_string()];

    let result = compute_save_eligibility(
        &save(Some(true), Some(false)),
        Some(&[]),
        Some(&dlc_mods),
        &[],
    );

    assert_eq!(result.conclusion, EligibilityConclusion::Unknown);
    assert_eq!(result.mod_risk, ModChecksumRisk::Unknown);
}

#[test]
fn checksum_scopes_do_not_prove_mod_overlap_without_mod_file_inventory() {
    let checksum_scopes = vec![ChecksumScope {
        directory: Some("common".to_string()),
        patterns: vec!["*.txt".to_string()],
        recursive: true,
        ..Default::default()
    }];

    let result = compute_save_eligibility(
        &save(Some(true), Some(false)),
        Some(&[]),
        Some(&[]),
        &checksum_scopes,
    );

    assert_eq!(result.conclusion, EligibilityConclusion::LikelyEligible);
    assert_eq!(result.mod_risk, ModChecksumRisk::NoRisk);
}

#[test]
fn uncheated_save_without_enabled_mods_is_likely_eligible() {
    let save = save_summary(Some(false), Some(false));

    let eligibility = compute_save_eligibility(&save, Some(&[]), Some(&[]), &[]);

    assert_eq!(
        eligibility.conclusion,
        EligibilityConclusion::LikelyEligible
    );
    assert_eq!(eligibility.mod_risk, ModChecksumRisk::NoRisk);
}

#[test]
fn eligibility_cheated_save_is_likely_ineligible() {
    let save = save_summary(Some(true), Some(true));

    let eligibility = compute_save_eligibility(&save, Some(&[]), Some(&[]), &[]);

    assert_eq!(
        eligibility.conclusion,
        EligibilityConclusion::LikelyIneligible
    );
    assert!(eligibility
        .reasons
        .iter()
        .any(|reason| reason.contains("cheated_on_save=yes")));
}

#[test]
fn enabled_mods_keep_eligibility_unknown_until_checksum_impact_is_validated() {
    let save = save_summary(Some(true), Some(false));
    let mods = vec![LauncherModSummary {
        name: Some("Alpha Mod".to_string()),
        ..Default::default()
    }];

    let eligibility = compute_save_eligibility(&save, Some(&mods), Some(&[]), &[]);

    assert_eq!(eligibility.conclusion, EligibilityConclusion::Unknown);
    assert_eq!(eligibility.mod_risk, ModChecksumRisk::Unknown);
    assert!(eligibility
        .warnings
        .iter()
        .any(|warning| warning.contains("checksum impact is unvalidated")));
}

fn save_summary(ironman: Option<bool>, cheated_on_save: Option<bool>) -> SaveSummary {
    SaveSummary {
        ironman,
        cheated_on_save,
        ..Default::default()
    }
}
