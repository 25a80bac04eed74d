//! The data model shared by the planner, the catalog and the scans.
use vstd::prelude::*;
use crate::values::FactValue;

verus! {

/// The text fields of a catalog achievement, as the source lists them.
#[derive(Debug, Default)]
pub struct AchievementSourceFields {
    pub name: String,
    pub description: Option<String>,
    pub requirement: Option<String>,
    pub hint: Option<String>,
    pub group: Option<String>,
    pub version_added: Option<String>,
    pub difficulty: Option<String>,
}

/// A curated condition of an achievement.
#[derive(Debug, Default)]
pub struct AchievementCondition {
    pub condition_type: String,
    pub dimension: String,
    pub operator: String,
    pub value: FactValue,
    pub timing: String,
    pub mutability: String,
    pub severity: String,
    pub source: Option<String>,
    pub notes: Option<String>,
    pub children: Vec<AchievementCondition>,
}

/// What curators added to an achievement: tags, conditions and notes.
#[derive(Debug, Default)]
pub struct AchievementCurationFields {
    pub tags: Vec<String>,
    pub conditions: Vec<AchievementCondition>,
    pub warnings: Vec<String>,
    pub planner_notes: Option<String>,
    pub known_limitations: Vec<String>,
    pub rule_confidence: Option<String>,
}

/// One achievement of the catalog.
#[derive(Debug, Default)]
pub struct AchievementCatalogEntry {
    pub id: String,
    pub steam_app_id: u32,
    pub steam_api_name: Option<String>,
    pub local_key: Option<String>,
    pub deprecated: bool,
    pub source: AchievementSourceFields,
    pub curation: AchievementCurationFields,
    /// Whether the achievement is completed (from Steam or a manual override).
    pub completed: bool,
}

/// A fact recorded for a run.
#[derive(Debug, Default)]
pub struct RunFactSummary {
    pub run_folder_path: String,
    pub dimension: String,
    pub key: String,
    pub value: FactValue,
    pub source: String,
    pub confidence: String,
    pub updated_from_save_path: Option<String>,
    pub updated_at: String,
    pub is_override: bool,
}

/// A status the user set on an achievement for a run.
#[derive(Debug, Clone, Default)]
pub struct RunAchievementUserStatus {
    pub run_folder_path: String,
    pub achievement_id: String,
    pub user_status: String,
    pub notes: Option<String>,
    pub updated_at: String,
}

/// How one condition fared against the run's facts.
#[derive(Debug, Default)]
pub struct ConditionEvaluation {
    pub dimension: String,
    pub operator: String,
    pub condition_value: FactValue,
    pub fact_value: Option<FactValue>,
    pub passed: Option<bool>,
    pub severity: String,
    pub timing: String,
    pub mutability: String,
    pub reason: String,
    pub children: Vec<ConditionEvaluation>,
}

/// The planner's verdict on one achievement.
#[derive(Debug, Default)]
pub struct PlannerAchievementEvaluation {
    pub achievement: AchievementCatalogEntry,
    pub status: String,
    pub computed_status: String,
    pub planned: bool,
    pub ignored: bool,
    pub reasons: Vec<String>,
    pub warnings: Vec<String>,
    pub conditions: Vec<ConditionEvaluation>,
}

/// One line of the game's checksum manifest: a directory and the file
/// patterns in it that count towards the checksum.
#[derive(Debug, Default)]
pub struct ChecksumScope {
    pub raw: String,
    pub directory: Option<String>,
    pub patterns: Vec<String>,
    pub recursive: bool,
}

/// A mod enabled in the active launcher playset.
#[derive(Debug, Default)]
pub struct LauncherModSummary {
    pub position: Option<i64>,
    pub id: Option<String>,
    pub name: Option<String>,
    pub registry_id: Option<String>,
    pub path: Option<String>,
}

} // verus!
