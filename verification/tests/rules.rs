use stellaris_hunter_scan::model::{
    AchievementCatalogEntry, AchievementCondition, AchievementCurationFields, AchievementSourceFields,
    RunFactSummary,
};
use stellaris_hunter_scan::planner::{evaluate_achievement, evaluate_operator, FactLookup};
use stellaris_hunter_scan::values::{FactValue, JsonNumber};

const STATUS_COMPLETED: &str = "Completed";
const STATUS_POSSIBLE: &str = "Possible";
const STATUS_INCOMPATIBLE: &str = "Incompatible";
const STATUS_IMPOSSIBLE: &str = "Impossible";
const STATUS_UNKNOWN: &str = "Unknown";

fn text(s: &str) -> FactValue {
    FactValue::Text(s.to_string())
}

fn list(items: Vec<FactValue>) -> FactValue {
    FactValue::List(items)
}

/// A JSON integer, with the decimal form and order key of its value as a
/// double.
fn json_int(n: i64) -> FactValue {
    let x = n as f64;
    let x = if x == 0.0 { 0.0 } else { x };
    let bits = x.to_bits();
    let order_key = if bits >> 63 == 1 { !bits } else { bits | (1u64 << 63) };
    FactValue::Number(JsonNumber {
        text: n.to_string(),
        float_text: format!("{}", x),
        order_key,
    })
}



#[test]
fn immutable_setup_blocker_is_impossible() {
    let result = evaluate_achievement(
        achievement_with_condition(AchievementCondition {
            condition_type: "required".to_string(),
            dimension: "species_class".to_string(),
            operator: "equals".to_string(),
            value: text("LITH"),
            timing: "setup".to_string(),
            mutability: "immutable".to_string(),
            severity: "hard".to_string(),
            source: None,
            notes: None,
            children: vec![],
        }),
        &FactLookup::new(&[fact("species", "founder_species_class", text("HUM"))]),
        false,
        None,
    );

    assert_eq!(result.status, STATUS_IMPOSSIBLE);
    assert_eq!(result.computed_status, STATUS_IMPOSSIBLE);
    assert_eq!(result.conditions[0].passed, Some(false));
    assert!(result.reasons[0].contains("immutable hard blocker"));
}

#[test]
fn missing_supported_fact_is_unknown() {
    let result = evaluate_achievement(
        achievement_with_condition(AchievementCondition {
            condition_type: "required".to_string(),
            dimension: "origin".to_string(),
            operator: "equals".to_string(),
            value: text("origin_shattered_ring"),
            timing: "setup".to_string(),
            mutability: "immutable".to_string(),
            severity: "hard".to_string(),
            source: None,
            notes: None,
            children: vec![],
        }),
        &FactLookup::new(&[]),
        false,
        None,
    );

    assert_eq!(result.status, STATUS_UNKNOWN);
    assert_eq!(result.conditions[0].passed, None);
    assert!(result.reasons[0].contains("origin is unknown"));
}

#[test]
fn completed_status_wins_over_planned() {
    let result = evaluate_achievement(
        achievement_with_condition(AchievementCondition {
            condition_type: "required".to_string(),
            dimension: "ethic".to_string(),
            operator: "contains".to_string(),
            value: text("ethic_xenophile"),
            timing: "setup".to_string(),
            mutability: "slow_change".to_string(),
            severity: "hard".to_string(),
            source: None,
            notes: None,
            children: vec![],
        }),
        &FactLookup::new(&[fact("empire", "ethics", list(vec![text("ethic_xenophobe")]))]),
        true,
        Some("planned"),
    );

    assert_eq!(result.status, STATUS_COMPLETED);
    assert_eq!(result.computed_status, STATUS_INCOMPATIBLE);
    assert!(result.planned);
}

#[test]
fn supported_conditions_can_be_possible() {
    let result = evaluate_achievement(
        achievement_with_condition(AchievementCondition {
            condition_type: "required".to_string(),
            dimension: "ethic".to_string(),
            operator: "contains".to_string(),
            value: text("ethic_xenophile"),
            timing: "setup".to_string(),
            mutability: "slow_change".to_string(),
            severity: "hard".to_string(),
            source: None,
            notes: None,
            children: vec![],
        }),
        &FactLookup::new(&[fact("empire", "ethics", list(vec![text("ethic_xenophile")]))]),
        false,
        None,
    );

    assert_eq!(result.status, STATUS_POSSIBLE);
    assert_eq!(result.conditions[0].passed, Some(true));
}

#[test]
fn mutable_hard_failure_is_incompatible_not_impossible() {
    let result = evaluate_achievement(
        achievement_with_condition(AchievementCondition {
            condition_type: "required".to_string(),
            dimension: "ethic".to_string(),
            operator: "contains".to_string(),
            value: text("ethic_xenophile"),
            timing: "current".to_string(),
            mutability: "normal_change".to_string(),
            severity: "hard".to_string(),
            source: None,
            notes: None,
            children: vec![],
        }),
        &FactLookup::new(&[fact("empire", "ethics", list(vec![text("ethic_xenophobe")]))]),
        false,
        None,
    );

    assert_eq!(result.status, STATUS_INCOMPATIBLE);
    assert_eq!(result.conditions[0].passed, Some(false));
}

#[test]
fn numeric_operators_are_supported() {
    let at_least = evaluate_operator("at_least", &json_int(10), &json_int(10));
    let greater_than = evaluate_operator("greater_than", &json_int(11), &json_int(10));
    let equal_is_not_greater_than = evaluate_operator("greater_than", &json_int(10), &json_int(10));

    assert_eq!(at_least.0, Some(true));
    assert_eq!(greater_than.0, Some(true));
    assert_eq!(equal_is_not_greater_than.0, Some(false));
}

#[test]
fn less_than_operator() {
    let less = evaluate_operator("less_than", &json_int(5), &json_int(10));
    let equal = evaluate_operator("less_than", &json_int(10), &json_int(10));
    let greater = evaluate_operator("less_than", &json_int(15), &json_int(10));

    assert_eq!(less.0, Some(true));
    assert_eq!(equal.0, Some(false));
    assert_eq!(greater.0, Some(false));
}

#[test]
fn not_equals_operator() {
    let different = evaluate_operator(
        "not_equals",
        &text("ethic_xenophile"),
        &text("ethic_xenophobe"),
    );
    let same = evaluate_operator(
        "not_equals",
        &text("ethic_xenophile"),
        &text("ethic_xenophile"),
    );

    assert_eq!(different.0, Some(true));
    assert_eq!(same.0, Some(false));
}

#[test]
fn not_equals_is_case_insensitive() {
    let result = evaluate_operator(
        "not_equals",
        &text("ETHIC_XENOPHILE"),
        &text("ethic_xenophile"),
    );
    assert_eq!(result.0, Some(false));
}

#[test]
fn less_than_with_non_numeric_values() {
    let result = evaluate_operator("less_than", &text("abc"), &json_int(10));
    assert_eq!(result.0, None);
}

#[test]
fn unsupported_operator_and_dimension_are_unknown() {
    let unsupported_operator = evaluate_operator("exists", &FactValue::Bool(true), &FactValue::Bool(true));
    assert_eq!(unsupported_operator.0, None);

    let result = evaluate_achievement(
        achievement_with_condition(AchievementCondition {
            condition_type: "required".to_string(),
            dimension: "fleet_power".to_string(),
            operator: "greater_than".to_string(),
            value: json_int(100000),
            timing: "current".to_string(),
            mutability: "normal_change".to_string(),
            severity: "hard".to_string(),
            source: None,
            notes: None,
            children: vec![],
        }),
        &FactLookup::new(&[]),
        false,
        None,
    );

    assert_eq!(result.status, STATUS_UNKNOWN);
    assert_eq!(result.conditions[0].passed, None);
}

fn achievement_with_condition(condition: AchievementCondition) -> AchievementCatalogEntry {
    AchievementCatalogEntry {
        id: "test_achievement".to_string(),
        steam_app_id: 281_990,
        steam_api_name: Some("TEST".to_string()),
        local_key: None,
        deprecated: false,
        source: AchievementSourceFields {
            name: "Test Achievement".to_string(),
            ..AchievementSourceFields::default()
        },
        curation: AchievementCurationFields {
            conditions: vec![condition],
            ..AchievementCurationFields::default()
        },
        completed: false,
    }
}

fn fact(dimension: &str, key: &str, value: FactValue) -> RunFactSummary {
    RunFactSummary {
        run_folder_path: "/run".to_string(),
        dimension: dimension.to_string(),
        key: key.to_string(),
        value,
        source: "parsed_save".to_string(),
        confidence: "high".to_string(),
        updated_from_save_path: None,
        updated_at: "now".to_string(),
        is_override: false,
    }
}
