use stellaris_hunter_scan::actions::ActionFacts;
use stellaris_hunter_scan::model::{
    AchievementCatalogEntry, AchievementCondition, AchievementCurationFields, AchievementSourceFields,
    RunFactSummary,
};
use stellaris_hunter_scan::planner::evaluate_planner_achievements;
use stellaris_hunter_scan::run_facts::facts_from_save;
use stellaris_hunter_scan::save::SaveSummary;
use stellaris_hunter_scan::values::FactValue;

fn describe(v: &FactValue) -> String {
    match v {
        FactValue::Text(s) => format!("text:{s}"),
        FactValue::Bool(b) => format!("bool:{b}"),
        FactValue::List(items) => {
            let inner: Vec<String> = items.iter().map(describe).collect();
            format!("list:[{}]", inner.join(","))
        }
        other => format!("{other:?}"),
    }
}

#[test]
fn records_present_save_facts_in_order() {
    let save = SaveSummary {
        version: Some("Cetus v4.3.7".to_string()),
        name: Some("Run".to_string()),
        required_dlcs: vec!["dlc_alpha".to_string()],
        origin: Some("origin_default".to_string()),
        ethics: vec!["ethic_xenophile".to_string(), "ethic_pacifist".to_string()],
        founder_species_class: Some("HUM".to_string()),
        ironman: Some(true),
        cheated_on_save: Some(false),
        ..Default::default()
    };
    let facts = facts_from_save(&save);
    let rows: Vec<String> = facts
        .iter()
        .map(|f| format!("{}.{}={}", f.dimension, f.key, describe(&f.value)))
        .collect();
    assert_eq!(
        rows,
        vec![
            "save.version=text:Cetus v4.3.7",
            "save.name=text:Run",
            "save.required_dlcs=list:[text:dlc_alpha]",
            "empire.origin=text:origin_default",
            "empire.ethics=list:[text:ethic_xenophile,text:ethic_pacifist]",
            "species.founder_species_class=text:HUM",
            "eligibility.ironman=bool:true",
            "eligibility.cheated_on_save=bool:false",
        ]
    );
}

#[test]
fn empty_save_records_nothing() {
    assert!(facts_from_save(&SaveSummary::default()).is_empty());
}

fn summary_fact(dimension: &str, key: &str, value: FactValue, confidence: &str) -> RunFactSummary {
    RunFactSummary {
        run_folder_path: "/saves/run".to_string(),
        dimension: dimension.to_string(),
        key: key.to_string(),
        value,
        source: "parsed_save".to_string(),
        confidence: confidence.to_string(),
        updated_from_save_path: None,
        updated_at: "now".to_string(),
        is_override: false,
    }
}

fn scourge_entry() -> AchievementCatalogEntry {
    AchievementCatalogEntry {
        id: "from_bad_to_worse".to_string(),
        steam_app_id: 281990,
        steam_api_name: Some("achievement_from_bad_to_worse".to_string()),
        local_key: None,
        deprecated: false,
        source: AchievementSourceFields {
            name: "From Bad to Worse".to_string(),
            difficulty: Some("E".to_string()),
            ..Default::default()
        },
        curation: AchievementCurationFields {
            tags: vec!["infernals".to_string()],
            conditions: vec![AchievementCondition {
                condition_type: "required".to_string(),
                dimension: "blazing_scourge_decisions".to_string(),
                operator: "equals".to_string(),
                value: FactValue::Bool(true),
                timing: "eventual".to_string(),
                mutability: "normal_change".to_string(),
                severity: "soft".to_string(),
                source: Some("wiki-reviewed".to_string()),
                notes: Some("Requires using the Blazing Scourge decision on a Tomb World.".to_string()),
                children: vec![],
            }],
            rule_confidence: Some("medium".to_string()),
            ..Default::default()
        },
        completed: false,
    }
}

#[test]
fn phase7_boolean_dimensions_end_to_end() {
    let actions = ActionFacts {
        blazing_scourge_decisions: Some(true),
        pre_ftl_invasion_occurred: Some(true),
        artificial_military_ships_built: Some(true),
        ..Default::default()
    };
    let save = SaveSummary {
        version: Some("Cetus v4.3.7".to_string()),
        date: Some("2532.01.26".to_string()),
        name: Some("Phase 7 Test".to_string()),
        ironman: Some(true),
        cheated_on_save: Some(false),
        origin: Some("origin_default".to_string()),
        ethics: vec!["ethic_xenophile".to_string()],
        civics: vec!["civic_fire_cult".to_string()],
        actions: Some(actions),
        ..Default::default()
    };
    let facts: Vec<RunFactSummary> = facts_from_save(&save)
        .into_iter()
        .map(|f| RunFactSummary {
            run_folder_path: "/saves/run_phase7".to_string(),
            dimension: f.dimension,
            key: f.key,
            value: f.value,
            source: "parsed_save".to_string(),
            confidence: "high".to_string(),
            updated_from_save_path: None,
            updated_at: "now".to_string(),
            is_override: false,
        })
        .collect();

    for key in ["blazing_scourge_decisions", "pre_ftl_invasion_occurred", "artificial_military_ships_built"] {
        let f = facts
            .iter()
            .find(|f| f.dimension == "action" && f.key == key)
            .expect("action fact persisted");
        assert!(matches!(f.value, FactValue::Bool(true)));
        assert_eq!(f.source, "parsed_save");
    }
    assert!(!facts.iter().any(|f| f.key == "colossus_built"));

    let entry = scourge_entry();
    let evals = evaluate_planner_achievements(vec![entry], &facts, &[], &[]);
    assert_eq!(evals.len(), 1);
    assert_eq!(evals[0].achievement.id, "from_bad_to_worse");
    assert_eq!(evals[0].computed_status, "Possible");
}

#[test]
fn action_facts_follow_the_save_facts_and_skip_absent_fields() {
    let save = SaveSummary {
        ironman: Some(false),
        actions: Some(ActionFacts {
            colossus_built: Some(false),
            blazing_scourge_decisions: Some(true),
            active_wars: Some(3),
            ..Default::default()
        }),
        ..Default::default()
    };
    let rows: Vec<String> = facts_from_save(&save)
        .iter()
        .map(|f| format!("{}.{}={}", f.dimension, f.key, describe(&f.value)))
        .collect();
    assert_eq!(
        rows,
        vec![
            "eligibility.ironman=bool:false",
            "action.colossus_built=bool:false",
            "action.blazing_scourge_decisions=bool:true",
        ]
    );
}

#[test]
fn facts_that_are_not_high_confidence_leave_the_planner_unchanged() {
    let facts = vec![summary_fact("action", "blazing_scourge_decisions", FactValue::Bool(true), "high")];
    let mut more = facts.iter().map(|f| summary_fact(&f.dimension, &f.key, FactValue::Bool(true), "high")).collect::<Vec<_>>();
    more.push(summary_fact("action", "blazing_scourge_decisions", FactValue::Bool(false), "low"));
    more.push(summary_fact("action", "blazing_scourge_decisions", FactValue::Bool(false), "medium"));

    let before = evaluate_planner_achievements(vec![scourge_entry()], &facts, &[], &[]);
    let after = evaluate_planner_achievements(vec![scourge_entry()], &more, &[], &[]);
    assert_eq!(before[0].computed_status, "Possible");
    assert_eq!(after[0].computed_status, before[0].computed_status);
    assert_eq!(after[0].status, before[0].status);
    assert_eq!(after[0].reasons, before[0].reasons);

    let only_low = vec![summary_fact("action", "blazing_scourge_decisions", FactValue::Bool(true), "low")];
    let none = evaluate_planner_achievements(vec![scourge_entry()], &[], &[], &[]);
    let low = evaluate_planner_achievements(vec![scourge_entry()], &only_low, &[], &[]);
    assert_eq!(low[0].computed_status, none[0].computed_status);
    assert_ne!(low[0].computed_status, "Possible");
}
