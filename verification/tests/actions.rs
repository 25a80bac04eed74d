use stellaris_hunter_scan::actions::extract_action_facts;
use stellaris_hunter_scan::clausewitz::{ClausewitzNode, ClausewitzValue};


fn make_atom(s: &str) -> ClausewitzValue {
    ClausewitzValue::Atom(s.to_string())
}

fn make_block(pairs: Vec<(&str, ClausewitzValue)>) -> ClausewitzValue {
    ClausewitzValue::Block(
        pairs
            .into_iter()
            .map(|(k, v)| ClausewitzNode::Pair(k.to_string(), v))
            .collect(),
    )
}

fn make_value_block(values: Vec<ClausewitzValue>) -> ClausewitzValue {
    ClausewitzValue::Block(values.into_iter().map(ClausewitzNode::Value).collect())
}

fn make_country(flags: Vec<(&str, &str)>) -> ClausewitzValue {
    let flag_pairs: Vec<(&str, ClausewitzValue)> =
        flags.iter().map(|(k, v)| (*k, make_atom(v))).collect();
    make_block(vec![("flags", make_block(flag_pairs))])
}

fn make_game_root(entries: Vec<(&str, ClausewitzValue)>) -> ClausewitzValue {
    make_block(entries)
}


#[test]
fn test_empty_state_returns_defaults() {
    let country = make_country(vec![]);
    let game_root = make_game_root(vec![]);
    let facts = extract_action_facts(&game_root, &country, "0");

    assert!(facts.active_wars.is_none());
    assert!(facts.war_type.is_none());
    assert!(facts.subjects_acquired.is_none());
    assert!(facts.vassal_count.is_none());
    assert!(facts.subject_type.is_none());
    assert_eq!(facts.proxy_war_count, Some(0));
    assert_eq!(facts.federation_formed, Some(false));
    assert!(facts.federation_type.is_none());
    assert!(facts.galactic_community_exists.is_none());
    assert_eq!(facts.colossus_built, Some(false));
    assert!(facts.colossus_weapon_type.is_none());
    assert!(facts.species_on_planet_count.is_none());
    assert!(facts.livestock_species_count.is_none());
    assert!(facts.purged_pops.is_none());
    assert!(facts.relic_owned.is_none());
    assert!(facts.relic_active_effect_used.is_none());
    assert_eq!(facts.galatron_acquired, Some(false));
    assert!(facts.archaeological_site_completed.is_none());
    assert!(facts.first_contact_result.is_none());
    assert_eq!(facts.espionage_operations_completed, Some(0));
    assert!(facts.astral_rifts_explored.is_none());
    assert_eq!(facts.horizon_signal_completed, Some(false));
    assert!(facts.enclave_interaction_type.is_none());
    assert!(facts.migration_treaty_count.is_none());
    assert!(facts.special_project_completed_type.is_none());
    assert!(facts.covenant_type.is_none());
    assert!(facts.planets_terraform_to_volcanic.is_none());
    assert!(facts.galactic_memorials_on_tomb_worlds.is_none());
    assert!(facts.space_fauna_type_captured.is_none());
    assert!(facts.colony_count_with_hyperspace_not_researched.is_none());
}

#[test]
fn test_flag_extraction() {
    let country = make_country(vec![
        ("subject_contract_modified", "yes"),
        ("galactic_emperor", "yes"),
        ("crisis_defeated", "yes"),
        ("invaded_earth", "yes"),
    ]);
    let facts = extract_action_facts(&make_game_root(vec![]), &country, "0");

    assert_eq!(facts.subject_contract_modified, Some(true));
    assert_eq!(facts.galactic_emperor, Some(true));
    assert_eq!(facts.crisis_defeated, Some(true));
    assert_eq!(facts.invaded_primitive_earth, Some(true));
    assert_eq!(facts.crisis_path_cosmogenesis, Some(false));
    assert_eq!(facts.robot_pop_built, Some(false));
    assert_eq!(facts.wormhole_travel_completed, Some(false));
}


#[test]
fn test_federation_membership() {
    let country_in_fed = make_block(vec![
        ("federation", make_atom("16777220")),
        ("flags", make_block(vec![])),
    ]);
    let facts = extract_action_facts(&make_game_root(vec![]), &country_in_fed, "0");
    assert_eq!(facts.federation_formed, Some(true));

    let facts = extract_action_facts(&make_game_root(vec![]), &make_country(vec![]), "0");
    assert_eq!(facts.federation_formed, Some(false));
}

#[test]
fn test_war_participation_and_multiple_wars() {
    let make_participant = || {
        make_block(vec![
            ("country", make_atom("0")),
            ("call_type", make_atom("primary")),
        ])
    };
    let participant = make_participant();
    let war1 = make_block(vec![
        ("attackers", make_value_block(vec![make_participant()])),
        ("defenders", make_value_block(vec![])),
        (
            "war_goal",
            make_block(vec![("type", make_atom("war_type_conquest"))]),
        ),
    ]);
    let war2 = make_block(vec![
        ("attackers", make_value_block(vec![])),
        ("defenders", make_value_block(vec![participant])),
        (
            "war_goal",
            make_block(vec![("type", make_atom("war_type_defense"))]),
        ),
    ]);
    let game = make_game_root(vec![(
        "war",
        make_block(vec![("war_1", war1), ("war_2", war2)]),
    )]);
    let facts = extract_action_facts(&game, &make_country(vec![]), "0");
    assert_eq!(facts.active_wars, Some(2));
    assert_eq!(facts.war_type, Some("war_type_conquest".to_string()));
}

#[test]
fn test_galactic_community_and_federation_details() {
    let federation_entry = make_block(vec![
        ("type", make_atom("galactic_union")),
        ("level", make_atom("3")),
        (
            "members",
            make_value_block(vec![make_block(vec![("country", make_atom("1"))])]),
        ),
    ]);
    let game = make_block(vec![
        (
            "galactic_community",
            make_block(vec![
                ("community_formed", make_atom("2200.01.01")),
                ("custodian_term", make_atom("3")),
                ("leader", make_atom("0")),
            ]),
        ),
        (
            "federation",
            make_block(vec![("16777220", federation_entry)]),
        ),
        (
            "country",
            make_block(vec![(
                "1",
                make_block(vec![(
                    "ethics",
                    make_value_block(vec![make_atom("ethic_militarist")]),
                )]),
            )]),
        ),
    ]);
    let country = make_block(vec![
        ("federation", make_atom("16777220")),
        ("flags", make_block(vec![])),
    ]);
    let facts = extract_action_facts(&game, &country, "0");
    assert_eq!(facts.galactic_community_exists, Some(true));
    assert_eq!(facts.galactic_custodian, Some(true));
    assert_eq!(facts.federation_type, Some("galactic_union".to_string()));
    assert_eq!(facts.federation_level, Some(3));
    assert_eq!(
        facts.federation_member_ethics,
        vec!["ethic_militarist".to_string()]
    );
}

#[test]
fn test_subject_and_diplomacy_extractors() {
    let country = make_block(vec![
        (
            "subjects",
            make_block(vec![
                ("s1", make_block(vec![("type", make_atom("vassal"))])),
                ("s2", make_block(vec![("type", make_atom("bulwark"))])),
            ]),
        ),
        (
            "agreements",
            make_block(vec![(
                "a1",
                make_block(vec![("type", make_atom("migration_treaty"))]),
            )]),
        ),
        (
            "flags",
            make_block(vec![
                ("recruit_curator_scientist", make_atom("yes")),
                ("proxy_war_won", make_atom("yes")),
                ("espionage_operation_completed_01", make_atom("yes")),
            ]),
        ),
    ]);
    let facts = extract_action_facts(&make_game_root(vec![]), &country, "0");
    assert_eq!(facts.subjects_acquired, Some(2));
    assert_eq!(facts.vassal_count, Some(2));
    assert!(facts.subject_type.unwrap().contains("vassal"));
    assert!(facts
        .enclave_interaction_type
        .unwrap()
        .contains("recruit_curator_scientist"));
    assert_eq!(facts.migration_treaty_count, Some(1));
    assert_eq!(facts.proxy_war_count, Some(1));
    assert_eq!(facts.espionage_operations_completed, Some(1));
}

#[test]
fn test_secret_fealty_detection() {
    for flag in &["secret_fealty_pledged", "secret_fealty", "fealty_pledged"] {
        let facts = extract_action_facts(
            &make_game_root(vec![]),
            &make_country(vec![(flag, "yes")]),
            "0",
        );
        assert_eq!(facts.secret_fealty_pledged, Some(true));
    }
}


#[test]
fn test_covenant_horizon_and_projects() {
    let country = make_block(vec![
        (
            "ascension_perks",
            make_atom("ap_covenant_eater ap_mind_over_matter"),
        ),
        (
            "special_projects",
            make_block(vec![("limbo", make_atom("yes"))]),
        ),
        (
            "flags",
            make_block(vec![
                ("horizon_signal", make_atom("yes")),
                ("breach_the_shroud", make_atom("yes")),
            ]),
        ),
    ]);
    let facts = extract_action_facts(&make_game_root(vec![]), &country, "0");
    assert_eq!(facts.covenant_type, Some("eater".to_string()));
    assert_eq!(facts.horizon_signal_completed, Some(true));
    assert!(facts
        .special_project_completed_type
        .unwrap()
        .contains("limbo"));
    assert_eq!(facts.psionic_techs_unlocked, Some(true));
}

#[test]
fn test_species_and_planet_extractors() {
    let planet1 = make_block(vec![
        ("controller", make_atom("0")),
        ("planet_class", make_atom("pc_tomb")),
        (
            "buildings_cache",
            make_value_block(vec![make_atom("bld_galactic_memorial_01")]),
        ),
        (
            "pop_groups",
            make_block(vec![
                (
                    "p1",
                    make_block(vec![("key", make_block(vec![("species", make_atom("0"))]))]),
                ),
                (
                    "p2",
                    make_block(vec![("key", make_block(vec![("species", make_atom("1"))]))]),
                ),
            ]),
        ),
    ]);
    let planet2 = make_block(vec![
        ("controller", make_atom("0")),
        ("planet_class", make_atom("pc_volcanic")),
        (
            "pop_groups",
            make_block(vec![
                (
                    "p1",
                    make_block(vec![("key", make_block(vec![("species", make_atom("0"))]))]),
                ),
                (
                    "p2",
                    make_block(vec![("key", make_block(vec![("species", make_atom("1"))]))]),
                ),
                (
                    "p3",
                    make_block(vec![("key", make_block(vec![("species", make_atom("2"))]))]),
                ),
            ]),
        ),
    ]);
    let game = make_block(vec![
        (
            "planets",
            make_block(vec![(
                "planet",
                make_block(vec![("1", planet1), ("2", planet2)]),
            )]),
        ),
        (
            "pop_groups",
            make_block(vec![
                (
                    "0",
                    make_block(vec![
                        (
                            "key",
                            make_block(vec![
                                ("species", make_atom("0")),
                                ("category", make_atom("livestock")),
                            ]),
                        ),
                        ("size", make_atom("5")),
                    ]),
                ),
                (
                    "1",
                    make_block(vec![
                        (
                            "key",
                            make_block(vec![
                                ("species", make_atom("1")),
                                ("category", make_atom("livestock")),
                            ]),
                        ),
                        ("size", make_atom("3")),
                    ]),
                ),
            ]),
        ),
    ]);
    let facts = extract_action_facts(&game, &make_country(vec![]), "0");
    assert_eq!(facts.species_on_planet_count, Some(3));
    assert_eq!(facts.livestock_species_count, Some(2));
    assert_eq!(facts.planets_terraform_to_volcanic, Some(1));
    assert_eq!(facts.galactic_memorials_on_tomb_worlds, Some(1));
}

#[test]
fn test_colony_and_variable_backed_flags() {
    let country = make_block(vec![
        (
            "tech_status",
            make_block(vec![("technology", make_atom("tech_physics_1"))]),
        ),
        (
            "owned_planets",
            make_value_block(vec![make_atom("1"), make_atom("2"), make_atom("3")]),
        ),
        (
            "flags",
            make_block(vec![
                ("INF_A_blazing_tomb_world", make_atom("yes")),
                ("with_great_power_achievement_locked", make_atom("yes")),
                ("built_artificial_ship", make_atom("yes")),
            ]),
        ),
        (
            "variables",
            make_block(vec![
                ("smorgasblorg_phenotypes", make_atom("6")),
                ("hyperthermia_giant_var", make_atom("50")),
            ]),
        ),
    ]);
    let facts = extract_action_facts(&make_game_root(vec![]), &country, "0");
    assert_eq!(facts.colony_count_with_hyperspace_not_researched, Some(3));
    assert_eq!(facts.blazing_scourge_decisions, Some(true));
    assert_eq!(facts.pre_ftl_invasion_occurred, Some(true));
    assert_eq!(facts.artificial_military_ships_built, Some(true));
    assert_eq!(facts.species_dna_phenotypes_collected, Some(6));
    assert_eq!(facts.stars_terraform_to_red_giant, Some(50));
}


#[test]
fn test_archaeology_and_first_contact() {
    let game = make_block(vec![
        (
            "archaeological_sites",
            make_block(vec![(
                "sites",
                make_block(vec![(
                    "1",
                    make_block(vec![
                        ("type", make_atom("ancient_ruins")),
                        (
                            "completed",
                            make_value_block(vec![make_block(vec![(
                                "country",
                                make_atom("0"),
                            )])]),
                        ),
                    ]),
                )]),
            )]),
        ),
        (
            "first_contacts",
            make_block(vec![(
                "contacts",
                make_block(vec![
                    ("c1", make_block(vec![("result", make_atom("peaceful"))])),
                    ("c2", make_block(vec![("result", make_atom("aggressive"))])),
                ]),
            )]),
        ),
    ]);
    let facts = extract_action_facts(&game, &make_country(vec![]), "0");
    assert_eq!(
        facts.archaeological_site_completed,
        Some("ancient_ruins".to_string())
    );
    let contact = facts.first_contact_result.unwrap();
    assert!(contact.contains("peaceful"));
    assert!(contact.contains("aggressive"));
}

#[test]
fn test_space_fauna_and_astral_rifts() {
    let game = make_block(vec![
        (
            "vivarium_critters",
            make_block(vec![(
                "0",
                make_block(vec![("type", make_atom("space_dragon"))]),
            )]),
        ),
        (
            "exhibits",
            make_block(vec![(
                "0",
                make_block(vec![("type", make_atom("cutholoid"))]),
            )]),
        ),
        (
            "astral_rifts",
            make_block(vec![
                ("0", make_block(vec![("explored", make_atom("yes"))])),
                ("1", make_block(vec![("explored", make_atom("no"))])),
                ("2", make_block(vec![("explored", make_atom("yes"))])),
            ]),
        ),
    ]);
    let facts = extract_action_facts(&game, &make_country(vec![]), "0");
    let fauna = facts.space_fauna_type_captured.unwrap();
    assert!(fauna.contains("space_dragon"));
    assert!(fauna.contains("cutholoid"));
    assert_eq!(facts.astral_rifts_explored, Some(2));
}


#[test]
fn test_colossus_and_crisis_extractors() {
    let country = make_block(vec![
        (
            "ascension_perks",
            make_atom("ap_colossus ap_crisis_acolyte"),
        ),
        (
            "flags",
            make_block(vec![
                ("colossus_weapon_world_cracker", make_atom("yes")),
                ("cosmogenesis", make_atom("yes")),
            ]),
        ),
    ]);
    let facts = extract_action_facts(&make_game_root(vec![]), &country, "0");
    assert_eq!(facts.colossus_built, Some(true));
    assert_eq!(
        facts.colossus_weapon_type,
        Some("world_cracker".to_string())
    );
    assert_eq!(facts.crisis_path_nemesis, Some(true));
    assert_eq!(facts.crisis_path_cosmogenesis, Some(true));
}

#[test]
fn test_purged_pops_count() {
    let game = make_block(vec![(
        "pop_groups",
        make_block(vec![
            (
                "0",
                make_block(vec![
                    (
                        "key",
                        make_block(vec![
                            ("species", make_atom("0")),
                            ("category", make_atom("purge")),
                        ]),
                    ),
                    ("size", make_atom("5")),
                ]),
            ),
            (
                "1",
                make_block(vec![
                    (
                        "key",
                        make_block(vec![
                            ("species", make_atom("1")),
                            ("category", make_atom("purge")),
                        ]),
                    ),
                    ("size", make_atom("3")),
                ]),
            ),
        ]),
    )]);
    let facts = extract_action_facts(&game, &make_country(vec![]), "0");
    assert_eq!(facts.purged_pops, Some(8));
}


#[test]
fn test_relic_ownership() {
    let country = make_block(vec![
        (
            "relics",
            make_value_block(vec![make_atom("r_galatron"), make_atom("r_dragon_trophy")]),
        ),
        ("flags", make_block(vec![])),
    ]);
    let facts = extract_action_facts(&make_game_root(vec![]), &country, "0");
    assert!(facts.relic_owned.unwrap().contains("r_galatron"));
    assert_eq!(facts.galatron_acquired, Some(true));
}

#[test]
fn test_relic_active_effect_used() {
    let facts = extract_action_facts(
        &make_game_root(vec![]),
        &make_country(vec![("relic_active_effect_used", "yes")]),
        "0",
    );
    assert_eq!(facts.relic_active_effect_used, Some("true".to_string()));
    let facts = extract_action_facts(&make_game_root(vec![]), &make_country(vec![]), "0");
    assert!(facts.relic_active_effect_used.is_none());
}
