use stellaris_hunter_scan::clausewitz::{ClausewitzNode, ClausewitzValue};
use stellaris_hunter_scan::progression::extract_progression_counts;

// ── test AST constructors ──────────────────────────────────

fn a(s: &str) -> ClausewitzValue {
    ClausewitzValue::Atom(s.to_string())
}

fn block(pairs: Vec<(&str, ClausewitzValue)>) -> ClausewitzValue {
    ClausewitzValue::Block(
        pairs
            .into_iter()
            .map(|(k, v)| ClausewitzNode::Pair(k.to_string(), v))
            .collect(),
    )
}

fn values(items: Vec<ClausewitzValue>) -> ClausewitzValue {
    ClausewitzValue::Block(items.into_iter().map(ClausewitzNode::Value).collect())
}

// ── tests ──────────────────────────────────────────────────

#[test]
fn test_basic_fields() {
    let game = block(vec![
        ("date", a("2230.06.15")),
        ("player", block(vec![("country", a("0"))])),
    ]);
    let country = block(vec![
        ("owned_planets", values(vec![a("1"), a("2"), a("3")])),
        ("controlled_planets", values(vec![a("1"), a("2")])),
        ("num_sapient_pops", a("500")),
        ("military_power", a("15000.5")),
        ("num_upgraded_starbase", a("10")),
        (
            "traditions",
            values(vec![
                a("tr_diplomacy_adopt"),
                a("tr_diplomacy_the_federation"),
            ]),
        ),
        ("ascension_perks", values(vec![])),
    ]);

    let facts = extract_progression_counts(&game, &country);

    assert_eq!(facts.owned_planets, Some(3));
    assert_eq!(facts.colonized_planets, Some(2));
    assert_eq!(facts.total_pops, Some(500));
    assert_eq!(facts.starbase_count, Some(10));
    assert_eq!(facts.traditions_adopted, Some(2));
    assert_eq!(facts.ascension_perks_unlocked, Some(0));
}

#[test]
fn test_fleet_count() {
    let game = block(vec![
        ("date", a("2205.01.01")),
        ("player", block(vec![("country", a("0"))])),
    ]);
    let country = block(vec![(
        "fleets_manager",
        block(vec![(
            "owned_fleets",
            values(vec![
                block(vec![("fleet", a("100"))]),
                block(vec![("fleet", a("101"))]),
                block(vec![("fleet", a("102"))]),
            ]),
        )]),
    )]);

    let facts = extract_progression_counts(&game, &country);

    assert_eq!(facts.fleet_count, Some(3));
}

#[test]
fn test_empty_fleet() {
    let game = block(vec![
        ("date", a("2205.01.01")),
        ("player", block(vec![("country", a("0"))])),
    ]);
    let country = block(vec![(
        "fleets_manager",
        block(vec![("owned_fleets", values(vec![]))]),
    )]);

    let facts = extract_progression_counts(&game, &country);

    assert_eq!(facts.fleet_count, Some(0));
}

#[test]
fn test_ascension_path_psionic() {
    let game = block(vec![
        ("date", a("2205.01.01")),
        ("player", block(vec![("country", a("0"))])),
    ]);
    let country = block(vec![
        (
            "traditions",
            values(vec![
                a("tr_diplomacy_adopt"),
                a("tr_psionic_adopt"),
                a("tr_psionic_the_shroud"),
            ]),
        ),
        ("ascension_perks", values(vec![a("ap_psionic_the_shroud")])),
    ]);

    let facts = extract_progression_counts(&game, &country);

    assert_eq!(facts.ascension_path, Some("psionic".to_string()));
    assert_eq!(facts.traditions_adopted, Some(3));
    assert_eq!(facts.ascension_perks_unlocked, Some(1));
}

#[test]
fn test_ascension_path_synthetic_via_perks() {
    let game = block(vec![
        ("date", a("2205.01.01")),
        ("player", block(vec![("country", a("0"))])),
    ]);
    let country = block(vec![
        ("traditions", values(vec![a("tr_diplomacy_adopt")])),
        ("ascension_perks", values(vec![a("ap_synthetic_evolution")])),
    ]);

    let facts = extract_progression_counts(&game, &country);

    assert_eq!(facts.ascension_path, Some("synthetic".to_string()));
}

#[test]
fn test_no_ascension_path() {
    let game = block(vec![
        ("date", a("2205.01.01")),
        ("player", block(vec![("country", a("0"))])),
    ]);
    let country = block(vec![
        ("traditions", values(vec![a("tr_diplomacy_adopt")])),
        ("ascension_perks", values(vec![])),
    ]);

    let facts = extract_progression_counts(&game, &country);

    assert_eq!(facts.ascension_path, None);
}

#[test]
fn test_megastructure_types() {
    let game = block(vec![
        ("date", a("2205.01.01")),
        ("player", block(vec![("country", a("0"))])),
        (
            "planets",
            block(vec![(
                "planet",
                block(vec![
                    (
                        "1",
                        block(vec![
                            ("controller", a("0")),
                            ("planet_class", a("pc_continental")),
                        ]),
                    ),
                    (
                        "100",
                        block(vec![
                            ("controller", a("0")),
                            ("megastructure", a("100")),
                            ("planet_class", a("pc_dyson_sphere")),
                        ]),
                    ),
                    (
                        "101",
                        block(vec![
                            ("controller", a("0")),
                            ("megastructure", a("101")),
                            ("planet_class", a("pc_science_nexus")),
                        ]),
                    ),
                    (
                        "200",
                        block(vec![
                            ("controller", a("1")), // other empire
                            ("megastructure", a("200")),
                            ("planet_class", a("pc_dyson_sphere")),
                        ]),
                    ),
                ]),
            )]),
        ),
    ]);
    let country = block(vec![(
        "owned_planets",
        values(vec![a("1"), a("100"), a("101")]),
    )]);

    let facts = extract_progression_counts(&game, &country);

    let mut expected = vec![
        "pc_dyson_sphere".to_string(),
        "pc_science_nexus".to_string(),
    ];
    expected.sort();
    assert_eq!(facts.megastructure_types, expected);
}

#[test]
fn test_surveyed_planets() {
    let game = block(vec![
        ("date", a("2205.01.01")),
        ("player", block(vec![("country", a("0"))])),
        (
            "planets",
            block(vec![(
                "planet",
                block(vec![
                    (
                        "1",
                        block(vec![("controller", a("0")), ("survey", a("yes"))]),
                    ),
                    (
                        "2",
                        block(vec![("controller", a("1")), ("survey", a("yes"))]),
                    ),
                    (
                        "3",
                        block(vec![("controller", a("1"))]), // no survey
                    ),
                ]),
            )]),
        ),
    ]);
    let country = block(vec![]);

    let facts = extract_progression_counts(&game, &country);

    // Two planets have a survey field (IDs 1 and 2)
    assert_eq!(facts.surveyed_planets, Some(2));
}

#[test]
fn test_technologies_count() {
    let game = block(vec![
        ("date", a("2205.01.01")),
        ("player", block(vec![("country", a("0"))])),
    ]);
    let country = block(vec![(
        "tech_status",
        block(vec![
            ("technology", a("tech_physics_1")),
            ("level", a("1")),
            ("technology", a("tech_society_2")),
            ("level", a("1")),
            ("technology", a("tech_engineering_3")),
            ("level", a("2")),
        ]),
    )]);

    let facts = extract_progression_counts(&game, &country);

    // None of the test techs are in the rare list
    assert_eq!(facts.rare_technologies_acquired, Some(0));
}

#[test]
fn test_rare_technologies_count() {
    let game = block(vec![
        ("date", a("2205.01.01")),
        ("player", block(vec![("country", a("0"))])),
    ]);
    let country = block(vec![(
        "tech_status",
        block(vec![
            // Rare techs
            ("technology", a("tech_psionic_theory")),
            ("level", a("1")),
            ("technology", a("tech_paradise_dome")),
            ("level", a("1")),
            ("technology", a("tech_colossus")),
            ("level", a("1")),
            // Non-rare techs (should not be counted)
            ("technology", a("tech_physics_1")),
            ("level", a("2")),
            ("technology", a("tech_society_2")),
            ("level", a("1")),
        ]),
    )]);

    let facts = extract_progression_counts(&game, &country);

    // Should count only the 3 rare techs
    assert_eq!(facts.rare_technologies_acquired, Some(3));
}

#[test]
fn test_missing_blocks_return_none() {
    let game = block(vec![
        ("date", a("2205.01.01")),
        ("player", block(vec![("country", a("0"))])),
    ]);
    let country = block(vec![]);

    let facts = extract_progression_counts(&game, &country);

    assert_eq!(facts.owned_planets, None);
    assert_eq!(facts.total_pops, None);
    assert_eq!(facts.fleet_count, None);
    assert_eq!(facts.starbase_count, None);
    assert_eq!(facts.traditions_adopted, None);
    assert_eq!(facts.ascension_perks_unlocked, None);
}

#[test]
fn test_non_numeric_fields_graceful() {
    let game = block(vec![
        ("date", a("2205.01.01")),
        ("player", block(vec![("country", a("0"))])),
    ]);
    let country = block(vec![
        ("num_sapient_pops", a("not_a_number")),
        ("military_power", a("also_bad")),
    ]);

    let facts = extract_progression_counts(&game, &country);

    assert_eq!(facts.total_pops, None);
}

// ── Enslaved Pops ──────────────────────────────────────────

#[test]
fn test_enslaved_pops_count() {
    let game = block(vec![
        ("date", a("2205.01.01")),
        ("player", block(vec![("country", a("0"))])),
        (
            "pop_groups",
            block(vec![
                (
                    "0",
                    block(vec![
                        (
                            "key",
                            block(vec![("species", a("0")), ("category", a("slave"))]),
                        ),
                        ("size", a("5")),
                    ]),
                ),
                (
                    "1",
                    block(vec![
                        (
                            "key",
                            block(vec![("species", a("1")), ("category", a("normal"))]),
                        ),
                        ("size", a("10")),
                    ]),
                ),
                (
                    "2",
                    block(vec![
                        (
                            "key",
                            block(vec![("species", a("2")), ("category", a("slave"))]),
                        ),
                        ("size", a("3")),
                    ]),
                ),
            ]),
        ),
    ]);
    let country = block(vec![]);

    let facts = extract_progression_counts(&game, &country);

    assert_eq!(facts.enslaved_pops_count, Some(8)); // 5 + 3
}

#[test]
fn test_enslaved_pops_missing_block() {
    let game = block(vec![
        ("date", a("2205.01.01")),
        ("player", block(vec![("country", a("0"))])),
    ]);
    let country = block(vec![]);

    let facts = extract_progression_counts(&game, &country);

    assert_eq!(facts.enslaved_pops_count, None);
}

#[test]
fn test_enslaved_pops_no_slaves() {
    let game = block(vec![
        ("date", a("2205.01.01")),
        ("player", block(vec![("country", a("0"))])),
        (
            "pop_groups",
            block(vec![(
                "0",
                block(vec![
                    (
                        "key",
                        block(vec![("species", a("0")), ("category", a("normal"))]),
                    ),
                    ("size", a("10")),
                ]),
            )]),
        ),
    ]);
    let country = block(vec![]);

    let facts = extract_progression_counts(&game, &country);

    assert_eq!(facts.enslaved_pops_count, Some(0));
}

// ── Robot Pop Ratio ────────────────────────────────────────

#[test]
fn test_strategic_resources_types() {
    let game = block(vec![
        ("date", a("2205.01.01")),
        ("player", block(vec![("country", a("0"))])),
    ]);
    let country = block(vec![(
        "budget",
        block(vec![(
            "current_month",
            block(vec![(
                "income",
                block(vec![
                    (
                        "planet_buildings",
                        block(vec![
                            ("energy", a("100")),
                            ("sr_zro", a("2.5")),
                            ("volatile_motes", a("1.0")),
                        ]),
                    ),
                    (
                        "starbase_buildings",
                        block(vec![("sr_dark_matter", a("3.0"))]),
                    ),
                    ("minerals", a("50")),
                ]),
            )]),
        )]),
    )]);

    let facts = extract_progression_counts(&game, &country);

    assert_eq!(facts.strategic_resources_types, Some(3)); // sr_zro, volatile_motes, sr_dark_matter
}

#[test]
fn test_strategic_resources_none() {
    let game = block(vec![
        ("date", a("2205.01.01")),
        ("player", block(vec![("country", a("0"))])),
    ]);
    let country = block(vec![(
        "budget",
        block(vec![(
            "current_month",
            block(vec![(
                "income",
                block(vec![(
                    "planet_buildings",
                    block(vec![("energy", a("100")), ("minerals", a("50"))]),
                )]),
            )]),
        )]),
    )]);

    let facts = extract_progression_counts(&game, &country);

    assert_eq!(facts.strategic_resources_types, Some(0));
}

#[test]
fn test_strategic_resources_missing_budget() {
    let game = block(vec![
        ("date", a("2205.01.01")),
        ("player", block(vec![("country", a("0"))])),
    ]);
    let country = block(vec![]);

    let facts = extract_progression_counts(&game, &country);

    assert_eq!(facts.strategic_resources_types, None);
}

// ── Organic Empires Remaining ──────────────────────────────

#[test]
fn test_organic_empires_remaining() {
    let game = block(vec![
        ("date", a("2205.01.01")),
        ("player", block(vec![("country", a("0"))])),
        (
            "country",
            block(vec![
                // Player — should be skipped
                (
                    "0",
                    block(vec![(
                        "government",
                        block(vec![("authority", a("auth_democratic"))]),
                    )]),
                ),
                // Organic democratic empire — counted
                (
                    "1",
                    block(vec![(
                        "government",
                        block(vec![("authority", a("auth_democratic"))]),
                    )]),
                ),
                // Hive mind — skipped
                (
                    "2",
                    block(vec![(
                        "government",
                        block(vec![("authority", a("auth_hive_mind"))]),
                    )]),
                ),
                // Machine intelligence — skipped
                (
                    "3",
                    block(vec![(
                        "government",
                        block(vec![("authority", a("auth_machine_intelligence"))]),
                    )]),
                ),
                // Fallen empire — skipped
                (
                    "4",
                    block(vec![
                        ("type", a("fallen_empire")),
                        (
                            "government",
                            block(vec![("authority", a("auth_democratic"))]),
                        ),
                    ]),
                ),
                // Organic authoritarian empire — counted
                (
                    "5",
                    block(vec![(
                        "government",
                        block(vec![("authority", a("auth_authocratic"))]),
                    )]),
                ),
                // Primitive — skipped
                (
                    "6",
                    block(vec![
                        ("type", a("primitive")),
                        (
                            "government",
                            block(vec![("authority", a("auth_democratic"))]),
                        ),
                    ]),
                ),
            ]),
        ),
    ]);
    let country = block(vec![]);

    let facts = extract_progression_counts(&game, &country);

    assert_eq!(facts.organic_empires_remaining, Some(2)); // IDs 1 and 5
}

// ── Gateways ───────────────────────────────────────────────

#[test]
fn test_gateway_count() {
    let game = block(vec![
        ("date", a("2205.01.01")),
        ("player", block(vec![("country", a("0"))])),
        (
            "bypasses",
            block(vec![
                (
                    "0",
                    block(vec![("type", a("gateway")), ("active", a("yes"))]),
                ),
                (
                    "1",
                    block(vec![("type", a("gateway_restored")), ("active", a("yes"))]),
                ),
                ("2", block(vec![("type", a("wormhole"))])),
                (
                    "3",
                    block(vec![("type", a("gateway_final")), ("active", a("yes"))]),
                ),
            ]),
        ),
    ]);
    let country = block(vec![]);

    let facts = extract_progression_counts(&game, &country);

    assert_eq!(facts.gateway_count, Some(3)); // gateway, gateway_restored, gateway_final
}

#[test]
fn test_gateway_count_no_bypasses() {
    let game = block(vec![
        ("date", a("2205.01.01")),
        ("player", block(vec![("country", a("0"))])),
    ]);
    let country = block(vec![]);

    let facts = extract_progression_counts(&game, &country);

    assert_eq!(facts.gateway_count, None);
}

#[test]
fn test_gateway_count_id_list_format() {
    let game = block(vec![
        ("date", a("2205.01.01")),
        ("player", block(vec![("country", a("0"))])),
        ("bypasses", values(vec![a("100"), a("101"), a("102")])),
    ]);
    let country = block(vec![]);

    let facts = extract_progression_counts(&game, &country);

    // ID list format — not structured data, return None
    assert_eq!(facts.gateway_count, None);
}

// ── Hyper Relays ───────────────────────────────────────────

#[test]
fn test_hyper_relay_count() {
    let game = block(vec![
        ("date", a("2205.01.01")),
        ("player", block(vec![("country", a("0"))])),
        (
            "megastructures",
            block(vec![
                (
                    "0",
                    block(vec![("type", a("hyper_relay")), ("owner", a("0"))]),
                ),
                (
                    "1",
                    block(vec![("type", a("science_nexus")), ("owner", a("0"))]),
                ),
                (
                    "2",
                    block(vec![("type", a("hyper_relay")), ("owner", a("0"))]),
                ),
            ]),
        ),
    ]);
    let country = block(vec![]);

    let facts = extract_progression_counts(&game, &country);

    assert_eq!(facts.hyper_relay_count, Some(2));
}

#[test]
fn test_hyper_relay_count_id_list_format() {
    let game = block(vec![
        ("date", a("2205.01.01")),
        ("player", block(vec![("country", a("0"))])),
        ("megastructures", values(vec![a("100"), a("101")])),
    ]);
    let country = block(vec![]);

    let facts = extract_progression_counts(&game, &country);

    assert_eq!(facts.hyper_relay_count, None);
}

// ── Years at Peace ─────────────────────────────────────────

#[test]
fn test_intel_level_count() {
    let game = block(vec![
        ("date", a("2205.01.01")),
        ("player", block(vec![("country", a("0"))])),
    ]);
    let country = block(vec![(
        "intel_level",
        values(vec![a("3"), a("2"), a("1"), a("0"), a("3")]),
    )]);

    let facts = extract_progression_counts(&game, &country);

    assert_eq!(facts.intel_level_count, Some(5));
}

#[test]
fn test_intel_level_empty() {
    let game = block(vec![
        ("date", a("2205.01.01")),
        ("player", block(vec![("country", a("0"))])),
    ]);
    let country = block(vec![("intel_level", values(vec![]))]);

    let facts = extract_progression_counts(&game, &country);

    assert_eq!(facts.intel_level_count, Some(0));
}

#[test]
fn test_intel_level_missing() {
    let game = block(vec![
        ("date", a("2205.01.01")),
        ("player", block(vec![("country", a("0"))])),
    ]);
    let country = block(vec![]);

    let facts = extract_progression_counts(&game, &country);

    assert_eq!(facts.intel_level_count, None);
}

// ── Observation Stations ───────────────────────────────────

#[test]
fn test_observation_station_count() {
    let game = block(vec![
        ("date", a("2205.01.01")),
        ("player", block(vec![("country", a("0"))])),
    ]);
    let country = block(vec![
        ("built_observation_post", a("100")),
        ("built_observation_post", a("101")),
        ("built_observation_post", a("102")),
    ]);

    let facts = extract_progression_counts(&game, &country);

    assert_eq!(facts.observation_station_count, Some(3));
}

#[test]
fn test_observation_station_none() {
    let game = block(vec![
        ("date", a("2205.01.01")),
        ("player", block(vec![("country", a("0"))])),
    ]);
    let country = block(vec![]);

    let facts = extract_progression_counts(&game, &country);

    assert_eq!(facts.observation_station_count, Some(0));
}

// ── Capital Building Level ─────────────────────────────────

#[test]
fn test_capital_building_level() {
    let game = block(vec![
        ("date", a("2205.01.01")),
        ("player", block(vec![("country", a("0"))])),
        (
            "planets",
            block(vec![(
                "planet",
                block(vec![(
                    "42",
                    block(vec![
                        ("controller", a("0")),
                        ("buildings_cache", values(vec![a("100"), a("200")])),
                    ]),
                )]),
            )]),
        ),
        (
            "buildings",
            block(vec![
                ("100", block(vec![("type", a("building_system_capital"))])),
                ("200", block(vec![("type", a("building_lab"))])),
            ]),
        ),
    ]);
    let country = block(vec![("capital", a("42"))]);

    let facts = extract_progression_counts(&game, &country);

    assert_eq!(facts.capital_building_level, Some(2));
}

#[test]
fn test_capital_building_level_basic() {
    let game = block(vec![
        ("date", a("2205.01.01")),
        ("player", block(vec![("country", a("0"))])),
        (
            "planets",
            block(vec![(
                "planet",
                block(vec![(
                    "10",
                    block(vec![
                        ("controller", a("0")),
                        ("buildings_cache", values(vec![a("50")])),
                    ]),
                )]),
            )]),
        ),
        (
            "buildings",
            block(vec![("50", block(vec![("type", a("building_capital"))]))]),
        ),
    ]);
    let country = block(vec![("capital", a("10"))]);

    let facts = extract_progression_counts(&game, &country);

    assert_eq!(facts.capital_building_level, Some(1));
}

#[test]
fn test_capital_building_level_no_capital() {
    let game = block(vec![
        ("date", a("2205.01.01")),
        ("player", block(vec![("country", a("0"))])),
        (
            "planets",
            block(vec![(
                "planet",
                block(vec![(
                    "10",
                    block(vec![
                        ("controller", a("0")),
                        ("buildings_cache", values(vec![a("50")])),
                    ]),
                )]),
            )]),
        ),
        (
            "buildings",
            block(vec![("50", block(vec![("type", a("building_lab"))]))]),
        ),
    ]);
    let country = block(vec![("capital", a("10"))]);

    let facts = extract_progression_counts(&game, &country);

    assert_eq!(facts.capital_building_level, None);
}

// ── Living Standard ────────────────────────────────────────

#[test]
fn test_living_standard_primary() {
    let game = block(vec![
        ("date", a("2205.01.01")),
        ("player", block(vec![("country", a("0"))])),
    ]);
    let country = block(vec![(
        "standard_species_rights_module",
        block(vec![(
            "primary",
            block(vec![(
                "living_standard",
                a("living_standard_utopian_abundance"),
            )]),
        )]),
    )]);

    let facts = extract_progression_counts(&game, &country);

    assert_eq!(
        facts.living_standard,
        Some("living_standard_utopian_abundance".to_string())
    );
}

#[test]
fn test_living_standard_fallback_default() {
    let game = block(vec![
        ("date", a("2205.01.01")),
        ("player", block(vec![("country", a("0"))])),
    ]);
    let country = block(vec![(
        "standard_species_rights_module",
        block(vec![(
            "default",
            block(vec![(
                "living_standard",
                a("living_standard_decent_conditions"),
            )]),
        )]),
    )]);

    let facts = extract_progression_counts(&game, &country);

    assert_eq!(
        facts.living_standard,
        Some("living_standard_decent_conditions".to_string())
    );
}

// ── Mercenary Enclaves Patroned ────────────────────────────

#[test]
fn test_mercenary_enclaves_patroned() {
    let game = block(vec![
        ("date", a("2205.01.01")),
        ("player", block(vec![("country", a("0"))])),
    ]);
    let country = block(vec![
        ("10yr_patronage", a("100")),
        ("10yr_patronage", a("101")),
    ]);

    let facts = extract_progression_counts(&game, &country);

    assert_eq!(facts.mercenary_enclaves_patroned, Some(2));
}

#[test]
fn test_mercenary_enclaves_none() {
    let game = block(vec![
        ("date", a("2205.01.01")),
        ("player", block(vec![("country", a("0"))])),
    ]);
    let country = block(vec![]);

    let facts = extract_progression_counts(&game, &country);

    assert_eq!(facts.mercenary_enclaves_patroned, Some(0));
}

// ── Vivarium Capacity ──────────────────────────────────────

#[test]
fn test_vivarium_capacity() {
    let game = block(vec![
        ("date", a("2205.01.01")),
        ("player", block(vec![("country", a("0"))])),
        (
            "vivarium_critters",
            block(vec![
                ("0", block(vec![("species", a("0"))])),
                ("1", block(vec![("species", a("1"))])),
                ("2", block(vec![("species", a("2"))])),
            ]),
        ),
        (
            "exhibits",
            block(vec![("0", block(vec![("name", a("exhibit_a"))]))]),
        ),
    ]);
    let country = block(vec![]);

    let facts = extract_progression_counts(&game, &country);

    assert_eq!(facts.vivarium_capacity, Some(4)); // 3 critters + 1 exhibit
}

#[test]
fn test_vivarium_capacity_empty() {
    let game = block(vec![
        ("date", a("2205.01.01")),
        ("player", block(vec![("country", a("0"))])),
        ("vivarium_critters", block(vec![])),
        ("exhibits", block(vec![])),
    ]);
    let country = block(vec![]);

    let facts = extract_progression_counts(&game, &country);

    assert_eq!(facts.vivarium_capacity, Some(0));
}

#[test]
fn test_vivarium_capacity_missing() {
    let game = block(vec![
        ("date", a("2205.01.01")),
        ("player", block(vec![("country", a("0"))])),
    ]);
    let country = block(vec![]);

    let facts = extract_progression_counts(&game, &country);

    assert_eq!(facts.vivarium_capacity, None);
}

#[test]
fn test_vivarium_capacity_only_critters() {
    let game = block(vec![
        ("date", a("2205.01.01")),
        ("player", block(vec![("country", a("0"))])),
        (
            "vivarium_critters",
            block(vec![("0", block(vec![("species", a("0"))]))]),
        ),
    ]);
    let country = block(vec![]);

    let facts = extract_progression_counts(&game, &country);

    assert_eq!(facts.vivarium_capacity, Some(1));
}

// ── New dimension defaults ───────────────────────────────

#[test]
fn test_new_dimensions_all_none_when_missing() {
    let game = block(vec![
        ("date", a("2205.01.01")),
        ("player", block(vec![("country", a("0"))])),
    ]);
    let country = block(vec![]);

    let facts = extract_progression_counts(&game, &country);

    assert_eq!(facts.enslaved_pops_count, None);
    assert_eq!(facts.strategic_resources_types, None);
    assert_eq!(facts.organic_empires_remaining, None);
    assert_eq!(facts.gateway_count, None);
    assert_eq!(facts.hyper_relay_count, None);
    assert_eq!(facts.intel_level_count, None);
    assert_eq!(facts.observation_station_count, Some(0));
    assert_eq!(facts.capital_building_level, None);
    assert_eq!(facts.living_standard, None);
    assert_eq!(facts.mercenary_enclaves_patroned, Some(0));
    assert_eq!(facts.vivarium_capacity, None);
}
