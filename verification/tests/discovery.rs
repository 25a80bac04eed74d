use stellaris_hunter_scan::clausewitz::{ClausewitzNode, ClausewitzValue};
use stellaris_hunter_scan::discovery::extract_discovery_facts;

/// Convenience: create a ClausewitzValue::Atom from a &str.
fn atom(s: &str) -> ClausewitzValue {
    ClausewitzValue::Atom(s.to_string())
}

/// Convenience: create a ClausewitzValue::Block from key-value pairs.
fn block(pairs: Vec<(&str, ClausewitzValue)>) -> ClausewitzValue {
    ClausewitzValue::Block(
        pairs
            .into_iter()
            .map(|(k, v)| ClausewitzNode::Pair(k.to_string(), v))
            .collect(),
    )
}

/// Convenience: create a ClausewitzValue::Block from value-only nodes.
fn value_block(values: Vec<ClausewitzValue>) -> ClausewitzValue {
    ClausewitzValue::Block(values.into_iter().map(ClausewitzNode::Value).collect())
}

// ── empty_state: all None ──────────────────────────────────────────────

#[test]
fn test_all_none_when_no_relevant_data() {
    let country = block(vec![]);
    let game = block(vec![]);
    let facts = extract_discovery_facts(&game, &country);

    assert_eq!(facts.endgame_crisis, None);
    assert_eq!(facts.sol_system_era, None);
    assert_eq!(facts.primitive_earth_present, None);
    assert_eq!(facts.pre_ftl_era_target, None);
    assert_eq!(facts.target_species_class, None);
    assert_eq!(facts.target_homeworld_class, None);
    assert_eq!(facts.precursor_type, None);
    assert_eq!(facts.precursor_chain_completed, None);
    assert_eq!(facts.l_cluster_unlocked, None);
    assert_eq!(facts.shielded_world_unlocked, None);
    assert_eq!(facts.ancient_leviathan, None);
    assert_eq!(facts.enclave_type_present, None);
    assert_eq!(facts.great_khan_spawned, None);
}

// ── endgame_crisis from flags ──────────────────────────────────────────

#[test]
fn test_endgame_crisis_from_flags() {
    let country = block(vec![(
        "flags",
        block(vec![("crisis_contingency", atom("70000000"))]),
    )]);
    let game = block(vec![]);
    let facts = extract_discovery_facts(&game, &country);

    assert_eq!(facts.endgame_crisis, Some("crisis_contingency".to_string()));
}

#[test]
fn test_endgame_crisis_substring_fallback() {
    let country = block(vec![(
        "flags",
        block(vec![("some_crisis_flag", atom("70000000"))]),
    )]);
    let game = block(vec![]);
    let facts = extract_discovery_facts(&game, &country);

    assert_eq!(facts.endgame_crisis, Some("some_crisis_flag".to_string()));
}

// ── great_khan_spawned from flags ──────────────────────────────────────

#[test]
fn test_great_khan_spawned_from_flags() {
    let country = block(vec![(
        "flags",
        block(vec![("great_khan_spawned", atom("70000000"))]),
    )]);
    let game = block(vec![]);
    let facts = extract_discovery_facts(&game, &country);

    assert_eq!(facts.great_khan_spawned, Some(true));
}

#[test]
fn test_great_khan_not_spawned() {
    let country = block(vec![(
        "flags",
        block(vec![("first_colony", atom("70000000"))]),
    )]);
    let game = block(vec![]);
    let facts = extract_discovery_facts(&game, &country);

    assert_eq!(facts.great_khan_spawned, None);
}

// ── l_cluster_unlocked from flags ──────────────────────────────────────

#[test]
fn test_l_cluster_unlocked() {
    let country = block(vec![(
        "flags",
        block(vec![("l_cluster_unlocked", atom("70000000"))]),
    )]);
    let game = block(vec![]);
    let facts = extract_discovery_facts(&game, &country);

    assert_eq!(facts.l_cluster_unlocked, Some(true));
}

#[test]
fn test_l_cluster_terminal_egress() {
    let country = block(vec![(
        "flags",
        block(vec![("terminal_egress_unlocked", atom("70000000"))]),
    )]);
    let game = block(vec![]);
    let facts = extract_discovery_facts(&game, &country);

    assert_eq!(facts.l_cluster_unlocked, Some(true));
}

// ── shielded_world from flags ──────────────────────────────────────────

#[test]
fn test_shielded_world_unlocked() {
    let country = block(vec![(
        "flags",
        block(vec![("shielded_world_unlocked", atom("70000000"))]),
    )]);
    let game = block(vec![]);
    let facts = extract_discovery_facts(&game, &country);

    assert_eq!(facts.shielded_world_unlocked, Some(true));
}

// ── primitive_earth from flags ─────────────────────────────────────────

#[test]
fn test_primitive_earth_present() {
    let country = block(vec![(
        "flags",
        block(vec![("primitive_earth", atom("70000000"))]),
    )]);
    let game = block(vec![]);
    let facts = extract_discovery_facts(&game, &country);

    assert_eq!(facts.primitive_earth_present, Some(true));
}

// ── sol_system_era from flags ──────────────────────────────────────────

#[test]
fn test_sol_system_era() {
    let country = block(vec![(
        "flags",
        block(vec![("sol_era_industrial", atom("70000000"))]),
    )]);
    let game = block(vec![]);
    let facts = extract_discovery_facts(&game, &country);

    assert_eq!(facts.sol_system_era, Some("sol_era_industrial".to_string()));
}

// ── precursor_type from archaeological sites ───────────────────────────

#[test]
fn test_precursor_type_from_archaeological_sites() {
    // Build: archaeological_sites = { sites = { 001 = { type = "site_zroni_01"
    //   last_excavator_country = 0 } } }
    // And: player = { country = 0 }
    let site = block(vec![
        ("type", atom("site_zroni_01")),
        ("last_excavator_country", atom("0")),
    ]);
    let sites = block(vec![("001", site)]);
    let arch_sites = block(vec![("sites", sites)]);

    let game = block(vec![
        ("archaeological_sites", arch_sites),
        ("player", block(vec![("country", atom("0"))])),
    ]);
    let country = block(vec![]);
    let facts = extract_discovery_facts(&game, &country);

    assert_eq!(facts.precursor_type, Some("site_zroni".to_string()));
}

#[test]
fn test_precursor_type_not_mine() {
    // Site exists but player hasn't excavated it
    let site = block(vec![
        ("type", atom("site_vultaum_01")),
        ("last_excavator_country", atom("1")), // not player
    ]);
    let sites = block(vec![("001", site)]);
    let arch_sites = block(vec![("sites", sites)]);

    let game = block(vec![
        ("archaeological_sites", arch_sites),
        ("player", block(vec![("country", atom("0"))])),
    ]);
    let country = block(vec![]);
    let facts = extract_discovery_facts(&game, &country);

    assert_eq!(facts.precursor_type, None);
}

// ── precursor_chain_completed ──────────────────────────────────────────

#[test]
fn test_precursor_chain_completed() {
    // One Zroni site completed by player
    let site = block(vec![
        ("type", atom("site_zroni_01")),
        ("last_excavator_country", atom("0")),
    ]);
    let sites = block(vec![("001", site)]);
    let arch_sites = block(vec![("sites", sites)]);

    let game = block(vec![
        ("archaeological_sites", arch_sites),
        ("player", block(vec![("country", atom("0"))])),
    ]);
    let country = block(vec![]);
    let facts = extract_discovery_facts(&game, &country);

    // Returns the first chain with a completed site
    assert_eq!(
        facts.precursor_chain_completed,
        Some("site_zroni".to_string())
    );
}

#[test]
fn precursor_chain_passes_over_other_sites() {
    let site = |t: &str, by: &str| {
        block(vec![("type", atom(t)), ("last_excavator_country", atom(by))])
    };
    let sites = block(vec![
        ("1", site("site_ancient_ruins", "0")),
        ("2", block(vec![("last_excavator_country", atom("0"))])),
        ("3", site("site_vultaum_01", "7")),
        ("4", site("site_zroni_01", "0")),
        ("5", site("site_cybrex_01", "0")),
    ]);
    let game = block(vec![
        ("player", block(vec![("country", atom("0"))])),
        ("archaeological_sites", block(vec![("sites", sites)])),
    ]);
    let facts = extract_discovery_facts(&game, &block(vec![]));
    assert_eq!(facts.precursor_chain_completed, Some("site_zroni".to_string()));
}

#[test]
fn precursor_chain_needs_a_site_of_the_player() {
    let sites = block(vec![(
        "1",
        block(vec![("type", atom("site_zroni_01")), ("last_excavator_country", atom("3"))]),
    )]);
    let game = block(vec![
        ("player", block(vec![("country", atom("0"))])),
        ("archaeological_sites", block(vec![("sites", sites)])),
    ]);
    let facts = extract_discovery_facts(&game, &block(vec![]));
    assert_eq!(facts.precursor_chain_completed, None);
}

// ── ancient_leviathan from ambient_object ──────────────────────────────

#[test]
fn test_ancient_leviathan_from_ambient() {
    let drake = block(vec![("type", atom("ether_drake"))]);
    let ambient = block(vec![("entity_001", drake)]);

    let game = block(vec![("ambient_object", ambient)]);
    let country = block(vec![]);
    let facts = extract_discovery_facts(&game, &country);

    assert_eq!(facts.ancient_leviathan, Some("ether_drake".to_string()));
}

#[test]
fn test_ancient_leviathan_when_empty() {
    let game = block(vec![("ambient_object", block(vec![]))]);
    let country = block(vec![]);
    let facts = extract_discovery_facts(&game, &country);

    assert_eq!(facts.ancient_leviathan, None);
}

// ── enclave_type_present from galactic_object ──────────────────────────

#[test]
fn test_enclave_type_present() {
    let curator = block(vec![("type", atom("curator_enclave"))]);
    let gal_objects = block(vec![("entity_001", curator)]);

    let game = block(vec![("galactic_object", gal_objects)]);
    let country = block(vec![]);
    let facts = extract_discovery_facts(&game, &country);

    assert_eq!(facts.enclave_type_present, Some("curator".to_string()));
}

#[test]
fn test_enclave_type_present_from_flags() {
    let country = block(vec![(
        "flags",
        block(vec![("curator_enclave_discovered", atom("70000000"))]),
    )]);
    let game = block(vec![]);
    let facts = extract_discovery_facts(&game, &country);

    assert_eq!(
        facts.enclave_type_present,
        Some("curator_enclave_discovered".to_string())
    );
}

// ── first_contacts extraction ──────────────────────────────────────────

#[test]
fn test_pre_ftl_era_from_contacts() {
    let contact = block(vec![
        ("type", atom("pre_ftl_civilization")),
        ("stage", atom("early_space_age")),
    ]);
    let contacts = block(vec![("contact_001", contact)]);
    let first_contacts = block(vec![("contacts", contacts)]);

    let game = block(vec![("first_contacts", first_contacts)]);
    let country = block(vec![]);
    let facts = extract_discovery_facts(&game, &country);

    assert_eq!(
        facts.pre_ftl_era_target,
        Some("early_space_age".to_string())
    );
}

#[test]
fn test_target_species_class_from_contacts() {
    let species = block(vec![("class", atom("MAM"))]);
    let contact = block(vec![
        ("type", atom("pre_ftl_civilization")),
        ("species", species),
    ]);
    let contacts = block(vec![("contact_001", contact)]);
    let first_contacts = block(vec![("contacts", contacts)]);

    let game = block(vec![("first_contacts", first_contacts)]);
    let country = block(vec![]);
    let facts = extract_discovery_facts(&game, &country);

    assert_eq!(facts.target_species_class, Some("MAM".to_string()));
}

#[test]
fn test_target_homeworld_class_from_contacts() {
    let homeworld = block(vec![("class", atom("pc_continental"))]);
    let contact = block(vec![
        ("type", atom("pre_ftl_civilization")),
        ("homeworld", homeworld),
    ]);
    let contacts = block(vec![("contact_001", contact)]);
    let first_contacts = block(vec![("contacts", contacts)]);

    let game = block(vec![("first_contacts", first_contacts)]);
    let country = block(vec![]);
    let facts = extract_discovery_facts(&game, &country);

    assert_eq!(
        facts.target_homeworld_class,
        Some("pc_continental".to_string())
    );
}
