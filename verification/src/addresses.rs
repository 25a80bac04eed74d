//! Where each catalog dimension's fact lives among the parsed facts.
use vstd::prelude::*;
use crate::text::str_eq;

verus! {

/// Dimensions read from the empire, its founder species, the save's DLC list
/// and its eligibility flags, each with its `(dimension, key)` address.
pub open spec fn setup_rows() -> Seq<(Seq<char>, Seq<char>, Seq<char>)> {
    seq![
        ("authority"@, "empire"@, "authority"@),
        ("civic"@, "empire"@, "civics"@),
        ("ethic"@, "empire"@, "ethics"@),
        ("origin"@, "empire"@, "origin"@),
        ("government_type"@, "empire"@, "government_type"@),
        ("species_class"@, "species"@, "founder_species_class"@),
        ("species_trait"@, "species"@, "founder_species_traits"@),
        ("portrait"@, "species"@, "founder_species_portrait"@),
        ("species_portrait"@, "species"@, "founder_species_portrait"@),
        ("required_dlc"@, "save"@, "required_dlcs"@),
        ("dlc"@, "save"@, "required_dlcs"@),
        ("dlc_required"@, "save"@, "required_dlcs"@),
        ("ironman"@, "eligibility"@, "ironman"@),
        ("cheated_on_save"@, "eligibility"@, "cheated_on_save"@),
    ]
}

/// Dimensions answered by discovery facts.
pub open spec fn discovery_dimensions() -> Seq<Seq<char>> {
    seq![
        "endgame_crisis"@,
        "sol_system_era"@,
        "primitive_earth_present"@,
        "pre_ftl_era_target"@,
        "target_species_class"@,
        "target_homeworld_class"@,
        "precursor_type"@,
        "precursor_chain_completed"@,
        "l_cluster_unlocked"@,
        "shielded_world_unlocked"@,
        "ancient_leviathan"@,
        "enclave_type_present"@,
        "great_khan_spawned"@,
    ]
}

/// Dimensions answered by progression facts.
pub open spec fn progression_dimensions() -> Seq<Seq<char>> {
    seq![
        "owned_planets"@,
        "colonized_planets"@,
        "surveyed_planets"@,
        "total_pops"@,
        "enslaved_pops_count"@,
        "robot_pop_ratio"@,
        "energy_stored"@,
        "energy_monthly"@,
        "minerals_monthly"@,
        "alloys_monthly"@,
        "trade_value_monthly"@,
        "strategic_resources_types"@,
        "organic_empires_remaining"@,
        "fleet_power"@,
        "fleet_count"@,
        "starbase_count"@,
        "gateway_count"@,
        "hyper_relay_count"@,
        "rare_technologies_acquired"@,
        "traditions_adopted"@,
        "ascension_perks_unlocked"@,
        "ascension_path"@,
        "years_played"@,
        "years_at_peace"@,
        "diplomatic_weight"@,
        "intel_level_count"@,
        "observation_station_count"@,
        "capital_building_level"@,
        "living_standard"@,
        "mercenary_enclaves_patroned"@,
        "vivarium_capacity"@,
        "megastructure_types"@,
    ]
}

/// Dimensions answered by action facts.
pub open spec fn action_dimensions() -> Seq<Seq<char>> {
    seq![
        "active_wars"@,
        "war_type"@,
        "subjects_acquired"@,
        "vassal_count"@,
        "subject_type"@,
        "subject_contract_modified"@,
        "secret_fealty_pledged"@,
        "proxy_war_count"@,
        "federation_formed"@,
        "federation_type"@,
        "federation_level"@,
        "federation_member_ethics"@,
        "galactic_community_exists"@,
        "galactic_community_founding_member"@,
        "galactic_custodian"@,
        "galactic_custodian_action"@,
        "galactic_emperor"@,
        "galactic_emperor_rebellion"@,
        "colossus_built"@,
        "colossus_weapon_type"@,
        "colossus_destroyed_while_firing"@,
        "species_genetically_modified"@,
        "species_uplifted"@,
        "species_on_planet_count"@,
        "species_dna_phenotypes_collected"@,
        "slavery_type"@,
        "livestock_species_count"@,
        "purged_pops"@,
        "species_enslaved"@,
        "relic_owned"@,
        "relic_active_effect_used"@,
        "galatron_acquired"@,
        "galatron_captured"@,
        "archaeological_site_completed"@,
        "wormhole_travel_completed"@,
        "pre_ftl_infiltration_completed"@,
        "first_contact_result"@,
        "espionage_operations_completed"@,
        "astral_rifts_explored"@,
        "crisis_defeated"@,
        "captured_prethoryn_scourge_queen"@,
        "crisis_path_nemesis"@,
        "crisis_path_cosmogenesis"@,
        "crisis_path_hyperthermia"@,
        "crisis_path_behemoth_fury"@,
        "machine_uprising_victory"@,
        "amoeba_companion_found"@,
        "amoeba_companion_killed"@,
        "artisan_enclave_patron"@,
        "enclave_interaction_type"@,
        "migration_treaty_count"@,
        "legendary_paragon_recruited"@,
        "robot_pop_built"@,
        "horizon_signal_completed"@,
        "civil_war_completed"@,
        "special_project_completed_type"@,
        "covenant_type"@,
        "psionic_techs_unlocked"@,
        "quantum_catapult_used"@,
        "blazing_scourge_decisions"@,
        "stars_terraform_to_red_giant"@,
        "planets_terraform_to_volcanic"@,
        "volcanic_holy_world_created"@,
        "galactic_memorials_on_tomb_worlds"@,
        "space_fauna_type_captured"@,
        "colony_count_with_hyperspace_not_researched"@,
        "invaded_primitive_earth"@,
    ]
}

/// Rows for dimensions stored under their own name in `group`.
pub open spec fn grouped(names: Seq<Seq<char>>, group: Seq<char>) -> Seq<
    (Seq<char>, Seq<char>, Seq<char>),
> {
    names.map_values(|n: Seq<char>| (n, group, n))
}

/// Every catalog dimension with the `(dimension, key)` address of its fact.
pub open spec fn address_table() -> Seq<(Seq<char>, Seq<char>, Seq<char>)> {
    setup_rows() + grouped(discovery_dimensions(), "discovery"@) + grouped(
        progression_dimensions(),
        "progression"@,
    ) + grouped(action_dimensions(), "action"@)
}

/// The address of the first row of `t` named `d`.
pub open spec fn lookup_address(t: Seq<(Seq<char>, Seq<char>, Seq<char>)>, d: Seq<char>) -> Option<
    (Seq<char>, Seq<char>),
>
    decreases t.len(),
{
    if t.len() == 0 {
        None
    } else if t[0].0 == d {
        Some((t[0].1, t[0].2))
    } else {
        lookup_address(t.drop_first(), d)
    }
}

/// The `(dimension, key)` address of the fact a catalog dimension reads.
pub open spec fn spec_fact_address(d: Seq<char>) -> Option<(Seq<char>, Seq<char>)> {
    lookup_address(address_table(), d)
}

pub open spec fn rows_view(t: Seq<(&str, &str, &str)>) -> Seq<(Seq<char>, Seq<char>, Seq<char>)> {
    t.map_values(|r: (&str, &str, &str)| (r.0@, r.1@, r.2@))
}

/// The `(dimension, key)` under which the fact for `catalog_dimension` is
/// stored, or `None` for a dimension no parsed fact supports.
pub fn fact_address(catalog_dimension: &str) -> (r: Option<(&'static str, &'static str)>)
    ensures
        match r {
            Some(a) => spec_fact_address(catalog_dimension@) == Some((a.0@, a.1@)),
            None => spec_fact_address(catalog_dimension@) is None,
        },
{
    let table: [(&'static str, &'static str, &'static str); 126] = [
        ("authority", "empire", "authority"),
        ("civic", "empire", "civics"),
        ("ethic", "empire", "ethics"),
        ("origin", "empire", "origin"),
        ("government_type", "empire", "government_type"),
        ("species_class", "species", "founder_species_class"),
        ("species_trait", "species", "founder_species_traits"),
        ("portrait", "species", "founder_species_portrait"),
        ("species_portrait", "species", "founder_species_portrait"),
        ("required_dlc", "save", "required_dlcs"),
        ("dlc", "save", "required_dlcs"),
        ("dlc_required", "save", "required_dlcs"),
        ("ironman", "eligibility", "ironman"),
        ("cheated_on_save", "eligibility", "cheated_on_save"),
        ("endgame_crisis", "discovery", "endgame_crisis"),
        ("sol_system_era", "discovery", "sol_system_era"),
        ("primitive_earth_present", "discovery", "primitive_earth_present"),
        ("pre_ftl_era_target", "discovery", "pre_ftl_era_target"),
        ("target_species_class", "discovery", "target_species_class"),
        ("target_homeworld_class", "discovery", "target_homeworld_class"),
        ("precursor_type", "discovery", "precursor_type"),
        ("precursor_chain_completed", "discovery", "precursor_chain_completed"),
        ("l_cluster_unlocked", "discovery", "l_cluster_unlocked"),
        ("shielded_world_unlocked", "discovery", "shielded_world_unlocked"),
        ("ancient_leviathan", "discovery", "ancient_leviathan"),
        ("enclave_type_present", "discovery", "enclave_type_present"),
        ("great_khan_spawned", "discovery", "great_khan_spawned"),
        ("owned_planets", "progression", "owned_planets"),
        ("colonized_planets", "progression", "colonized_planets"),
        ("surveyed_planets", "progression", "surveyed_planets"),
        ("total_pops", "progression", "total_pops"),
        ("enslaved_pops_count", "progression", "enslaved_pops_count"),
        ("robot_pop_ratio", "progression", "robot_pop_ratio"),
        ("energy_stored", "progression", "energy_stored"),
        ("energy_monthly", "progression", "energy_monthly"),
        ("minerals_monthly", "progression", "minerals_monthly"),
        ("alloys_monthly", "progression", "alloys_monthly"),
        ("trade_value_monthly", "progression", "trade_value_monthly"),
        ("strategic_resources_types", "progression", "strategic_resources_types"),
        ("organic_empires_remaining", "progression", "organic_empires_remaining"),
        ("fleet_power", "progression", "fleet_power"),
        ("fleet_count", "progression", "fleet_count"),
        ("starbase_count", "progression", "starbase_count"),
        ("gateway_count", "progression", "gateway_count"),
        ("hyper_relay_count", "progression", "hyper_relay_count"),
        ("rare_technologies_acquired", "progression", "rare_technologies_acquired"),
        ("traditions_adopted", "progression", "traditions_adopted"),
        ("ascension_perks_unlocked", "progression", "ascension_perks_unlocked"),
        ("ascension_path", "progression", "ascension_path"),
        ("years_played", "progression", "years_played"),
        ("years_at_peace", "progression", "years_at_peace"),
        ("diplomatic_weight", "progression", "diplomatic_weight"),
        ("intel_level_count", "progression", "intel_level_count"),
        ("observation_station_count", "progression", "observation_station_count"),
        ("capital_building_level", "progression", "capital_building_level"),
        ("living_standard", "progression", "living_standard"),
        ("mercenary_enclaves_patroned", "progression", "mercenary_enclaves_patroned"),
        ("vivarium_capacity", "progression", "vivarium_capacity"),
        ("megastructure_types", "progression", "megastructure_types"),
        ("active_wars", "action", "active_wars"),
        ("war_type", "action", "war_type"),
        ("subjects_acquired", "action", "subjects_acquired"),
        ("vassal_count", "action", "vassal_count"),
        ("subject_type", "action", "subject_type"),
        ("subject_contract_modified", "action", "subject_contract_modified"),
        ("secret_fealty_pledged", "action", "secret_fealty_pledged"),
        ("proxy_war_count", "action", "proxy_war_count"),
        ("federation_formed", "action", "federation_formed"),
        ("federation_type", "action", "federation_type"),
        ("federation_level", "action", "federation_level"),
        ("federation_member_ethics", "action", "federation_member_ethics"),
        ("galactic_community_exists", "action", "galactic_community_exists"),
        ("galactic_community_founding_member", "action", "galactic_community_founding_member"),
        ("galactic_custodian", "action", "galactic_custodian"),
        ("galactic_custodian_action", "action", "galactic_custodian_action"),
        ("galactic_emperor", "action", "galactic_emperor"),
        ("galactic_emperor_rebellion", "action", "galactic_emperor_rebellion"),
        ("colossus_built", "action", "colossus_built"),
        ("colossus_weapon_type", "action", "colossus_weapon_type"),
        ("colossus_destroyed_while_firing", "action", "colossus_destroyed_while_firing"),
        ("species_genetically_modified", "action", "species_genetically_modified"),
        ("species_uplifted", "action", "species_uplifted"),
        ("species_on_planet_count", "action", "species_on_planet_count"),
        ("species_dna_phenotypes_collected", "action", "species_dna_phenotypes_collected"),
        ("slavery_type", "action", "slavery_type"),
        ("livestock_species_count", "action", "livestock_species_count"),
        ("purged_pops", "action", "purged_pops"),
        ("species_enslaved", "action", "species_enslaved"),
        ("relic_owned", "action", "relic_owned"),
        ("relic_active_effect_used", "action", "relic_active_effect_used"),
        ("galatron_acquired", "action", "galatron_acquired"),
        ("galatron_captured", "action", "galatron_captured"),
        ("archaeological_site_completed", "action", "archaeological_site_completed"),
        ("wormhole_travel_completed", "action", "wormhole_travel_completed"),
        ("pre_ftl_infiltration_completed", "action", "pre_ftl_infiltration_completed"),
        ("first_contact_result", "action", "first_contact_result"),
        ("espionage_operations_completed", "action", "espionage_operations_completed"),
        ("astral_rifts_explored", "action", "astral_rifts_explored"),
        ("crisis_defeated", "action", "crisis_defeated"),
        ("captured_prethoryn_scourge_queen", "action", "captured_prethoryn_scourge_queen"),
        ("crisis_path_nemesis", "action", "crisis_path_nemesis"),
        ("crisis_path_cosmogenesis", "action", "crisis_path_cosmogenesis"),
        ("crisis_path_hyperthermia", "action", "crisis_path_hyperthermia"),
        ("crisis_path_behemoth_fury", "action", "crisis_path_behemoth_fury"),
        ("machine_uprising_victory", "action", "machine_uprising_victory"),
        ("amoeba_companion_found", "action", "amoeba_companion_found"),
        ("amoeba_companion_killed", "action", "amoeba_companion_killed"),
        ("artisan_enclave_patron", "action", "artisan_enclave_patron"),
        ("enclave_interaction_type", "action", "enclave_interaction_type"),
        ("migration_treaty_count", "action", "migration_treaty_count"),
        ("legendary_paragon_recruited", "action", "legendary_paragon_recruited"),
        ("robot_pop_built", "action", "robot_pop_built"),
        ("horizon_signal_completed", "action", "horizon_signal_completed"),
        ("civil_war_completed", "action", "civil_war_completed"),
        ("special_project_completed_type", "action", "special_project_completed_type"),
        ("covenant_type", "action", "covenant_type"),
        ("psionic_techs_unlocked", "action", "psionic_techs_unlocked"),
        ("quantum_catapult_used", "action", "quantum_catapult_used"),
        ("blazing_scourge_decisions", "action", "blazing_scourge_decisions"),
        ("stars_terraform_to_red_giant", "action", "stars_terraform_to_red_giant"),
        ("planets_terraform_to_volcanic", "action", "planets_terraform_to_volcanic"),
        ("volcanic_holy_world_created", "action", "volcanic_holy_world_created"),
        ("galactic_memorials_on_tomb_worlds", "action", "galactic_memorials_on_tomb_worlds"),
        ("space_fauna_type_captured", "action", "space_fauna_type_captured"),
        ("colony_count_with_hyperspace_not_researched", "action", "colony_count_with_hyperspace_not_researched"),
        ("invaded_primitive_earth", "action", "invaded_primitive_earth"),
    ];
    let ghost tv = rows_view(table@);
    proof {
        assert(tv =~= address_table());
        assert(tv.skip(0) =~= tv);
    }
    let mut i: usize = 0;
    while i < table.len()
        invariant
            i <= table@.len(),
            tv == rows_view(table@),
            tv == address_table(),
            tv.len() == table@.len(),
            lookup_address(tv, catalog_dimension@) == lookup_address(
                tv.skip(i as int),
                catalog_dimension@,
            ),
        decreases table@.len() - i,
    {
        proof {
            assert(tv.skip(i as int)[0] == tv[i as int]);
            assert(tv.skip(i as int).drop_first() =~= tv.skip(i + 1));
        }
        let (name, dimension, key) = table[i];
        if str_eq(name, catalog_dimension) {
            return Some((dimension, key));
        }
        i = i + 1;
    }
    proof {
        assert(tv.skip(i as int) =~= Seq::<(Seq<char>, Seq<char>, Seq<char>)>::empty());
    }
    None
}

/// The groups that parsed facts are stored under.
pub open spec fn fact_group(g: Seq<char>) -> bool {
    ||| g == "empire"@
    ||| g == "species"@
    ||| g == "save"@
    ||| g == "eligibility"@
    ||| g == "discovery"@
    ||| g == "progression"@
    ||| g == "action"@
}

/// The group is one of the extracted fact sets, whose keys are the
/// dimension names themselves.
pub open spec fn extracted_group(g: Seq<char>) -> bool {
    g == "discovery"@ || g == "progression"@ || g == "action"@
}

pub open spec fn row_ok(r: (Seq<char>, Seq<char>, Seq<char>)) -> bool {
    &&& fact_group(r.1)
    &&& extracted_group(r.1) ==> r.2 == r.0
}

proof fn lemma_lookup_row(t: Seq<(Seq<char>, Seq<char>, Seq<char>)>, d: Seq<char>)
    requires
        forall|i: int| 0 <= i < t.len() ==> #[trigger] row_ok(t[i]),
    ensures
        match lookup_address(t, d) {
            Some(a) => row_ok((d, a.0, a.1)),
            None => true,
        },
    decreases t.len(),
{
    if t.len() > 0 && t[0].0 != d {
        assert forall|i: int| 0 <= i < t.drop_first().len() implies #[trigger] row_ok(
            t.drop_first()[i],
        ) by {
            assert(t.drop_first()[i] == t[i + 1]);
        }
        lemma_lookup_row(t.drop_first(), d);
    }
}

/// Every address names a known fact group, and a discovery, progression or
/// action dimension is stored under its own name.
pub proof fn lemma_fact_address_groups(d: Seq<char>)
    ensures
        match spec_fact_address(d) {
            Some(a) => fact_group(a.0) && (extracted_group(a.0) ==> a.1 == d),
            None => true,
        },
{
    let s = setup_rows();
    reveal_strlit("empire");
    reveal_strlit("species");
    reveal_strlit("save");
    reveal_strlit("eligibility");
    reveal_strlit("discovery");
    reveal_strlit("progression");
    reveal_strlit("action");
    assert("empire"@.len() != "discovery"@.len());
    assert("empire"@.len() != "progression"@.len());
    assert("empire"@[0] != "action"@[0]);
    assert(!extracted_group("empire"@));
    assert("species"@.len() != "discovery"@.len());
    assert("species"@.len() != "progression"@.len());
    assert("species"@.len() != "action"@.len());
    assert(!extracted_group("species"@));
    assert("save"@.len() != "discovery"@.len());
    assert("save"@.len() != "progression"@.len());
    assert("save"@.len() != "action"@.len());
    assert(!extracted_group("save"@));
    assert("eligibility"@.len() != "discovery"@.len());
    assert("eligibility"@[0] != "progression"@[0]);
    assert("eligibility"@.len() != "action"@.len());
    assert(!extracted_group("eligibility"@));
    assert forall|i: int| 0 <= i < s.len() implies #[trigger] row_ok(s[i]) by {
        if i == 0 {
            assert(row_ok(s[0]));
        } else if i == 1 {
            assert(row_ok(s[1]));
        } else if i == 2 {
            assert(row_ok(s[2]));
        } else if i == 3 {
            assert(row_ok(s[3]));
        } else if i == 4 {
            assert(row_ok(s[4]));
        } else if i == 5 {
            assert(row_ok(s[5]));
        } else if i == 6 {
            assert(row_ok(s[6]));
        } else if i == 7 {
            assert(row_ok(s[7]));
        } else if i == 8 {
            assert(row_ok(s[8]));
        } else if i == 9 {
            assert(row_ok(s[9]));
        } else if i == 10 {
            assert(row_ok(s[10]));
        } else if i == 11 {
            assert(row_ok(s[11]));
        } else if i == 12 {
            assert(row_ok(s[12]));
        } else if i == 13 {
            assert(row_ok(s[13]));
        }
    }
    let t = address_table();
    assert forall|i: int| 0 <= i < t.len() implies #[trigger] row_ok(t[i]) by {
        if i < s.len() {
            assert(t[i] == s[i]);
        }
    }
    lemma_lookup_row(t, d);
}

} // verus!
