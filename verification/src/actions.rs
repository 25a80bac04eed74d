//! Action facts: what the player has done, read from a parsed gamestate and
//! the player's country block.
pub mod diplomacy;
pub mod empire;
pub mod exploration;
pub mod military;
pub mod relics;

use vstd::prelude::*;
use crate::clausewitz::{ClausewitzValue, SValue, atom2, atom_at, opt_str_view, value_view};
use crate::flags::{has_any_flag, has_flag, spec_has_any_flag, spec_has_flag};
use crate::gather::{
    count2, count_at, field_contains, has_perk, spec_category_pops, spec_category_species_count,
};
use crate::text::views;
use crate::clausewitz::path_view;
use self::diplomacy::{
    count_espionage_operations_completed, count_migration_treaties, count_player_active_wars,
    count_proxy_wars, extract_enclave_interaction_type, extract_federation_formed,
    extract_federation_level, extract_federation_member_ethics, extract_federation_type,
    extract_gc_custodian, extract_gc_exists, extract_subject_type, extract_subjects_data,
    flag_key_count, spec_active_wars, spec_enclave_interaction_type, spec_federation_formed,
    spec_federation_level, spec_federation_member_ethics, spec_federation_type, spec_gc_custodian,
    spec_gc_exists, spec_migration_treaties, spec_subject_type, spec_subjects_count,
};
use self::empire::{
    check_horizon_signal, colony_count_without_hyperspace, count_galactic_memorials_on_tomb_worlds,
    count_livestock_species, count_volcanic_planets, extract_covenant,
    extract_special_project_completed_type, max_species_on_planet, spec_colonies_without_hyperspace,
    spec_covenant, spec_horizon_signal, spec_max_species_on_planet, spec_memorial_tombs,
    spec_planets_of_class, spec_special_project,
};
use self::exploration::{
    count_astral_rifts_explored, extract_archaeology_sites, extract_first_contact_result,
    extract_space_fauna_type_captured, spec_archaeology_sites, spec_astral_rifts,
    spec_first_contact, spec_space_fauna,
};
use self::military::{
    count_purged_pops, extract_colossus_weapon_type, extract_crisis_path_cosmogenesis,
    extract_crisis_path_nemesis, spec_colossus_weapon, spec_crisis_path_cosmogenesis,
    spec_crisis_path_nemesis,
};
use self::relics::{
    extract_galatron, extract_relic_active_effect_used, extract_relics_owned, spec_galatron,
    spec_relic_active_effect_used, spec_relics_owned,
};

verus! {

/// Action and event facts of one save: milestones and one-off events.
#[derive(Debug, Clone, Default)]
pub struct ActionFacts {
    pub active_wars: Option<usize>,
    pub war_type: Option<String>,
    pub subjects_acquired: Option<usize>,
    pub vassal_count: Option<usize>,
    pub subject_type: Option<String>,
    pub subject_contract_modified: Option<bool>,
    pub secret_fealty_pledged: Option<bool>,
    pub proxy_war_count: Option<usize>,
    pub federation_formed: Option<bool>,
    pub federation_type: Option<String>,
    pub federation_level: Option<usize>,
    pub federation_member_ethics: Vec<String>,
    pub galactic_community_exists: Option<bool>,
    pub galactic_community_founding_member: Option<bool>,
    pub galactic_custodian: Option<bool>,
    pub galactic_custodian_action: Option<String>,
    pub galactic_emperor: Option<bool>,
    pub galactic_emperor_rebellion: Option<bool>,
    pub colossus_built: Option<bool>,
    pub colossus_weapon_type: Option<String>,
    pub colossus_destroyed_while_firing: Option<bool>,
    pub species_genetically_modified: Option<bool>,
    pub species_uplifted: Option<bool>,
    pub species_on_planet_count: Option<usize>,
    pub species_dna_phenotypes_collected: Option<usize>,
    pub slavery_type: Option<String>,
    pub livestock_species_count: Option<usize>,
    pub purged_pops: Option<usize>,
    pub species_enslaved: Option<bool>,
    pub relic_owned: Option<String>,
    pub relic_active_effect_used: Option<String>,
    pub galatron_acquired: Option<bool>,
    pub galatron_captured: Option<bool>,
    pub archaeological_site_completed: Option<String>,
    pub wormhole_travel_completed: Option<bool>,
    pub pre_ftl_infiltration_completed: Option<bool>,
    pub first_contact_result: Option<String>,
    pub espionage_operations_completed: Option<usize>,
    pub astral_rifts_explored: Option<usize>,
    pub crisis_defeated: Option<bool>,
    pub captured_prethoryn_scourge_queen: Option<bool>,
    pub crisis_path_nemesis: Option<bool>,
    pub crisis_path_cosmogenesis: Option<bool>,
    pub crisis_path_hyperthermia: Option<bool>,
    pub crisis_path_behemoth_fury: Option<bool>,
    pub machine_uprising_victory: Option<bool>,
    pub amoeba_companion_found: Option<bool>,
    pub amoeba_companion_killed: Option<bool>,
    pub artisan_enclave_patron: Option<bool>,
    pub enclave_interaction_type: Option<String>,
    pub migration_treaty_count: Option<usize>,
    pub legendary_paragon_recruited: Option<bool>,
    pub robot_pop_built: Option<bool>,
    pub horizon_signal_completed: Option<bool>,
    pub civil_war_completed: Option<bool>,
    pub special_project_completed_type: Option<String>,
    pub covenant_type: Option<String>,
    pub psionic_techs_unlocked: Option<bool>,
    pub quantum_catapult_used: Option<bool>,
    pub blazing_scourge_decisions: Option<bool>,
    pub stars_terraform_to_red_giant: Option<usize>,
    pub planets_terraform_to_volcanic: Option<usize>,
    pub volcanic_holy_world_created: Option<bool>,
    pub galactic_memorials_on_tomb_worlds: Option<usize>,
    pub space_fauna_type_captured: Option<String>,
    pub colony_count_with_hyperspace_not_researched: Option<usize>,
    pub pre_ftl_invasion_occurred: Option<bool>,
    pub artificial_military_ships_built: Option<bool>,
    pub invaded_primitive_earth: Option<bool>,
}

/// `Some` of whether the country has the flag `name`.
pub open spec fn flag_fact(c: SValue, name: Seq<char>) -> Option<bool> {
    Some(spec_has_flag(c, name))
}

/// `f` holds the action facts of the player `pid` whose country block is
/// `c`, in the gamestate `g`.
pub open spec fn action_facts_of(f: ActionFacts, g: SValue, c: SValue, pid: Seq<char>) -> bool {
    let wars = spec_active_wars(g, pid);
    &&& f.active_wars == (if wars.0 > 0 {
        Some(wars.0 as usize)
    } else {
        None
    })
    &&& opt_str_view(f.war_type) == wars.1
    &&& f.subjects_acquired == spec_subjects_count(c)
    &&& f.vassal_count == spec_subjects_count(c)
    &&& opt_str_view(f.subject_type) == spec_subject_type(c)
    &&& f.subject_contract_modified == flag_fact(c, "subject_contract_modified"@)
    &&& f.secret_fealty_pledged == Some(
        spec_has_any_flag(c, seq!["secret_fealty_pledged"@, "secret_fealty"@, "fealty_pledged"@]),
    )
    &&& f.proxy_war_count == flag_key_count(c, "proxy_war"@)
    &&& f.federation_formed == spec_federation_formed(c)
    &&& opt_str_view(f.federation_type) == spec_federation_type(g, c)
    &&& f.federation_level == spec_federation_level(g, c)
    &&& views(f.federation_member_ethics@) == spec_federation_member_ethics(g, c, pid)
    &&& f.galactic_community_exists == spec_gc_exists(g)
    &&& f.galactic_community_founding_member == flag_fact(c, "galactic_community_founding_member"@)
    &&& f.galactic_custodian == spec_gc_custodian(g, pid)
    &&& opt_str_view(f.galactic_custodian_action) == atom_at(c, seq!["flags"@, "custodian_action"@])
    &&& f.galactic_emperor == flag_fact(c, "galactic_emperor"@)
    &&& f.galactic_emperor_rebellion == flag_fact(c, "galactic_emperor_rebellion"@)
    &&& f.colossus_built == Some(has_perk(c, "ap_colossus"@))
    &&& opt_str_view(f.colossus_weapon_type) == spec_colossus_weapon(c)
    &&& f.colossus_destroyed_while_firing == flag_fact(c, "colossus_destroyed"@)
    &&& f.species_genetically_modified == flag_fact(c, "genetically_modified"@)
    &&& f.species_uplifted == flag_fact(c, "species_uplifted"@)
    &&& f.species_on_planet_count == spec_max_species_on_planet(g, pid)
    &&& f.species_dna_phenotypes_collected == count_at(
        c,
        seq!["variables"@, "smorgasblorg_phenotypes"@],
    )
    &&& opt_str_view(f.slavery_type) == atom_at(c, seq!["flags"@, "slavery_type"@])
    &&& f.livestock_species_count == spec_category_species_count(g, "livestock"@)
    &&& f.purged_pops == spec_category_pops(g, "purge"@)
    &&& f.species_enslaved == flag_fact(c, "species_enslaved"@)
    &&& opt_str_view(f.relic_owned) == spec_relics_owned(c)
    &&& opt_str_view(f.relic_active_effect_used) == spec_relic_active_effect_used(c)
    &&& f.galatron_acquired == spec_galatron(c)
    &&& f.galatron_captured == flag_fact(c, "galatron_captured"@)
    &&& opt_str_view(f.archaeological_site_completed) == spec_archaeology_sites(g, pid)
    &&& f.wormhole_travel_completed == flag_fact(c, "wormhole_travel_completed"@)
    &&& f.pre_ftl_infiltration_completed == flag_fact(c, "pre_ftl_infiltrated"@)
    &&& opt_str_view(f.first_contact_result) == spec_first_contact(g)
    &&& f.espionage_operations_completed == flag_key_count(c, "espionage_operation_completed"@)
    &&& f.astral_rifts_explored == spec_astral_rifts(g)
    &&& f.crisis_defeated == flag_fact(c, "crisis_defeated"@)
    &&& f.captured_prethoryn_scourge_queen == flag_fact(c, "prethoryn_queen_captured"@)
    &&& f.crisis_path_nemesis == spec_crisis_path_nemesis(c)
    &&& f.crisis_path_cosmogenesis == spec_crisis_path_cosmogenesis(c)
    &&& f.crisis_path_hyperthermia == flag_fact(c, "hyperthermia"@)
    &&& f.crisis_path_behemoth_fury == flag_fact(c, "behemoth_fury"@)
    &&& f.machine_uprising_victory == flag_fact(c, "machine_uprising_survived"@)
    &&& f.amoeba_companion_found == flag_fact(c, "space_amoeba_companion"@)
    &&& f.amoeba_companion_killed == flag_fact(c, "space_amoeba_killed"@)
    &&& f.artisan_enclave_patron == flag_fact(c, "artisan_enclave_patron"@)
    &&& opt_str_view(f.enclave_interaction_type) == spec_enclave_interaction_type(c)
    &&& f.migration_treaty_count == spec_migration_treaties(c)
    &&& f.legendary_paragon_recruited == flag_fact(c, "legendary_paragon_recruited"@)
    &&& f.robot_pop_built == flag_fact(c, "robot_pop_built"@)
    &&& f.horizon_signal_completed == spec_horizon_signal(c)
    &&& f.civil_war_completed == flag_fact(c, "civil_war_completed"@)
    &&& opt_str_view(f.special_project_completed_type) == spec_special_project(c)
    &&& opt_str_view(f.covenant_type) == spec_covenant(c)
    &&& f.psionic_techs_unlocked == Some(
        has_perk(c, "ap_mind_over_matter"@) || spec_has_flag(c, "psionic_theory_researched"@),
    )
    &&& f.quantum_catapult_used == flag_fact(c, "quantum_catapult_used"@)
    &&& f.blazing_scourge_decisions == flag_fact(c, "INF_A_blazing_tomb_world"@)
    &&& f.stars_terraform_to_red_giant == count_at(c, seq!["variables"@, "hyperthermia_giant_var"@])
    &&& f.planets_terraform_to_volcanic == spec_planets_of_class(g, pid, "pc_volcanic"@)
    &&& f.volcanic_holy_world_created == flag_fact(c, "volcanic_holy_world"@)
    &&& f.galactic_memorials_on_tomb_worlds == spec_memorial_tombs(g, pid)
    &&& opt_str_view(f.space_fauna_type_captured) == spec_space_fauna(g)
    &&& f.colony_count_with_hyperspace_not_researched == spec_colonies_without_hyperspace(c)
    &&& f.pre_ftl_invasion_occurred == flag_fact(c, "with_great_power_achievement_locked"@)
    &&& f.artificial_military_ships_built == flag_fact(c, "built_artificial_ship"@)
    &&& f.invaded_primitive_earth == flag_fact(c, "invaded_earth"@)
}

/// Reads every action fact of the player `player_country_id`.
pub fn extract_action_facts(
    game_root: &ClausewitzValue,
    country_value: &ClausewitzValue,
    player_country_id: &str,
) -> (r: ActionFacts)
    ensures
        action_facts_of(r, value_view(*game_root), value_view(*country_value), player_country_id@),
{
    let (active_wars, war_type) = count_player_active_wars(game_root, player_country_id);
    let (subjects_acquired, vassal_count) = extract_subjects_data(country_value);
    let fealty = ["secret_fealty_pledged", "secret_fealty", "fealty_pledged"];
    proof {
        assert(path_view(fealty@) =~= seq![
            "secret_fealty_pledged"@,
            "secret_fealty"@,
            "fealty_pledged"@,
        ]);
    }
    let c = country_value;
    let g = game_root;
    ActionFacts {
        active_wars: if active_wars > 0 {
            Some(active_wars)
        } else {
            None
        },
        war_type,
        subjects_acquired,
        vassal_count,
        subject_type: extract_subject_type(c),
        subject_contract_modified: Some(has_flag(c, "subject_contract_modified")),
        secret_fealty_pledged: Some(has_any_flag(c, &fealty)),
        proxy_war_count: count_proxy_wars(c),
        federation_formed: extract_federation_formed(c),
        federation_type: extract_federation_type(g, c),
        federation_level: extract_federation_level(g, c),
        federation_member_ethics: extract_federation_member_ethics(g, c, player_country_id),
        galactic_community_exists: extract_gc_exists(g),
        galactic_community_founding_member: Some(has_flag(c, "galactic_community_founding_member")),
        galactic_custodian: extract_gc_custodian(g, player_country_id),
        galactic_custodian_action: atom2(c, "flags", "custodian_action"),
        galactic_emperor: Some(has_flag(c, "galactic_emperor")),
        galactic_emperor_rebellion: Some(has_flag(c, "galactic_emperor_rebellion")),
        colossus_built: Some(field_contains(c, "ascension_perks", "ap_colossus")),
        colossus_weapon_type: extract_colossus_weapon_type(c),
        colossus_destroyed_while_firing: Some(has_flag(c, "colossus_destroyed")),
        species_genetically_modified: Some(has_flag(c, "genetically_modified")),
        species_uplifted: Some(has_flag(c, "species_uplifted")),
        species_on_planet_count: max_species_on_planet(g, player_country_id),
        species_dna_phenotypes_collected: count2(c, "variables", "smorgasblorg_phenotypes"),
        slavery_type: atom2(c, "flags", "slavery_type"),
        livestock_species_count: count_livestock_species(g),
        purged_pops: count_purged_pops(g),
        species_enslaved: Some(has_flag(c, "species_enslaved")),
        relic_owned: extract_relics_owned(c),
        relic_active_effect_used: extract_relic_active_effect_used(c),
        galatron_acquired: extract_galatron(c),
        galatron_captured: Some(has_flag(c, "galatron_captured")),
        archaeological_site_completed: extract_archaeology_sites(g, player_country_id),
        wormhole_travel_completed: Some(has_flag(c, "wormhole_travel_completed")),
        pre_ftl_infiltration_completed: Some(has_flag(c, "pre_ftl_infiltrated")),
        first_contact_result: extract_first_contact_result(g),
        espionage_operations_completed: count_espionage_operations_completed(c),
        astral_rifts_explored: count_astral_rifts_explored(g),
        crisis_defeated: Some(has_flag(c, "crisis_defeated")),
        captured_prethoryn_scourge_queen: Some(has_flag(c, "prethoryn_queen_captured")),
        crisis_path_nemesis: extract_crisis_path_nemesis(c),
        crisis_path_cosmogenesis: extract_crisis_path_cosmogenesis(c),
        crisis_path_hyperthermia: Some(has_flag(c, "hyperthermia")),
        crisis_path_behemoth_fury: Some(has_flag(c, "behemoth_fury")),
        machine_uprising_victory: Some(has_flag(c, "machine_uprising_survived")),
        amoeba_companion_found: Some(has_flag(c, "space_amoeba_companion")),
        amoeba_companion_killed: Some(has_flag(c, "space_amoeba_killed")),
        artisan_enclave_patron: Some(has_flag(c, "artisan_enclave_patron")),
        enclave_interaction_type: extract_enclave_interaction_type(c),
        migration_treaty_count: count_migration_treaties(c),
        legendary_paragon_recruited: Some(has_flag(c, "legendary_paragon_recruited")),
        robot_pop_built: Some(has_flag(c, "robot_pop_built")),
        horizon_signal_completed: check_horizon_signal(c),
        civil_war_completed: Some(has_flag(c, "civil_war_completed")),
        special_project_completed_type: extract_special_project_completed_type(c),
        covenant_type: extract_covenant(c),
        psionic_techs_unlocked: Some(
            field_contains(c, "ascension_perks", "ap_mind_over_matter") || has_flag(
                c,
                "psionic_theory_researched",
            ),
        ),
        quantum_catapult_used: Some(has_flag(c, "quantum_catapult_used")),
        blazing_scourge_decisions: Some(has_flag(c, "INF_A_blazing_tomb_world")),
        stars_terraform_to_red_giant: count2(c, "variables", "hyperthermia_giant_var"),
        planets_terraform_to_volcanic: count_volcanic_planets(g, player_country_id),
        volcanic_holy_world_created: Some(has_flag(c, "volcanic_holy_world")),
        galactic_memorials_on_tomb_worlds: count_galactic_memorials_on_tomb_worlds(
            g,
            player_country_id,
        ),
        space_fauna_type_captured: extract_space_fauna_type_captured(g),
        colony_count_with_hyperspace_not_researched: colony_count_without_hyperspace(c),
        pre_ftl_invasion_occurred: Some(has_flag(c, "with_great_power_achievement_locked")),
        artificial_military_ships_built: Some(has_flag(c, "built_artificial_ship")),
        invaded_primitive_earth: Some(has_flag(c, "invaded_earth")),
    }
}

} // verus!
