//! The facts a run records from its latest parsed save: the save's
//! metadata, the empire's setup and founder species, the flags that bear on
//! achievement eligibility, and the truth-valued action facts.
use vstd::prelude::*;
use crate::actions::ActionFacts;
use crate::save::SaveSummary;
use crate::values::{fact_view, facts_view, FactValue, SFact};

verus! {

/// One fact to record for a run.
#[derive(Debug)]
pub struct RunFactInput {
    pub dimension: String,
    pub key: String,
    pub value: FactValue,
}

/// A fact as a dimension, a key and a value.
pub open spec fn input_view(f: RunFactInput) -> (Seq<char>, Seq<char>, SFact) {
    (f.dimension@, f.key@, fact_view(f.value))
}

pub open spec fn inputs_view(fs: Seq<RunFactInput>) -> Seq<(Seq<char>, Seq<char>, SFact)> {
    fs.map_values(|f: RunFactInput| input_view(f))
}

/// The fact of an optional text: none when it is absent.
pub open spec fn text_row(d: Seq<char>, k: Seq<char>, v: Option<String>) -> Seq<(Seq<char>, Seq<char>, SFact)> {
    match v {
        Some(s) => seq![(d, k, SFact::Text(s@))],
        None => Seq::empty(),
    }
}

/// The fact of a list of texts: none when the list is empty.
pub open spec fn list_row(d: Seq<char>, k: Seq<char>, vs: Seq<String>) -> Seq<(Seq<char>, Seq<char>, SFact)> {
    if vs.len() > 0 {
        seq![(d, k, SFact::List(vs.map_values(|s: String| SFact::Text(s@))))]
    } else {
        Seq::empty()
    }
}

/// The fact of an optional truth value: none when it is absent.
pub open spec fn bool_row(d: Seq<char>, k: Seq<char>, v: Option<bool>) -> Seq<(Seq<char>, Seq<char>, SFact)> {
    match v {
        Some(b) => seq![(d, k, SFact::Bool(b))],
        None => Seq::empty(),
    }
}

/// The facts of a save, in the order they are recorded.
pub open spec fn save_fact_rows(s: SaveSummary) -> Seq<(Seq<char>, Seq<char>, SFact)> {
    text_row("save"@, "version"@, s.version) + text_row("save"@, "date"@, s.date) + text_row(
        "save"@,
        "name"@,
        s.name,
    ) + list_row("save"@, "required_dlcs"@, s.required_dlcs@) + text_row(
        "empire"@,
        "player_country"@,
        s.player_country,
    ) + text_row("empire"@, "authority"@, s.authority) + text_row(
        "empire"@,
        "government_type"@,
        s.government_type,
    ) + text_row("empire"@, "origin"@, s.origin) + list_row("empire"@, "ethics"@, s.ethics@) + list_row(
        "empire"@,
        "civics"@,
        s.civics@,
    ) + text_row("species"@, "founder_species_ref"@, s.founder_species_ref) + text_row(
        "species"@,
        "founder_species_class"@,
        s.founder_species_class,
    ) + text_row("species"@, "founder_species_portrait"@, s.founder_species_portrait) + list_row(
        "species"@,
        "founder_species_traits"@,
        s.founder_species_traits@,
    ) + bool_row("eligibility"@, "ironman"@, s.ironman) + bool_row(
        "eligibility"@,
        "cheated_on_save"@,
        s.cheated_on_save,
    ) + action_fact_rows(s.actions)
}

/// One truth-valued fact per field, in order; absent fields give none.
pub open spec fn bool_rows(d: Seq<char>, fields: Seq<(Seq<char>, Option<bool>)>) -> Seq<
    (Seq<char>, Seq<char>, SFact),
>
    decreases fields.len(),
{
    if fields.len() == 0 {
        Seq::empty()
    } else {
        bool_rows(d, fields.drop_last()) + bool_row(d, fields.last().0, fields.last().1)
    }
}

/// The truth-valued action facts of a save, each under its own name.
pub open spec fn action_bool_fields(a: ActionFacts) -> Seq<(Seq<char>, Option<bool>)> {
    seq![
        ("subject_contract_modified"@, a.subject_contract_modified),
        ("secret_fealty_pledged"@, a.secret_fealty_pledged),
        ("federation_formed"@, a.federation_formed),
        ("galactic_community_exists"@, a.galactic_community_exists),
        ("galactic_community_founding_member"@, a.galactic_community_founding_member),
        ("galactic_custodian"@, a.galactic_custodian),
        ("galactic_emperor"@, a.galactic_emperor),
        ("galactic_emperor_rebellion"@, a.galactic_emperor_rebellion),
        ("colossus_built"@, a.colossus_built),
        ("colossus_destroyed_while_firing"@, a.colossus_destroyed_while_firing),
        ("species_genetically_modified"@, a.species_genetically_modified),
        ("species_uplifted"@, a.species_uplifted),
        ("species_enslaved"@, a.species_enslaved),
        ("galatron_acquired"@, a.galatron_acquired),
        ("galatron_captured"@, a.galatron_captured),
        ("wormhole_travel_completed"@, a.wormhole_travel_completed),
        ("pre_ftl_infiltration_completed"@, a.pre_ftl_infiltration_completed),
        ("crisis_defeated"@, a.crisis_defeated),
        ("captured_prethoryn_scourge_queen"@, a.captured_prethoryn_scourge_queen),
        ("crisis_path_nemesis"@, a.crisis_path_nemesis),
        ("crisis_path_cosmogenesis"@, a.crisis_path_cosmogenesis),
        ("crisis_path_hyperthermia"@, a.crisis_path_hyperthermia),
        ("crisis_path_behemoth_fury"@, a.crisis_path_behemoth_fury),
        ("machine_uprising_victory"@, a.machine_uprising_victory),
        ("amoeba_companion_found"@, a.amoeba_companion_found),
        ("amoeba_companion_killed"@, a.amoeba_companion_killed),
        ("artisan_enclave_patron"@, a.artisan_enclave_patron),
        ("legendary_paragon_recruited"@, a.legendary_paragon_recruited),
        ("robot_pop_built"@, a.robot_pop_built),
        ("horizon_signal_completed"@, a.horizon_signal_completed),
        ("civil_war_completed"@, a.civil_war_completed),
        ("psionic_techs_unlocked"@, a.psionic_techs_unlocked),
        ("quantum_catapult_used"@, a.quantum_catapult_used),
        ("blazing_scourge_decisions"@, a.blazing_scourge_decisions),
        ("volcanic_holy_world_created"@, a.volcanic_holy_world_created),
        ("pre_ftl_invasion_occurred"@, a.pre_ftl_invasion_occurred),
        ("artificial_military_ships_built"@, a.artificial_military_ships_built),
        ("invaded_primitive_earth"@, a.invaded_primitive_earth),
    ]
}

/// The action facts a save records: one `action` fact per truth-valued
/// action field that is present.
pub open spec fn action_fact_rows(actions: Option<ActionFacts>) -> Seq<(Seq<char>, Seq<char>, SFact)> {
    match actions {
        Some(a) => bool_rows("action"@, action_bool_fields(a)),
        None => Seq::empty(),
    }
}

/// Records an optional text, if present.
pub fn push_option(facts: &mut Vec<RunFactInput>, dimension: &str, key: &str, value: &Option<String>)
    ensures
        inputs_view(final(facts)@) == inputs_view(old(facts)@) + text_row(dimension@, key@, *value),
{
    let ghost before = inputs_view(facts@);
    if let Some(v) = value {
        facts.push(RunFactInput { dimension: dimension.to_string(), key: key.to_string(), value: FactValue::Text(v.clone()) });
    }
    proof {
        assert(inputs_view(facts@) =~= before + text_row(dimension@, key@, *value));
    }
}

/// Records a list of texts, if it is not empty.
pub fn push_vec(facts: &mut Vec<RunFactInput>, dimension: &str, key: &str, values: &[String])
    ensures
        inputs_view(final(facts)@) == inputs_view(old(facts)@) + list_row(dimension@, key@, values@),
{
    let ghost before = inputs_view(facts@);
    if values.len() > 0 {
        let mut items: Vec<FactValue> = Vec::new();
        let mut i: usize = 0;
        while i < values.len()
            invariant
                i <= values@.len(),
                facts_view(items@) == values@.take(i as int).map_values(|s: String| SFact::Text(s@)),
            decreases values@.len() - i,
        {
            let ghost old_items = items@;
            let t = values[i].clone();
            proof {
                assert(t@ == values@[i as int]@);
            }
            items.push(FactValue::Text(t));
            proof {
                assert(items@.drop_last() =~= old_items);
                assert(fact_view(items@.last()) == SFact::Text(values@[i as int]@));
                assert(facts_view(items@) == facts_view(old_items).push(SFact::Text(values@[i as int]@)));
                assert(values@.take(i + 1).map_values(|s: String| SFact::Text(s@)) =~= values@.take(
                    i as int,
                ).map_values(|s: String| SFact::Text(s@)).push(SFact::Text(values@[i as int]@)));
            }
            i = i + 1;
        }
        proof {
            assert(values@.take(i as int) =~= values@);
        }
        facts.push(RunFactInput { dimension: dimension.to_string(), key: key.to_string(), value: FactValue::List(items) });
    }
    proof {
        assert(inputs_view(facts@) =~= before + list_row(dimension@, key@, values@));
    }
}

/// Records an optional truth value, if present.
pub fn push_bool(facts: &mut Vec<RunFactInput>, dimension: &str, key: &str, value: Option<bool>)
    ensures
        inputs_view(final(facts)@) == inputs_view(old(facts)@) + bool_row(dimension@, key@, value),
{
    let ghost before = inputs_view(facts@);
    if let Some(b) = value {
        facts.push(RunFactInput { dimension: dimension.to_string(), key: key.to_string(), value: FactValue::Bool(b) });
    }
    proof {
        assert(inputs_view(facts@) =~= before + bool_row(dimension@, key@, value));
    }
}

/// Records the truth-valued action facts that are present.
pub fn push_action_facts(facts: &mut Vec<RunFactInput>, actions: &Option<ActionFacts>)
    ensures
        inputs_view(final(facts)@) == inputs_view(old(facts)@) + action_fact_rows(*actions),
{
    let ghost before = inputs_view(facts@);
    let a = match actions {
        Some(a) => a,
        None => {
            proof {
                assert(inputs_view(facts@) =~= before + action_fact_rows(*actions));
            }
            return;
        },
    };
    let fields: Vec<(&str, Option<bool>)> = vec![
        ("subject_contract_modified", a.subject_contract_modified),
        ("secret_fealty_pledged", a.secret_fealty_pledged),
        ("federation_formed", a.federation_formed),
        ("galactic_community_exists", a.galactic_community_exists),
        ("galactic_community_founding_member", a.galactic_community_founding_member),
        ("galactic_custodian", a.galactic_custodian),
        ("galactic_emperor", a.galactic_emperor),
        ("galactic_emperor_rebellion", a.galactic_emperor_rebellion),
        ("colossus_built", a.colossus_built),
        ("colossus_destroyed_while_firing", a.colossus_destroyed_while_firing),
        ("species_genetically_modified", a.species_genetically_modified),
        ("species_uplifted", a.species_uplifted),
        ("species_enslaved", a.species_enslaved),
        ("galatron_acquired", a.galatron_acquired),
        ("galatron_captured", a.galatron_captured),
        ("wormhole_travel_completed", a.wormhole_travel_completed),
        ("pre_ftl_infiltration_completed", a.pre_ftl_infiltration_completed),
        ("crisis_defeated", a.crisis_defeated),
        ("captured_prethoryn_scourge_queen", a.captured_prethoryn_scourge_queen),
        ("crisis_path_nemesis", a.crisis_path_nemesis),
        ("crisis_path_cosmogenesis", a.crisis_path_cosmogenesis),
        ("crisis_path_hyperthermia", a.crisis_path_hyperthermia),
        ("crisis_path_behemoth_fury", a.crisis_path_behemoth_fury),
        ("machine_uprising_victory", a.machine_uprising_victory),
        ("amoeba_companion_found", a.amoeba_companion_found),
        ("amoeba_companion_killed", a.amoeba_companion_killed),
        ("artisan_enclave_patron", a.artisan_enclave_patron),
        ("legendary_paragon_recruited", a.legendary_paragon_recruited),
        ("robot_pop_built", a.robot_pop_built),
        ("horizon_signal_completed", a.horizon_signal_completed),
        ("civil_war_completed", a.civil_war_completed),
        ("psionic_techs_unlocked", a.psionic_techs_unlocked),
        ("quantum_catapult_used", a.quantum_catapult_used),
        ("blazing_scourge_decisions", a.blazing_scourge_decisions),
        ("volcanic_holy_world_created", a.volcanic_holy_world_created),
        ("pre_ftl_invasion_occurred", a.pre_ftl_invasion_occurred),
        ("artificial_military_ships_built", a.artificial_military_ships_built),
        ("invaded_primitive_earth", a.invaded_primitive_earth),
    ];
    let ghost fv = fields@.map_values(|p: (&str, Option<bool>)| (p.0@, p.1));
    proof {
        assert(fv =~= action_bool_fields(*a));
        assert(fv.take(0) =~= Seq::<(Seq<char>, Option<bool>)>::empty());
    }
    let mut i: usize = 0;
    while i < fields.len()
        invariant
            i <= fields@.len(),
            fv == fields@.map_values(|p: (&str, Option<bool>)| (p.0@, p.1)),
            inputs_view(facts@) == before + bool_rows("action"@, fv.take(i as int)),
        decreases fields@.len() - i,
    {
        let (key, value) = fields[i];
        let ghost mid = inputs_view(facts@);
        push_bool(facts, "action", key, value);
        proof {
            assert(fv.take(i + 1).drop_last() =~= fv.take(i as int));
            assert(fv.take(i + 1).last() == (key@, value));
            assert(inputs_view(facts@) =~= before + bool_rows("action"@, fv.take(i + 1)));
        }
        i = i + 1;
    }
    proof {
        assert(fv.take(i as int) =~= fv);
    }
}

/// The facts a run records from its latest save.
pub fn facts_from_save(save: &SaveSummary) -> (r: Vec<RunFactInput>)
    ensures
        inputs_view(r@) == save_fact_rows(*save),
{
    let mut facts: Vec<RunFactInput> = Vec::new();
    proof {
        assert(inputs_view(facts@) =~= Seq::<(Seq<char>, Seq<char>, SFact)>::empty());
    }
    push_option(&mut facts, "save", "version", &save.version);
    push_option(&mut facts, "save", "date", &save.date);
    push_option(&mut facts, "save", "name", &save.name);
    push_vec(&mut facts, "save", "required_dlcs", save.required_dlcs.as_slice());
    push_option(&mut facts, "empire", "player_country", &save.player_country);
    push_option(&mut facts, "empire", "authority", &save.authority);
    push_option(&mut facts, "empire", "government_type", &save.government_type);
    push_option(&mut facts, "empire", "origin", &save.origin);
    push_vec(&mut facts, "empire", "ethics", save.ethics.as_slice());
    push_vec(&mut facts, "empire", "civics", save.civics.as_slice());
    push_option(&mut facts, "species", "founder_species_ref", &save.founder_species_ref);
    push_option(&mut facts, "species", "founder_species_class", &save.founder_species_class);
    push_option(&mut facts, "species", "founder_species_portrait", &save.founder_species_portrait);
    push_vec(&mut facts, "species", "founder_species_traits", save.founder_species_traits.as_slice());
    push_bool(&mut facts, "eligibility", "ironman", save.ironman);
    push_bool(&mut facts, "eligibility", "cheated_on_save", save.cheated_on_save);
    push_action_facts(&mut facts, &save.actions);
    proof {
        assert(inputs_view(facts@) =~= save_fact_rows(*save));
    }
    facts
}

} // verus!
