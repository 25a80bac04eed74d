//! Progression facts of a save: counts of planets, technologies, pops,
//! bypasses and other measures of how far an empire has come, read from
//! the parsed gamestate and the player's country block.
use vstd::prelude::*;
use crate::clausewitz::{
    atom1, atom2, count_entries, lemma_nodes_view, lemma_nodes_view_skip, node_view, nodes_view,
    opt_str_view, path_view, query_atom, query_atoms, query_count, query_path,
    spec_collect_atoms, spec_count_entries, spec_query_path, strs_view, value_view, atom_at,
    ClausewitzNode, ClausewitzValue, SNode, SValue,
};
use crate::flags::str_in;
use crate::gather::{
    cap, count1, count_at, owned_planets, refs_view, spec_category_pops, spec_owned_planets,
    sum_pop_groups_by_category,
};
use crate::order::{insert_sorted_unique, strictly_sorted};
use crate::text::views;
use crate::numbers::{all_digits, is_digit, is_positive_value, numeral_is_positive};
use crate::text::{chars_of, str_eq};
use crate::discovery::{first_contained, first_contained_exec};

verus! {

// ── Name lists ──────────────────────────────────────────────────────────

/// The technologies of the `rare_technology` category that achievements
/// count.
pub open spec fn rare_technologies() -> Seq<Seq<char>> {
    seq![
        "tech_arcane_deciphering"@,
        "tech_archaeostudies"@,
        "tech_bio_reactor"@,
        "tech_climate_restoration"@,
        "tech_colossus"@,
        "tech_commercialization"@,
        "tech_cryostasis_2"@,
        "tech_dangerous_initiatives"@,
        "tech_decryption_1"@,
        "tech_diplomatic_networking"@,
        "tech_encryption_1"@,
        "tech_genome_mapping"@,
        "tech_global_production_strategy"@,
        "tech_living_matter"@,
        "tech_mine_rare_crystals"@,
        "tech_mine_rare_gases"@,
        "tech_mine_satramene"@,
        "tech_mine_zro"@,
        "tech_nanite_transmutation"@,
        "tech_neural_implants"@,
        "tech_paradise_dome"@,
        "tech_psionic_theory"@,
        "tech_repeatable_improved_tile_energy"@,
        "tech_repeatable_improved_tile_minerals"@,
        "tech_repeatable_improved_tile_food"@,
        "tech_repeatable_improved_tile_physics"@,
        "tech_repeatable_improved_tile_society"@,
        "tech_repeatable_improved_tile_engineering"@,
        "tech_repeatable_naval_cap"@,
        "tech_repeatable_command_limit"@,
        "tech_sapient_ai"@,
        "tech_sentient_ai"@,
        "tech_society_engineering"@,
        "tech_subdermal_stimulation"@,
        "tech_symbolism"@,
        "tech_teratogenic_society"@,
        "tech_transcendent_thought"@,
        "tech_utopian_abundance"@,
        "tech_wilderness_preservation"@,
        "tech_xeno_diplomacy"@,
        "tech_zro_distillation"@,
    ]
}

fn rare_technology_list() -> (r: [&'static str; 41])
    ensures
        path_view(r@) == rare_technologies(),
{
    let r = [
        "tech_arcane_deciphering",
        "tech_archaeostudies",
        "tech_bio_reactor",
        "tech_climate_restoration",
        "tech_colossus",
        "tech_commercialization",
        "tech_cryostasis_2",
        "tech_dangerous_initiatives",
        "tech_decryption_1",
        "tech_diplomatic_networking",
        "tech_encryption_1",
        "tech_genome_mapping",
        "tech_global_production_strategy",
        "tech_living_matter",
        "tech_mine_rare_crystals",
        "tech_mine_rare_gases",
        "tech_mine_satramene",
        "tech_mine_zro",
        "tech_nanite_transmutation",
        "tech_neural_implants",
        "tech_paradise_dome",
        "tech_psionic_theory",
        "tech_repeatable_improved_tile_energy",
        "tech_repeatable_improved_tile_minerals",
        "tech_repeatable_improved_tile_food",
        "tech_repeatable_improved_tile_physics",
        "tech_repeatable_improved_tile_society",
        "tech_repeatable_improved_tile_engineering",
        "tech_repeatable_naval_cap",
        "tech_repeatable_command_limit",
        "tech_sapient_ai",
        "tech_sentient_ai",
        "tech_society_engineering",
        "tech_subdermal_stimulation",
        "tech_symbolism",
        "tech_teratogenic_society",
        "tech_transcendent_thought",
        "tech_utopian_abundance",
        "tech_wilderness_preservation",
        "tech_xeno_diplomacy",
        "tech_zro_distillation",
    ];
    proof {
        assert(path_view(r@) =~= rare_technologies());
    }
    r
}

/// Country types that are not playable empires.
pub open spec fn non_playable_types() -> Seq<Seq<char>> {
    seq!["fallen_empire"@, "primitive"@, "marauder"@, "nomad"@, "crisis"@, "guardian"@]
}

/// Authorities of gestalt empires.
pub open spec fn gestalt_authorities() -> Seq<Seq<char>> {
    seq!["auth_hive_mind"@, "auth_machine_intelligence"@, "auth_ancient_machine_intelligence"@]
}

/// Bypass types that are gateways.
pub open spec fn gateway_types() -> Seq<Seq<char>> {
    seq!["gateway"@, "gateway_restored"@, "gateway_final"@]
}

// ── Counting entries ────────────────────────────────────────────────────

/// What a count looks for in one entry of a block.
pub enum NodeTest {
    /// A keyed planet with a `survey` entry.
    Surveyed,
    /// `technology = <name>` with a rare technology's name.
    RareTechnology,
    /// Any `technology = ...` entry.
    Technology,
    /// A keyed entry whose `type` is a gateway.
    Gateway,
    /// A keyed entry whose `type` is `hyper_relay`.
    HyperRelay,
    /// An entry with this key.
    Key(String),
    /// Another playable, organic empire than the one with this id.
    OrganicEmpireBesides(String),
}

/// The model of a test: its strings taken by their characters.
pub enum TestModel {
    Surveyed,
    RareTechnology,
    Technology,
    Gateway,
    HyperRelay,
    Key(Seq<char>),
    OrganicEmpireBesides(Seq<char>),
}

pub open spec fn test_view(t: NodeTest) -> TestModel {
    match t {
        NodeTest::Surveyed => TestModel::Surveyed,
        NodeTest::RareTechnology => TestModel::RareTechnology,
        NodeTest::Technology => TestModel::Technology,
        NodeTest::Gateway => TestModel::Gateway,
        NodeTest::HyperRelay => TestModel::HyperRelay,
        NodeTest::Key(k) => TestModel::Key(k@),
        NodeTest::OrganicEmpireBesides(p) => TestModel::OrganicEmpireBesides(p@),
    }
}

pub open spec fn organic_empire_besides(id: Seq<char>, entry: SValue, player: Seq<char>) -> bool {
    &&& id != player
    &&& all_digits(id)
    &&& !(atom_at(entry, seq!["type"@]) matches Some(t) && non_playable_types().contains(t))
    &&& !(atom_at(entry, seq!["government"@, "authority"@]) matches Some(a)
        && gestalt_authorities().contains(a))
}

/// Whether one entry passes the test.
pub open spec fn passes(t: TestModel, n: SNode) -> bool {
    match n {
        SNode::Value(_) => false,
        SNode::Pair(k, v) => match t {
            TestModel::Surveyed => spec_query_path(v, seq!["survey"@]) is Some,
            TestModel::RareTechnology => k == "technology"@ && (v matches SValue::Atom(a)
                && rare_technologies().contains(a)),
            TestModel::Technology => k == "technology"@,
            TestModel::Gateway => atom_at(v, seq!["type"@]) matches Some(x) && gateway_types().contains(x),
            TestModel::HyperRelay => atom_at(v, seq!["type"@]) == Some("hyper_relay"@),
            TestModel::Key(key) => k == key,
            TestModel::OrganicEmpireBesides(p) => organic_empire_besides(k, v, p),
        },
    }
}

/// The number of entries of `ns` that pass the test.
pub open spec fn count_passing(ns: Seq<SNode>, t: TestModel) -> nat
    decreases ns.len(),
{
    if ns.len() == 0 {
        0
    } else {
        (if passes(t, ns[0]) {
            1nat
        } else {
            0nat
        }) + count_passing(ns.drop_first(), t)
    }
}

/// Whether `s` consists of ASCII digits only.
fn all_ascii_digits(s: &str) -> (r: bool)
    ensures
        r == all_digits(s@),
{
    let cs = chars_of(s);
    let mut i: usize = 0;
    while i < cs.len()
        invariant
            i <= cs@.len(),
            cs@ == s@,
            forall|j: int| 0 <= j < i ==> is_digit(#[trigger] s@[j]),
        decreases cs@.len() - i,
    {
        let c = cs[i];
        if !('0' <= c && c <= '9') {
            return false;
        }
        i = i + 1;
    }
    true
}

fn passes_exec(t: &NodeTest, n: &ClausewitzNode) -> (r: bool)
    ensures
        r == passes(test_view(*t), node_view(*n)),
{
    match n {
        ClausewitzNode::Value(_) => false,
        ClausewitzNode::Pair(k, v) => match t {
            NodeTest::Surveyed => {
                let p = ["survey"];
                proof {
                    assert(path_view(p@) =~= seq!["survey"@]);
                }
                query_path(v, &p).is_some()
            },
            NodeTest::RareTechnology => {
                if !str_eq(k.as_str(), "technology") {
                    return false;
                }
                match v {
                    ClausewitzValue::Atom(a) => {
                        let names = rare_technology_list();
                        str_in(a.as_str(), &names)
                    },
                    ClausewitzValue::Block(_) => false,
                }
            },
            NodeTest::Technology => str_eq(k.as_str(), "technology"),
            NodeTest::Gateway => {
                let names = ["gateway", "gateway_restored", "gateway_final"];
                proof {
                    assert(path_view(names@) =~= gateway_types());
                }
                match atom1(v, "type") {
                    Some(x) => str_in(x.as_str(), &names),
                    None => false,
                }
            },
            NodeTest::HyperRelay => match atom1(v, "type") {
                Some(x) => str_eq(x.as_str(), "hyper_relay"),
                None => false,
            },
            NodeTest::Key(key) => str_eq(k.as_str(), key.as_str()),
            NodeTest::OrganicEmpireBesides(player) => {
                if str_eq(k.as_str(), player.as_str()) {
                    return false;
                }
                if !all_ascii_digits(k.as_str()) {
                    return false;
                }
                let types = ["fallen_empire", "primitive", "marauder", "nomad", "crisis", "guardian"];
                proof {
                    assert(path_view(types@) =~= non_playable_types());
                }
                if let Some(ty) = atom1(v, "type") {
                    if str_in(ty.as_str(), &types) {
                        return false;
                    }
                }
                let auths = ["auth_hive_mind", "auth_machine_intelligence", "auth_ancient_machine_intelligence"];
                proof {
                    assert(path_view(auths@) =~= gestalt_authorities());
                }
                if let Some(a) = atom2(v, "government", "authority") {
                    if str_in(a.as_str(), &auths) {
                        return false;
                    }
                }
                true
            },
        },
    }
}

/// The number of entries of `nodes` that pass the test.
pub fn count_passing_nodes(nodes: &Vec<ClausewitzNode>, t: &NodeTest) -> (r: usize)
    ensures
        r == count_passing(nodes_view(nodes@), test_view(*t)),
{
    let ghost ns = nodes_view(nodes@);
    proof {
        lemma_nodes_view(nodes@);
        assert(ns.skip(0) =~= ns);
    }
    let mut i: usize = 0;
    let mut count: usize = 0;
    while i < nodes.len()
        invariant
            i <= nodes@.len(),
            ns == nodes_view(nodes@),
            ns.len() == nodes@.len(),
            count <= i,
            count_passing(ns, test_view(*t)) == count + count_passing(ns.skip(i as int), test_view(*t)),
        decreases nodes@.len() - i,
    {
        proof {
            lemma_nodes_view_skip(nodes@, i as int);
        }
        if passes_exec(t, &nodes[i]) {
            count = count + 1;
        }
        i = i + 1;
    }
    proof {
        assert(ns.skip(i as int) =~= Seq::<SNode>::empty());
    }
    count
}


/// The number of entries passing `t` in the block at `path`; `atom` when
/// the path ends at an atom, `None` when it is missing.
pub open spec fn count_at_path(v: SValue, path: Seq<Seq<char>>, t: TestModel, atom: Option<usize>) -> Option<usize> {
    match spec_query_path(v, path) {
        None => None,
        Some(SValue::Atom(_)) => atom,
        Some(SValue::Block(ns)) => Some(count_passing(ns, t) as usize),
    }
}

fn count_at_path_exec(value: &ClausewitzValue, path: &[&str], t: &NodeTest, atom: Option<usize>) -> (r: Option<usize>)
    ensures
        r == count_at_path(value_view(*value), path_view(path@), test_view(*t), atom),
{
    match query_path(value, path) {
        None => None,
        Some(ClausewitzValue::Atom(_)) => atom,
        Some(ClausewitzValue::Block(nodes)) => Some(count_passing_nodes(nodes, t)),
    }
}

/// Planets that have been surveyed.
pub fn count_surveyed_planets(game_root: &ClausewitzValue) -> (r: Option<usize>)
    ensures
        r == count_at_path(value_view(*game_root), seq!["planets"@, "planet"@], TestModel::Surveyed, Some(0)),
{
    let p = ["planets", "planet"];
    proof {
        assert(path_view(p@) =~= seq!["planets"@, "planet"@]);
    }
    count_at_path_exec(game_root, &p, &NodeTest::Surveyed, Some(0))
}

/// The fleets a country owns.
pub fn count_owned_fleet_entries(country_value: &ClausewitzValue) -> (r: Option<usize>)
    ensures
        r == match spec_query_path(value_view(*country_value), seq!["fleets_manager"@, "owned_fleets"@]) {
            Some(v) => Some(spec_count_entries(v) as usize),
            None => None,
        },
{
    let p = ["fleets_manager", "owned_fleets"];
    proof {
        assert(path_view(p@) =~= seq!["fleets_manager"@, "owned_fleets"@]);
    }
    query_count(country_value, &p)
}

/// The rare technologies a country has researched.
pub fn count_rare_technologies(country_value: &ClausewitzValue) -> (r: Option<usize>)
    ensures
        r == count_at_path(value_view(*country_value), seq!["tech_status"@], TestModel::RareTechnology, None),
{
    let p = ["tech_status"];
    proof {
        assert(path_view(p@) =~= seq!["tech_status"@]);
    }
    count_at_path_exec(country_value, &p, &NodeTest::RareTechnology, None)
}

/// All technologies a country has researched.
pub fn count_technologies(country_value: &ClausewitzValue) -> (r: Option<usize>)
    ensures
        r == count_at_path(value_view(*country_value), seq!["tech_status"@], TestModel::Technology, None),
{
    let p = ["tech_status"];
    proof {
        assert(path_view(p@) =~= seq!["tech_status"@]);
    }
    count_at_path_exec(country_value, &p, &NodeTest::Technology, None)
}

/// Other playable empires that are neither gestalt nor the player's.
pub fn count_organic_empires_remaining(game_root: &ClausewitzValue, player_country_id: Option<&str>) -> (r:
    Option<usize>)
    ensures
        r == match player_country_id {
            None => None,
            Some(p) => count_at_path(
                value_view(*game_root),
                seq!["country"@],
                TestModel::OrganicEmpireBesides(p@),
                None,
            ),
        },
{
    match player_country_id {
        None => None,
        Some(pid) => {
            let p = ["country"];
            proof {
                assert(path_view(p@) =~= seq!["country"@]);
            }
            let t = NodeTest::OrganicEmpireBesides(pid.to_string());
            count_at_path_exec(game_root, &p, &t, None)
        },
    }
}

/// Some entry of `ns` is keyed.
pub open spec fn has_pair(ns: Seq<SNode>) -> bool {
    exists|j: int| 0 <= j < ns.len() && #[trigger] ns[j] is Pair
}

/// Like `count_at_path`, but `None` for a block without keyed entries
/// (a bare list of ids).
pub open spec fn count_keyed_at_path(v: SValue, path: Seq<Seq<char>>, t: TestModel) -> Option<usize> {
    match spec_query_path(v, path) {
        Some(SValue::Block(ns)) => if has_pair(ns) {
            Some(count_passing(ns, t) as usize)
        } else {
            None
        },
        _ => None,
    }
}

fn nodes_have_pair(nodes: &Vec<ClausewitzNode>) -> (r: bool)
    ensures
        r == has_pair(nodes_view(nodes@)),
{
    proof {
        lemma_nodes_view(nodes@);
    }
    let mut i: usize = 0;
    while i < nodes.len()
        invariant
            i <= nodes@.len(),
            nodes_view(nodes@).len() == nodes@.len(),
            forall|j: int| 0 <= j < i ==> !(#[trigger] nodes_view(nodes@)[j] is Pair),
        decreases nodes@.len() - i,
    {
        proof {
            lemma_nodes_view(nodes@);
        }
        if let ClausewitzNode::Pair(_, _) = &nodes[i] {
            assert(nodes_view(nodes@)[i as int] is Pair);
            return true;
        }
        i = i + 1;
    }
    false
}

fn count_keyed_at_path_exec(value: &ClausewitzValue, path: &[&str], t: &NodeTest) -> (r: Option<usize>)
    ensures
        r == count_keyed_at_path(value_view(*value), path_view(path@), test_view(*t)),
{
    match query_path(value, path) {
        Some(ClausewitzValue::Block(nodes)) => {
            if nodes_have_pair(nodes) {
                Some(count_passing_nodes(nodes, t))
            } else {
                None
            }
        },
        _ => None,
    }
}

/// Gateways among the bypasses of the galaxy.
pub fn count_gateways(game_root: &ClausewitzValue) -> (r: Option<usize>)
    ensures
        r == count_keyed_at_path(value_view(*game_root), seq!["bypasses"@], TestModel::Gateway),
{
    let p = ["bypasses"];
    proof {
        assert(path_view(p@) =~= seq!["bypasses"@]);
    }
    count_keyed_at_path_exec(game_root, &p, &NodeTest::Gateway)
}

/// Hyper relays among the megastructures of the galaxy.
pub fn count_hyper_relays(game_root: &ClausewitzValue) -> (r: Option<usize>)
    ensures
        r == count_keyed_at_path(value_view(*game_root), seq!["megastructures"@], TestModel::HyperRelay),
{
    let p = ["megastructures"];
    proof {
        assert(path_view(p@) =~= seq!["megastructures"@]);
    }
    count_keyed_at_path_exec(game_root, &p, &NodeTest::HyperRelay)
}

/// The entries of the country's `intel_level` block.
pub fn count_intel_levels(country_value: &ClausewitzValue) -> (r: Option<usize>)
    ensures
        r == match spec_query_path(value_view(*country_value), seq!["intel_level"@]) {
            Some(v) => Some(spec_count_entries(v) as usize),
            None => None,
        },
{
    let p = ["intel_level"];
    proof {
        assert(path_view(p@) =~= seq!["intel_level"@]);
    }
    query_count(country_value, &p)
}

/// Direct entries of the country block with the given key.
pub fn count_country_flags(country_value: &ClausewitzValue, key: &str) -> (r: Option<usize>)
    ensures
        r == match value_view(*country_value) {
            SValue::Block(ns) => Some(count_passing(ns, TestModel::Key(key@)) as usize),
            SValue::Atom(_) => None,
        },
{
    match country_value {
        ClausewitzValue::Block(nodes) => Some(count_passing_nodes(nodes, &NodeTest::Key(key.to_string()))),
        ClausewitzValue::Atom(_) => None,
    }
}


// ── Strategic resources ─────────────────────────────────────────────────

/// The strategic resources that count.
pub open spec fn known_strategic() -> Seq<Seq<char>> {
    seq![
        "sr_zro"@,
        "sr_living_metal"@,
        "sr_dark_matter"@,
        "nanites"@,
        "volatile_motes"@,
        "exotic_gases"@,
        "rare_crystals"@,
        "minor_artifacts"@,
    ]
}

/// A numeral with a value above zero.
pub open spec fn numeral_positive(s: Seq<char>) -> bool {
    is_positive_value(s)
}

/// `name = <positive numeral>`.
pub open spec fn names_positive(n: SNode, name: Seq<char>) -> bool {
    match n {
        SNode::Pair(k, SValue::Atom(a)) => k == name && numeral_positive(a),
        _ => false,
    }
}

/// The entry names a positive income of `name`, directly or in its block.
pub open spec fn yields(n: SNode, name: Seq<char>) -> bool {
    ||| names_positive(n, name)
    ||| match n {
        SNode::Pair(_, SValue::Block(es)) => exists|m: int| 0 <= m < es.len() && names_positive(#[trigger] es[m], name),
        _ => false,
    }
}

pub open spec fn strategic_found(ns: Seq<SNode>, name: Seq<char>) -> bool {
    exists|j: int| 0 <= j < ns.len() && yields(#[trigger] ns[j], name)
}

/// How many of `names` the income entries `ns` yield.
pub open spec fn count_found(names: Seq<Seq<char>>, ns: Seq<SNode>) -> nat
    decreases names.len(),
{
    if names.len() == 0 {
        0
    } else {
        count_found(names.drop_last(), ns) + if strategic_found(ns, names.last()) {
            1nat
        } else {
            0nat
        }
    }
}

/// The number of known strategic resources with a positive income this
/// month.
pub open spec fn spec_strategic_types(country: SValue) -> Option<usize> {
    match spec_query_path(country, seq!["budget"@, "current_month"@, "income"@]) {
        None => None,
        Some(SValue::Atom(_)) => Some(0),
        Some(SValue::Block(ns)) => Some(count_found(known_strategic(), ns) as usize),
    }
}

/// Whether `s` is a numeral above zero.
pub fn is_positive_numeral(s: &str) -> (r: bool)
    ensures
        r == numeral_positive(s@),
{
    numeral_is_positive(s)
}

fn names_positive_exec(n: &ClausewitzNode, name: &str) -> (r: bool)
    ensures
        r == names_positive(node_view(*n), name@),
{
    match n {
        ClausewitzNode::Pair(k, ClausewitzValue::Atom(a)) => str_eq(k.as_str(), name) && is_positive_numeral(a.as_str()),
        _ => false,
    }
}

fn yields_exec(n: &ClausewitzNode, name: &str) -> (r: bool)
    ensures
        r == yields(node_view(*n), name@),
{
    if names_positive_exec(n, name) {
        return true;
    }
    match n {
        ClausewitzNode::Pair(_, ClausewitzValue::Block(es)) => {
            proof {
                lemma_nodes_view(es@);
            }
            let mut m: usize = 0;
            while m < es.len()
                invariant
                    m <= es@.len(),
                    nodes_view(es@).len() == es@.len(),
                    match node_view(*n) {
                        SNode::Pair(_, SValue::Block(x)) => x == nodes_view(es@),
                        _ => false,
                    },
                    forall|j: int| 0 <= j < m ==> !names_positive(#[trigger] nodes_view(es@)[j], name@),
                decreases es@.len() - m,
            {
                proof {
                    lemma_nodes_view(es@);
                }
                if names_positive_exec(&es[m], name) {
                    assert(names_positive(nodes_view(es@)[m as int], name@));
                    return true;
                }
                m = m + 1;
            }
            false
        },
        _ => false,
    }
}

fn strategic_found_exec(nodes: &Vec<ClausewitzNode>, name: &str) -> (r: bool)
    ensures
        r == strategic_found(nodes_view(nodes@), name@),
{
    proof {
        lemma_nodes_view(nodes@);
    }
    let mut j: usize = 0;
    while j < nodes.len()
        invariant
            j <= nodes@.len(),
            nodes_view(nodes@).len() == nodes@.len(),
            forall|i: int| 0 <= i < j ==> !yields(#[trigger] nodes_view(nodes@)[i], name@),
        decreases nodes@.len() - j,
    {
        proof {
            lemma_nodes_view(nodes@);
        }
        if yields_exec(&nodes[j], name) {
            assert(yields(nodes_view(nodes@)[j as int], name@));
            return true;
        }
        j = j + 1;
    }
    false
}

/// Distinct strategic resources with a positive monthly income.
pub fn count_strategic_resource_types(country_value: &ClausewitzValue) -> (r: Option<usize>)
    ensures
        r == spec_strategic_types(value_view(*country_value)),
{
    let p = ["budget", "current_month", "income"];
    proof {
        assert(path_view(p@) =~= seq!["budget"@, "current_month"@, "income"@]);
    }
    let nodes = match query_path(country_value, &p) {
        None => return None,
        Some(ClausewitzValue::Atom(_)) => return Some(0),
        Some(ClausewitzValue::Block(nodes)) => nodes,
    };
    let names = [
        "sr_zro",
        "sr_living_metal",
        "sr_dark_matter",
        "nanites",
        "volatile_motes",
        "exotic_gases",
        "rare_crystals",
        "minor_artifacts",
    ];
    let ghost nv = path_view(names@);
    let ghost ns = nodes_view(nodes@);
    proof {
        assert(nv =~= known_strategic());
    }
    let mut found: usize = 0;
    let mut i: usize = 0;
    while i < names.len()
        invariant
            i <= names@.len(),
            nv == path_view(names@),
            nv.len() == names@.len(),
            names@.len() == 8,
            found <= i,
            found == count_found(nv.take(i as int), ns),
            ns == nodes_view(nodes@),
        decreases names@.len() - i,
    {
        proof {
            assert(nv.take(i + 1).drop_last() =~= nv.take(i as int));
            assert(nv.take(i + 1).last() == names@[i as int]@);
        }
        if strategic_found_exec(nodes, names[i]) {
            found = found + 1;
        }
        i = i + 1;
    }
    proof {
        assert(nv.take(i as int) =~= nv);
    }
    Some(found)
}

// ── Ascension path ──────────────────────────────────────────────────────

/// Keywords that name an ascension path, in the order they are tried.
pub open spec fn ascension_words() -> Seq<Seq<char>> {
    seq!["psionic"@, "genetic"@, "cybernetic"@, "synthetic"@]
}

/// The path keyword of the first entry that contains one.
pub open spec fn first_with_word(es: Seq<Seq<char>>) -> Option<Seq<char>>
    decreases es.len(),
{
    if es.len() == 0 {
        None
    } else {
        match first_contained(es[0], ascension_words()) {
            Some(w) => Some(w),
            None => first_with_word(es.drop_first()),
        }
    }
}

/// The distinct atoms of the block at `key`, or nothing.
pub open spec fn atoms_under(v: SValue, key: Seq<char>) -> Seq<Seq<char>> {
    match spec_query_path(v, seq![key]) {
        Some(x) => spec_collect_atoms(x),
        None => Seq::empty(),
    }
}

/// The ascension path that the traditions, then the ascension perks, name.
pub open spec fn spec_ascension_path(country: SValue) -> Option<Seq<char>> {
    first_with_word(atoms_under(country, "traditions"@) + atoms_under(country, "ascension_perks"@))
}

proof fn lemma_first_with_word_append(a: Seq<Seq<char>>, b: Seq<Seq<char>>)
    ensures
        first_with_word(a + b) == match first_with_word(a) {
            Some(w) => Some(w),
            None => first_with_word(b),
        },
    decreases a.len(),
{
    if a.len() > 0 {
        assert((a + b).drop_first() =~= a.drop_first() + b);
        assert((a + b)[0] == a[0]);
        lemma_first_with_word_append(a.drop_first(), b);
    } else {
        assert(a + b =~= b);
    }
}

fn first_with_word_exec(es: &Vec<String>) -> (r: Option<String>)
    ensures
        opt_str_view(r) == first_with_word(strs_view(es@)),
{
    let words = ["psionic", "genetic", "cybernetic", "synthetic"];
    proof {
        assert(path_view(words@) =~= ascension_words());
    }
    let ghost ev = strs_view(es@);
    let mut i: usize = 0;
    proof {
        assert(ev.skip(0) =~= ev);
    }
    while i < es.len()
        invariant
            i <= es@.len(),
            ev == strs_view(es@),
            ev.len() == es@.len(),
            path_view(words@) == ascension_words(),
            first_with_word(ev) == first_with_word(ev.skip(i as int)),
        decreases es@.len() - i,
    {
        proof {
            assert(ev.skip(i as int)[0] == es@[i as int]@);
            assert(ev.skip(i as int).drop_first() =~= ev.skip(i + 1));
        }
        let w = first_contained_exec(es[i].as_str(), &words);
        if w.is_some() {
            return w;
        }
        i = i + 1;
    }
    proof {
        assert(ev.skip(i as int) =~= Seq::<Seq<char>>::empty());
    }
    None
}

/// The ascension path named by the country's traditions or perks.
pub fn detect_ascension_path(country_value: &ClausewitzValue) -> (r: Option<String>)
    ensures
        opt_str_view(r) == spec_ascension_path(value_view(*country_value)),
{
    let pt = ["traditions"];
    let pa = ["ascension_perks"];
    proof {
        assert(path_view(pt@) =~= seq!["traditions"@]);
        assert(path_view(pa@) =~= seq!["ascension_perks"@]);
    }
    let traditions = query_atoms(country_value, &pt);
    let perks = query_atoms(country_value, &pa);
    proof {
        lemma_first_with_word_append(strs_view(traditions@), strs_view(perks@));
    }
    match first_with_word_exec(&traditions) {
        Some(w) => Some(w),
        None => first_with_word_exec(&perks),
    }
}


// ── Capital building ────────────────────────────────────────────────────

/// The level a capital building type stands for; zero for other types.
pub open spec fn capital_level(t: Seq<char>) -> nat {
    if t == "building_capital"@ {
        1
    } else if t == "building_system_capital"@ {
        2
    } else if t == "building_hab_capital"@ {
        1
    } else if t == "building_hab_major_capital"@ {
        2
    } else {
        0
    }
}

/// The capital level of the building with id `bid`.
pub open spec fn building_level(game: SValue, bid: Seq<char>) -> nat {
    match spec_query_path(game, seq!["buildings"@, bid]) {
        Some(b) => match atom_at(b, seq!["type"@]) {
            Some(t) => capital_level(t),
            None => 0,
        },
        None => 0,
    }
}

/// The highest capital level among the buildings `bids`.
pub open spec fn max_building_level(game: SValue, bids: Seq<Seq<char>>) -> nat
    decreases bids.len(),
{
    if bids.len() == 0 {
        0
    } else {
        let m = max_building_level(game, bids.drop_last());
        let l = building_level(game, bids.last());
        if l > m {
            l
        } else {
            m
        }
    }
}

/// The highest capital building level on the country's capital planet, if
/// it has one.
pub open spec fn spec_capital_building_level(game: SValue, country: SValue) -> Option<usize> {
    match atom_at(country, seq!["capital"@]) {
        None => None,
        Some(c) => match spec_query_path(game, seq!["planets"@, "planet"@, c]) {
            None => None,
            Some(planet) => {
                let m = max_building_level(game, atoms_under(planet, "buildings_cache"@));
                if m > 0 {
                    Some(m as usize)
                } else {
                    None
                }
            },
        },
    }
}

proof fn lemma_building_level_at_most_two(game: SValue, bids: Seq<Seq<char>>)
    ensures
        max_building_level(game, bids) <= 2,
    decreases bids.len(),
{
    if bids.len() > 0 {
        lemma_building_level_at_most_two(game, bids.drop_last());
    }
}

proof fn lemma_building_level_at_least(game: SValue, bids: Seq<Seq<char>>, k: int)
    requires
        0 <= k < bids.len(),
    ensures
        max_building_level(game, bids) >= building_level(game, bids[k]),
    decreases bids.len(),
{
    if k < bids.len() - 1 {
        assert(bids.drop_last()[k] == bids[k]);
        lemma_building_level_at_least(game, bids.drop_last(), k);
    }
}

/// The type of the building listed `j`-th among `bids`.
pub open spec fn listed_type(game: SValue, bids: Seq<Seq<char>>, j: int) -> Option<Seq<char>> {
    match spec_query_path(game, seq!["buildings"@, bids[j]]) {
        Some(b) => atom_at(b, seq!["type"@]),
        None => None,
    }
}

/// The building listed `j`-th is of a capital type.
pub open spec fn listed_capital(game: SValue, bids: Seq<Seq<char>>, j: int) -> bool {
    match listed_type(game, bids, j) {
        Some(t) => is_capital_type(t),
        None => false,
    }
}

/// A capital building type.
pub open spec fn is_capital_type(t: Seq<char>) -> bool {
    t == "building_capital"@ || t == "building_system_capital"@ || t == "building_hab_capital"@
        || t == "building_hab_major_capital"@
}

proof fn lemma_level_of_type(game: SValue, bid: Seq<char>)
    ensures
        building_level(game, bid) == 2 ==> (match spec_query_path(game, seq!["buildings"@, bid]) {
            Some(b) => atom_at(b, seq!["type"@]) == Some("building_system_capital"@) || atom_at(b, seq!["type"@])
                == Some("building_hab_major_capital"@),
            None => false,
        }),
        building_level(game, bid) > 0 ==> (match spec_query_path(game, seq!["buildings"@, bid]) {
            Some(b) => atom_at(b, seq!["type"@]) matches Some(t) && is_capital_type(t),
            None => false,
        }),
{
    reveal_strlit("building_capital");
    reveal_strlit("building_system_capital");
    reveal_strlit("building_hab_capital");
    reveal_strlit("building_hab_major_capital");
}

proof fn lemma_max_level_witness(game: SValue, bids: Seq<Seq<char>>)
    ensures
        max_building_level(game, bids) > 0 ==> exists|j: int|
            0 <= j < bids.len() && #[trigger] building_level(game, bids[j]) == max_building_level(game, bids),
    decreases bids.len(),
{
    if bids.len() > 0 {
        lemma_max_level_witness(game, bids.drop_last());
        let m = max_building_level(game, bids.drop_last());
        if building_level(game, bids.last()) > m {
            assert(building_level(game, bids[bids.len() - 1]) == max_building_level(game, bids));
        } else if m > 0 {
            let j = choose|j: int|
                0 <= j < bids.drop_last().len() && #[trigger] building_level(game, bids.drop_last()[j]) == m;
            assert(bids[j] == bids.drop_last()[j]);
        }
    }
}

/// A capital planet's level comes from the capital buildings listed in its
/// `buildings_cache`: level 2 only with a `building_system_capital` or a
/// `building_hab_major_capital` among them, and some level only with one of
/// the four capital types among them.
pub proof fn lemma_capital_level_needs_capital_building(game: SValue, country: SValue, capital: Seq<char>, planet: SValue)
    requires
        atom_at(country, seq!["capital"@]) == Some(capital),
        spec_query_path(game, seq!["planets"@, "planet"@, capital]) == Some(planet),
    ensures
        spec_capital_building_level(game, country) == Some(2usize) ==> exists|j: int|
            0 <= j < atoms_under(planet, "buildings_cache"@).len() && (#[trigger] listed_type(
                game,
                atoms_under(planet, "buildings_cache"@),
                j,
            ) == Some("building_system_capital"@) || listed_type(game, atoms_under(planet, "buildings_cache"@), j)
                == Some("building_hab_major_capital"@)),
        spec_capital_building_level(game, country) is Some ==> exists|j: int|
            0 <= j < atoms_under(planet, "buildings_cache"@).len() && #[trigger] listed_capital(
                game,
                atoms_under(planet, "buildings_cache"@),
                j,
            ),
{
    let bids = atoms_under(planet, "buildings_cache"@);
    lemma_max_level_witness(game, bids);
    lemma_building_level_at_most_two(game, bids);
    if max_building_level(game, bids) > 0 {
        let j = choose|j: int| 0 <= j < bids.len() && #[trigger] building_level(game, bids[j]) == max_building_level(game, bids);
        lemma_level_of_type(game, bids[j]);
        assert(building_level(game, bids[j]) > 0);
        if let Some(b) = spec_query_path(game, seq!["buildings"@, bids[j]]) {
            assert(listed_type(game, bids, j) == atom_at(b, seq!["type"@]));
        }
        assert(listed_capital(game, bids, j));
    }
}

/// The capital building level of a capital planet is the highest level of
/// the buildings in its `buildings_cache`: a system capital or a major
/// habitat capital is level 2 and an ordinary or habitat capital level 1,
/// so one building of type `building_system_capital` or
/// `building_hab_major_capital` gives `Some(2)` and one of type
/// `building_capital` or `building_hab_capital` gives at least `Some(1)`.
pub proof fn lemma_capital_level_by_type(game: SValue, country: SValue, capital: Seq<char>, planet: SValue, k: int, t: Seq<char>)
    requires
        atom_at(country, seq!["capital"@]) == Some(capital),
        spec_query_path(game, seq!["planets"@, "planet"@, capital]) == Some(planet),
        0 <= k < atoms_under(planet, "buildings_cache"@).len(),
        spec_query_path(game, seq!["buildings"@, atoms_under(planet, "buildings_cache"@)[k]]) matches Some(b)
            && atom_at(b, seq!["type"@]) == Some(t),
    ensures
        t == "building_system_capital"@ || t == "building_hab_major_capital"@ ==> spec_capital_building_level(game, country) == Some(2usize),
        t == "building_capital"@ || t == "building_hab_capital"@ ==> (spec_capital_building_level(game, country) == Some(1usize)
            || spec_capital_building_level(game, country) == Some(2usize)),
        spec_capital_building_level(game, country) matches Some(l) ==> 1 <= l <= 2,
{
    let bids = atoms_under(planet, "buildings_cache"@);
    lemma_building_level_at_most_two(game, bids);
    lemma_building_level_at_least(game, bids, k);
    reveal_strlit("building_capital");
    reveal_strlit("building_system_capital");
    reveal_strlit("building_hab_capital");
    reveal_strlit("building_hab_major_capital");
    assert(building_level(game, bids[k]) == capital_level(t));
}

fn capital_level_exec(t: &str) -> (r: usize)
    ensures
        r == capital_level(t@),
{
    if str_eq(t, "building_capital") {
        1
    } else if str_eq(t, "building_system_capital") {
        2
    } else if str_eq(t, "building_hab_capital") {
        1
    } else if str_eq(t, "building_hab_major_capital") {
        2
    } else {
        0
    }
}

fn building_level_exec(game_root: &ClausewitzValue, bid: &str) -> (r: usize)
    ensures
        r == building_level(value_view(*game_root), bid@),
{
    let p = ["buildings", bid];
    proof {
        assert(path_view(p@) =~= seq!["buildings"@, bid@]);
    }
    match query_path(game_root, &p) {
        Some(b) => match atom1(b, "type") {
            Some(t) => capital_level_exec(t.as_str()),
            None => 0,
        },
        None => 0,
    }
}

/// The highest capital building level on the country's capital planet.
pub fn find_capital_building_level(game_root: &ClausewitzValue, country_value: &ClausewitzValue) -> (r:
    Option<usize>)
    ensures
        r == spec_capital_building_level(value_view(*game_root), value_view(*country_value)),
{
    let capital = match atom1(country_value, "capital") {
        Some(c) => c,
        None => return None,
    };
    let pp = ["planets", "planet", capital.as_str()];
    proof {
        assert(path_view(pp@) =~= seq!["planets"@, "planet"@, capital@]);
    }
    let planet = match query_path(game_root, &pp) {
        Some(p) => p,
        None => return None,
    };
    let pb = ["buildings_cache"];
    proof {
        assert(path_view(pb@) =~= seq!["buildings_cache"@]);
    }
    let bids = query_atoms(planet, &pb);
    let ghost bv = strs_view(bids@);
    let ghost game = value_view(*game_root);
    let mut max_level: usize = 0;
    let mut i: usize = 0;
    while i < bids.len()
        invariant
            i <= bids@.len(),
            bv == strs_view(bids@),
            bv.len() == bids@.len(),
            game == value_view(*game_root),
            max_level == max_building_level(game, bv.take(i as int)),
            max_level <= 2,
        decreases bids@.len() - i,
    {
        proof {
            assert(bv.take(i + 1).drop_last() =~= bv.take(i as int));
            assert(bv.take(i + 1).last() == bids@[i as int]@);
        }
        let level = building_level_exec(game_root, bids[i].as_str());
        if level > max_level {
            max_level = level;
        }
        i = i + 1;
    }
    proof {
        assert(bv.take(i as int) =~= bv);
    }
    if max_level > 0 {
        Some(max_level)
    } else {
        None
    }
}

// ── Living standard and vivarium ────────────────────────────────────────

/// The living standard of the primary species rights, else of the default
/// ones.
pub open spec fn spec_living_standard(country: SValue) -> Option<Seq<char>> {
    match atom_at(country, seq!["standard_species_rights_module"@, "primary"@, "living_standard"@]) {
        Some(x) => Some(x),
        None => atom_at(country, seq!["standard_species_rights_module"@, "default"@, "living_standard"@]),
    }
}

/// The country's primary living standard.
pub fn extract_living_standard(country_value: &ClausewitzValue) -> (r: Option<String>)
    ensures
        opt_str_view(r) == spec_living_standard(value_view(*country_value)),
{
    let p1 = ["standard_species_rights_module", "primary", "living_standard"];
    let p2 = ["standard_species_rights_module", "default", "living_standard"];
    proof {
        assert(path_view(p1@) =~= seq!["standard_species_rights_module"@, "primary"@, "living_standard"@]);
        assert(path_view(p2@) =~= seq!["standard_species_rights_module"@, "default"@, "living_standard"@]);
    }
    match query_atom(country_value, &p1) {
        Some(x) => Some(x),
        None => query_atom(country_value, &p2),
    }
}

pub open spec fn entries_or_zero(o: Option<SValue>) -> nat {
    match o {
        Some(v) => spec_count_entries(v),
        None => 0,
    }
}

/// The entries of the vivarium's critters and exhibits together (capped at
/// `usize::MAX`); `None` when the save has neither.
pub open spec fn spec_vivarium_capacity(game: SValue) -> Option<usize> {
    let c = spec_query_path(game, seq!["vivarium_critters"@]);
    let e = spec_query_path(game, seq!["exhibits"@]);
    if c is None && e is None {
        None
    } else {
        Some(cap(entries_or_zero(c) + entries_or_zero(e)))
    }
}

/// The capacity of the vivarium.
pub fn compute_vivarium_capacity(game_root: &ClausewitzValue) -> (r: Option<usize>)
    ensures
        r == spec_vivarium_capacity(value_view(*game_root)),
{
    let pc = ["vivarium_critters"];
    let pe = ["exhibits"];
    proof {
        assert(path_view(pc@) =~= seq!["vivarium_critters"@]);
        assert(path_view(pe@) =~= seq!["exhibits"@]);
    }
    let critters = query_path(game_root, &pc);
    let exhibits = query_path(game_root, &pe);
    if critters.is_none() && exhibits.is_none() {
        return None;
    }
    let c: usize = match critters {
        Some(v) => count_entries(v),
        None => 0,
    };
    let e: usize = match exhibits {
        Some(v) => count_entries(v),
        None => 0,
    };
    Some(c.saturating_add(e))
}

// ── Megastructures ──────────────────────────────────────────────────────

/// The planet classes of the planets that carry a megastructure, in order.
pub open spec fn megastructure_classes(ps: Seq<SValue>) -> Seq<Seq<char>>
    decreases ps.len(),
{
    if ps.len() == 0 {
        Seq::empty()
    } else {
        let rest = megastructure_classes(ps.drop_last());
        let p = ps.last();
        if spec_query_path(p, seq!["megastructure"@]) is Some && atom_at(p, seq!["planet_class"@]) is Some {
            rest.push(atom_at(p, seq!["planet_class"@])->Some_0)
        } else {
            rest
        }
    }
}

/// The megastructure classes of the player's planets.
pub open spec fn megastructure_class_set(game: SValue, player: Option<Seq<char>>) -> Set<Seq<char>> {
    match player {
        Some(p) => megastructure_classes(spec_owned_planets(game, p)).to_set(),
        None => Set::empty(),
    }
}

/// The distinct classes of the player's planets that carry a
/// megastructure, sorted.
pub fn extract_megastructure_types(game_root: &ClausewitzValue, player_country_id: Option<&str>) -> (r:
    Vec<String>)
    ensures
        strictly_sorted(views(r@)),
        views(r@).to_set() == megastructure_class_set(
            value_view(*game_root),
            match player_country_id {
                Some(p) => Some(p@),
                None => None,
            },
        ),
{
    let mut types: Vec<String> = Vec::new();
    let pid = match player_country_id {
        Some(p) => p,
        None => {
            proof {
                assert(views(types@).to_set() =~= Set::<Seq<char>>::empty());
            }
            return types;
        },
    };
    let planets = owned_planets(game_root, pid);
    let ghost ps = refs_view(planets@);
    proof {
        assert(views(types@).to_set() =~= Set::<Seq<char>>::empty());
        assert(ps.take(0) =~= Seq::<SValue>::empty());
    }
    let pm = ["megastructure"];
    let pc = ["planet_class"];
    proof {
        assert(path_view(pm@) =~= seq!["megastructure"@]);
        assert(path_view(pc@) =~= seq!["planet_class"@]);
    }
    let mut i: usize = 0;
    while i < planets.len()
        invariant
            i <= planets@.len(),
            ps == refs_view(planets@),
            ps.len() == planets@.len(),
            path_view(pm@) == seq!["megastructure"@],
            path_view(pc@) == seq!["planet_class"@],
            strictly_sorted(views(types@)),
            views(types@).to_set() == megastructure_classes(ps.take(i as int)).to_set(),
        decreases planets@.len() - i,
    {
        proof {
            assert(ps.take(i + 1).drop_last() =~= ps.take(i as int));
            assert(ps.take(i + 1).last() == value_view(*planets@[i as int]));
        }
        let p = planets[i];
        if query_path(p, &pm).is_some() {
            if let Some(class) = query_atom(p, &pc) {
                let ghost before = megastructure_classes(ps.take(i as int));
                insert_sorted_unique(&mut types, class);
                proof {
                    assert(megastructure_classes(ps.take(i + 1)) == before.push(class@));
                    before.lemma_push_to_set_commute(class@);
                }
            }
        }
        i = i + 1;
    }
    proof {
        assert(ps.take(i as int) =~= ps);
    }
    types
}


// ── All counts ─────────────────────────────────────────────────────────

/// The progression facts of a save that are counts, names or lists. The
/// measures of budgets, power and elapsed years are read elsewhere.
#[derive(Debug, Default)]
pub struct ProgressionCounts {
    pub owned_planets: Option<usize>,
    pub colonized_planets: Option<usize>,
    pub surveyed_planets: Option<usize>,
    pub total_pops: Option<usize>,
    pub enslaved_pops_count: Option<usize>,
    pub strategic_resources_types: Option<usize>,
    pub organic_empires_remaining: Option<usize>,
    pub fleet_count: Option<usize>,
    pub starbase_count: Option<usize>,
    pub gateway_count: Option<usize>,
    pub hyper_relay_count: Option<usize>,
    pub rare_technologies_acquired: Option<usize>,
    pub traditions_adopted: Option<usize>,
    pub ascension_perks_unlocked: Option<usize>,
    pub ascension_path: Option<String>,
    pub intel_level_count: Option<usize>,
    pub observation_station_count: Option<usize>,
    pub capital_building_level: Option<usize>,
    pub living_standard: Option<String>,
    pub mercenary_enclaves_patroned: Option<usize>,
    pub vivarium_capacity: Option<usize>,
    pub megastructure_types: Vec<String>,
}

/// The entries at `path`, as a count.
pub open spec fn entries_at(v: SValue, path: Seq<Seq<char>>) -> Option<usize> {
    match spec_query_path(v, path) {
        Some(x) => Some(spec_count_entries(x) as usize),
        None => None,
    }
}

/// The counts of a gamestate `game` for the player's country block
/// `country`.
pub open spec fn progression_counts_of(r: ProgressionCounts, game: SValue, country: SValue) -> bool {
    let player = atom_at(game, seq!["player"@, "country"@]);
    &&& r.owned_planets == entries_at(country, seq!["owned_planets"@])
    &&& r.colonized_planets == entries_at(country, seq!["controlled_planets"@])
    &&& r.surveyed_planets == count_at_path(game, seq!["planets"@, "planet"@], TestModel::Surveyed, Some(0))
    &&& r.total_pops == count_at(country, seq!["num_sapient_pops"@])
    &&& r.enslaved_pops_count == spec_category_pops(game, "slave"@)
    &&& r.strategic_resources_types == spec_strategic_types(country)
    &&& r.organic_empires_remaining == match player {
        Some(p) => count_at_path(game, seq!["country"@], TestModel::OrganicEmpireBesides(p), None),
        None => None,
    }
    &&& r.fleet_count == entries_at(country, seq!["fleets_manager"@, "owned_fleets"@])
    &&& r.starbase_count == count_at(country, seq!["num_upgraded_starbase"@])
    &&& r.gateway_count == count_keyed_at_path(game, seq!["bypasses"@], TestModel::Gateway)
    &&& r.hyper_relay_count == count_keyed_at_path(game, seq!["megastructures"@], TestModel::HyperRelay)
    &&& r.rare_technologies_acquired == count_at_path(country, seq!["tech_status"@], TestModel::RareTechnology, None)
    &&& r.traditions_adopted == entries_at(country, seq!["traditions"@])
    &&& r.ascension_perks_unlocked == entries_at(country, seq!["ascension_perks"@])
    &&& opt_str_view(r.ascension_path) == spec_ascension_path(country)
    &&& r.intel_level_count == entries_at(country, seq!["intel_level"@])
    &&& r.observation_station_count == match country {
        SValue::Block(ns) => Some(count_passing(ns, TestModel::Key("built_observation_post"@)) as usize),
        SValue::Atom(_) => None,
    }
    &&& r.capital_building_level == spec_capital_building_level(game, country)
    &&& opt_str_view(r.living_standard) == spec_living_standard(country)
    &&& r.mercenary_enclaves_patroned == match country {
        SValue::Block(ns) => Some(count_passing(ns, TestModel::Key("10yr_patronage"@)) as usize),
        SValue::Atom(_) => None,
    }
    &&& r.vivarium_capacity == spec_vivarium_capacity(game)
    &&& strictly_sorted(views(r.megastructure_types@))
    &&& views(r.megastructure_types@).to_set() == megastructure_class_set(game, player)
}

/// All progression counts of a gamestate for the player's country.
pub fn extract_progression_counts(game_root: &ClausewitzValue, country_value: &ClausewitzValue) -> (r:
    ProgressionCounts)
    ensures
        progression_counts_of(r, value_view(*game_root), value_view(*country_value)),
{
    let player = atom2(game_root, "player", "country");
    let pid: Option<&str> = match &player {
        Some(p) => Some(p.as_str()),
        None => None,
    };
    let p_owned = ["owned_planets"];
    let p_controlled = ["controlled_planets"];
    let p_traditions = ["traditions"];
    let p_perks = ["ascension_perks"];
    proof {
        assert(path_view(p_owned@) =~= seq!["owned_planets"@]);
        assert(path_view(p_controlled@) =~= seq!["controlled_planets"@]);
        assert(path_view(p_traditions@) =~= seq!["traditions"@]);
        assert(path_view(p_perks@) =~= seq!["ascension_perks"@]);
    }
    ProgressionCounts {
        owned_planets: query_count(country_value, &p_owned),
        colonized_planets: query_count(country_value, &p_controlled),
        surveyed_planets: count_surveyed_planets(game_root),
        total_pops: count1(country_value, "num_sapient_pops"),
        enslaved_pops_count: sum_pop_groups_by_category(game_root, "slave"),
        strategic_resources_types: count_strategic_resource_types(country_value),
        organic_empires_remaining: count_organic_empires_remaining(game_root, pid),
        fleet_count: count_owned_fleet_entries(country_value),
        starbase_count: count1(country_value, "num_upgraded_starbase"),
        gateway_count: count_gateways(game_root),
        hyper_relay_count: count_hyper_relays(game_root),
        rare_technologies_acquired: count_rare_technologies(country_value),
        traditions_adopted: query_count(country_value, &p_traditions),
        ascension_perks_unlocked: query_count(country_value, &p_perks),
        ascension_path: detect_ascension_path(country_value),
        intel_level_count: count_intel_levels(country_value),
        observation_station_count: count_country_flags(country_value, "built_observation_post"),
        capital_building_level: find_capital_building_level(game_root, country_value),
        living_standard: extract_living_standard(country_value),
        mercenary_enclaves_patroned: count_country_flags(country_value, "10yr_patronage"),
        vivarium_capacity: compute_vivarium_capacity(game_root),
        megastructure_types: extract_megastructure_types(game_root, pid),
    }
}

} // verus!
