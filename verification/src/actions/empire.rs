//! Empire-level actions: covenants, special projects, species on planets,
//! terraforming and colonies.
use vstd::prelude::*;
use crate::clausewitz::{
    ClausewitzValue, SValue, atom1, block1, block_at, count_entries, dedupe,
    dedupe_preserve_order, entry1, opt_str_view, path_view, query_atoms, spec_collect_atoms,
    spec_count_entries, spec_query_path, strs_view, value_view,
};
use crate::flags::{flag_nodes, has_any_flag, has_flag, spec_has_any_flag, spec_has_flag};
use crate::gather::{
    Pick, collect_key_hits, collect_picks, count_distinct_species_in_category, extend_strings,
    field_contains, has_pair_atom, has_perk, nodes_or_empty, join_distinct, joined_distinct,
    key_hits, owned_planets, picks, refs_view, spec_category_species_count, spec_has_pair_atom,
    spec_owned_planets,
};
use crate::clausewitz::atom_at;
use crate::text::{contains_seq, str_contains, str_eq, views};

verus! {

// ── Flags and perks ─────────────────────────────────────────────────────

/// `Some` of whether one of the horizon signal flags is set.
pub open spec fn spec_horizon_signal(country: SValue) -> Option<bool> {
    Some(
        spec_has_any_flag(
            country,
            seq!["horizon_signal"@, "worm_in_rift"@, "horizon_signal_completed"@],
        ),
    )
}

/// Whether the Horizon Signal event chain shows in the country's flags.
pub fn check_horizon_signal(country_value: &ClausewitzValue) -> (r: Option<bool>)
    ensures
        r == spec_horizon_signal(value_view(*country_value)),
{
    let names = ["horizon_signal", "worm_in_rift", "horizon_signal_completed"];
    proof {
        assert(path_view(names@) =~= seq![
            "horizon_signal"@,
            "worm_in_rift"@,
            "horizon_signal_completed"@,
        ]);
    }
    Some(has_any_flag(country_value, &names))
}

/// The covenant the country took: its flag first, else its ascension perk,
/// each in the order whisperers, instrument, composer, eater.
pub open spec fn spec_covenant(c: SValue) -> Option<Seq<char>> {
    if spec_has_flag(c, "covenant_whisperers"@) {
        Some("whisperers"@)
    } else if spec_has_flag(c, "covenant_instrument"@) {
        Some("instrument"@)
    } else if spec_has_flag(c, "covenant_composer"@) {
        Some("composer"@)
    } else if spec_has_flag(c, "covenant_eater"@) {
        Some("eater"@)
    } else if has_perk(c, "ap_covenant_whisperers"@) {
        Some("whisperers"@)
    } else if has_perk(c, "ap_covenant_instrument"@) {
        Some("instrument"@)
    } else if has_perk(c, "ap_covenant_composer"@) {
        Some("composer"@)
    } else if has_perk(c, "ap_covenant_eater"@) {
        Some("eater"@)
    } else {
        None
    }
}

/// The Shroud covenant the country entered, if any.
pub fn extract_covenant(country_value: &ClausewitzValue) -> (r: Option<String>)
    ensures
        opt_str_view(r) == spec_covenant(value_view(*country_value)),
{
    if has_flag(country_value, "covenant_whisperers") {
        return Some("whisperers".to_owned());
    }
    if has_flag(country_value, "covenant_instrument") {
        return Some("instrument".to_owned());
    }
    if has_flag(country_value, "covenant_composer") {
        return Some("composer".to_owned());
    }
    if has_flag(country_value, "covenant_eater") {
        return Some("eater".to_owned());
    }
    if field_contains(country_value, "ascension_perks", "ap_covenant_whisperers") {
        return Some("whisperers".to_owned());
    }
    if field_contains(country_value, "ascension_perks", "ap_covenant_instrument") {
        return Some("instrument".to_owned());
    }
    if field_contains(country_value, "ascension_perks", "ap_covenant_composer") {
        return Some("composer".to_owned());
    }
    if field_contains(country_value, "ascension_perks", "ap_covenant_eater") {
        return Some("eater".to_owned());
    }
    None
}

pub open spec fn known_special_projects() -> Seq<Seq<char>> {
    seq![
        "breach_the_shroud"@,
        "limbo"@,
        "synthetic_infiltrator_detection"@,
        "infinity_sphere_peaceful"@,
        "unexpected_mineral_seams"@,
        "knights_toxic_god_final"@,
        "mysterious_chart"@,
    ]
}

/// The known special projects named in flag keys, then in the keys of
/// `special_projects`, distinct and joined.
pub open spec fn spec_special_project(country: SValue) -> Option<Seq<char>> {
    joined_distinct(
        key_hits(nodes_or_empty(flag_nodes(country)), known_special_projects()) + key_hits(
            nodes_or_empty(block_at(country, seq!["special_projects"@])),
            known_special_projects(),
        ),
    )
}

fn hits_in_block(country_value: &ClausewitzValue, field: &str, pats: &[&str]) -> (r: Vec<String>)
    ensures
        views(r@) == key_hits(
            nodes_or_empty(block_at(value_view(*country_value), seq![field@])),
            path_view(pats@),
        ),
{
    match block1(country_value, field) {
        Some(nodes) => collect_key_hits(nodes, pats),
        None => {
            let r: Vec<String> = Vec::new();
            proof {
                assert(views(r@) =~= Seq::<Seq<char>>::empty());
            }
            r
        },
    }
}

/// The completed special projects the country's flags and
/// `special_projects` name, in order of first appearance, joined.
pub fn extract_special_project_completed_type(country_value: &ClausewitzValue) -> (r: Option<
    String,
>)
    ensures
        opt_str_view(r) == spec_special_project(value_view(*country_value)),
{
    let projects = [
        "breach_the_shroud",
        "limbo",
        "synthetic_infiltrator_detection",
        "infinity_sphere_peaceful",
        "unexpected_mineral_seams",
        "knights_toxic_god_final",
        "mysterious_chart",
    ];
    proof {
        assert(path_view(projects@) =~= known_special_projects());
    }
    let mut found = hits_in_block(country_value, "flags", &projects);
    let more = hits_in_block(country_value, "special_projects", &projects);
    extend_strings(&mut found, more);
    join_distinct(found)
}

/// The number of distinct livestock species.
pub fn count_livestock_species(game_root: &ClausewitzValue) -> (r: Option<usize>)
    ensures
        r == spec_category_species_count(value_view(*game_root), "livestock"@),
{
    count_distinct_species_in_category(game_root, "livestock")
}

// ── Owned planets ───────────────────────────────────────────────────────

/// The distinct species of the pop groups on a planet.
pub open spec fn planet_species(p: SValue) -> Seq<Seq<char>> {
    match block_at(p, seq!["pop_groups"@]) {
        Some(ns) => dedupe(picks(ns, Pick::KeySpecies)),
        None => Seq::empty(),
    }
}

/// The largest number of distinct species on one of `ps`.
pub open spec fn max_species(ps: Seq<SValue>) -> nat
    decreases ps.len(),
{
    if ps.len() == 0 {
        0
    } else {
        let m = max_species(ps.drop_last());
        let k = planet_species(ps.last()).len();
        if k > m {
            k
        } else {
            m
        }
    }
}

pub open spec fn spec_max_species_on_planet(game: SValue, pid: Seq<char>) -> Option<usize> {
    let ps = spec_owned_planets(game, pid);
    if ps.len() == 0 {
        None
    } else {
        Some(max_species(ps) as usize)
    }
}

fn planet_species_count(planet: &ClausewitzValue) -> (r: usize)
    ensures
        r == planet_species(value_view(*planet)).len(),
{
    match block1(planet, "pop_groups") {
        Some(nodes) => {
            let all = collect_picks(nodes, Pick::KeySpecies);
            let d = dedupe_preserve_order(all);
            proof {
                assert(views(all@) =~= strs_view(all@));
                assert(strs_view(d@).len() == d@.len());
            }
            d.len()
        },
        None => 0,
    }
}

/// The most distinct species living on one planet the player controls;
/// `None` when it controls none.
pub fn max_species_on_planet(game_root: &ClausewitzValue, player_country_id: &str) -> (r: Option<
    usize,
>)
    ensures
        r == spec_max_species_on_planet(value_view(*game_root), player_country_id@),
{
    let planets = owned_planets(game_root, player_country_id);
    let ghost ps = refs_view(planets@);
    if planets.len() == 0 {
        return None;
    }
    let mut max_count: usize = 0;
    let mut i: usize = 0;
    while i < planets.len()
        invariant
            i <= planets@.len(),
            ps == refs_view(planets@),
            ps.len() == planets@.len(),
            max_count == max_species(ps.take(i as int)),
        decreases planets@.len() - i,
    {
        let k = planet_species_count(planets[i]);
        proof {
            assert(ps.take(i + 1).drop_last() =~= ps.take(i as int));
            assert(ps[i as int] == value_view(*planets@[i as int]));
        }
        if k > max_count {
            max_count = k;
        }
        i = i + 1;
    }
    proof {
        assert(ps.take(i as int) =~= ps);
    }
    Some(max_count)
}

/// The number of `ps` of planet class `class`.
pub open spec fn count_class(ps: Seq<SValue>, class: Seq<char>) -> nat
    decreases ps.len(),
{
    if ps.len() == 0 {
        0
    } else {
        count_class(ps.drop_last(), class) + if atom_at(ps.last(), seq!["planet_class"@]) == Some(
            class,
        ) {
            1nat
        } else {
            0nat
        }
    }
}

/// How many controlled planets are of class `class`; `None` without planets.
pub open spec fn spec_planets_of_class(game: SValue, pid: Seq<char>, class: Seq<char>) -> Option<
    usize,
> {
    let ps = spec_owned_planets(game, pid);
    if ps.len() == 0 {
        None
    } else {
        Some(count_class(ps, class) as usize)
    }
}

/// The number of volcanic planets the player controls.
pub fn count_volcanic_planets(game_root: &ClausewitzValue, player_country_id: &str) -> (r: Option<
    usize,
>)
    ensures
        r == spec_planets_of_class(value_view(*game_root), player_country_id@, "pc_volcanic"@),
{
    let planets = owned_planets(game_root, player_country_id);
    let ghost ps = refs_view(planets@);
    if planets.len() == 0 {
        return None;
    }
    let mut count: usize = 0;
    let mut i: usize = 0;
    while i < planets.len()
        invariant
            i <= planets@.len(),
            ps == refs_view(planets@),
            ps.len() == planets@.len(),
            count == count_class(ps.take(i as int), "pc_volcanic"@),
            count <= i,
        decreases planets@.len() - i,
    {
        proof {
            assert(ps.take(i + 1).drop_last() =~= ps.take(i as int));
            assert(ps[i as int] == value_view(*planets@[i as int]));
        }
        if let Some(class) = atom1(planets[i], "planet_class") {
            if str_eq(class.as_str(), "pc_volcanic") {
                count = count + 1;
            }
        }
        i = i + 1;
    }
    proof {
        assert(ps.take(i as int) =~= ps);
    }
    Some(count)
}

/// Some item of `items` contains `sub`.
pub open spec fn some_contains(items: Seq<Seq<char>>, sub: Seq<char>) -> bool {
    exists|j: int| 0 <= j < items.len() && contains_seq(#[trigger] items[j], sub)
}

/// A tomb world with a galactic memorial among its cached buildings.
pub open spec fn memorial_tomb(p: SValue) -> bool {
    &&& atom_at(p, seq!["planet_class"@]) == Some("pc_tomb"@)
    &&& some_contains(
        match spec_query_path(p, seq!["buildings_cache"@]) {
            Some(v) => spec_collect_atoms(v),
            None => Seq::empty(),
        },
        "galactic_memorial"@,
    )
}

pub open spec fn count_memorial_tombs(ps: Seq<SValue>) -> nat
    decreases ps.len(),
{
    if ps.len() == 0 {
        0
    } else {
        count_memorial_tombs(ps.drop_last()) + if memorial_tomb(ps.last()) {
            1nat
        } else {
            0nat
        }
    }
}

pub open spec fn spec_memorial_tombs(game: SValue, pid: Seq<char>) -> Option<usize> {
    let ps = spec_owned_planets(game, pid);
    if ps.len() == 0 {
        None
    } else {
        Some(count_memorial_tombs(ps) as usize)
    }
}

fn any_contains(items: &Vec<String>, sub: &str) -> (r: bool)
    ensures
        r == some_contains(views(items@), sub@),
{
    let ghost iv = views(items@);
    let mut j: usize = 0;
    while j < items.len()
        invariant
            j <= items@.len(),
            iv == views(items@),
            forall|k: int| 0 <= k < j ==> !contains_seq(#[trigger] iv[k], sub@),
        decreases items@.len() - j,
    {
        if str_contains(items[j].as_str(), sub) {
            assert(contains_seq(iv[j as int], sub@));
            return true;
        }
        j = j + 1;
    }
    false
}

fn is_memorial_tomb(planet: &ClausewitzValue) -> (r: bool)
    ensures
        r == memorial_tomb(value_view(*planet)),
{
    let class = atom1(planet, "planet_class");
    let tomb = match class {
        Some(c) => str_eq(c.as_str(), "pc_tomb"),
        None => false,
    };
    if !tomb {
        return false;
    }
    let p = ["buildings_cache"];
    let buildings = query_atoms(planet, &p);
    proof {
        assert(path_view(p@) =~= seq!["buildings_cache"@]);
        assert(views(buildings@) =~= strs_view(buildings@));
    }
    any_contains(&buildings, "galactic_memorial")
}

/// The number of tomb worlds with a galactic memorial that the player
/// controls; `None` when it controls no planet.
pub fn count_galactic_memorials_on_tomb_worlds(
    game_root: &ClausewitzValue,
    player_country_id: &str,
) -> (r: Option<usize>)
    ensures
        r == spec_memorial_tombs(value_view(*game_root), player_country_id@),
{
    let planets = owned_planets(game_root, player_country_id);
    let ghost ps = refs_view(planets@);
    if planets.len() == 0 {
        return None;
    }
    let mut count: usize = 0;
    let mut i: usize = 0;
    while i < planets.len()
        invariant
            i <= planets@.len(),
            ps == refs_view(planets@),
            ps.len() == planets@.len(),
            count == count_memorial_tombs(ps.take(i as int)),
            count <= i,
        decreases planets@.len() - i,
    {
        proof {
            assert(ps.take(i + 1).drop_last() =~= ps.take(i as int));
            assert(ps[i as int] == value_view(*planets@[i as int]));
        }
        if is_memorial_tomb(planets[i]) {
            count = count + 1;
        }
        i = i + 1;
    }
    proof {
        assert(ps.take(i as int) =~= ps);
    }
    Some(count)
}

// ── Colonies ────────────────────────────────────────────────────────────

/// The number of owned planets while Hyperspace is not researched: zero
/// once `tech_status` lists it, `None` when `tech_status` is not a block.
pub open spec fn spec_colonies_without_hyperspace(country: SValue) -> Option<usize> {
    match spec_query_path(country, seq!["tech_status"@]) {
        Some(SValue::Block(ns)) => if spec_has_pair_atom(ns, "technology"@, "tech_hyperspace"@) {
            Some(0)
        } else {
            match spec_query_path(country, seq!["owned_planets"@]) {
                Some(v) => Some(spec_count_entries(v) as usize),
                None => None,
            }
        },
        _ => None,
    }
}

/// The number of colonies the country holds without Hyperspace researched.
pub fn colony_count_without_hyperspace(country_value: &ClausewitzValue) -> (r: Option<usize>)
    ensures
        r == spec_colonies_without_hyperspace(value_view(*country_value)),
{
    match entry1(country_value, "tech_status") {
        Some(ClausewitzValue::Block(nodes)) => {
            if has_pair_atom(nodes, "technology", "tech_hyperspace") {
                Some(0)
            } else {
                match entry1(country_value, "owned_planets") {
                    Some(v) => Some(count_entries(v)),
                    None => None,
                }
            }
        },
        _ => None,
    }
}

} // verus!
