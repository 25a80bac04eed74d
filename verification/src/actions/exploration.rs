//! Exploration: archaeology, first contacts, captured fauna and astral rifts.
use vstd::prelude::*;
use crate::clausewitz::{
    ClausewitzNode, ClausewitzValue, SNode, SValue, atom1, atom_at, block1, entry1, entry2,
    lemma_nodes_view, lemma_nodes_view_skip, nodes_view, opt_str_view, spec_query_path,
    value_view,
};
use crate::gather::{
    Pick, block_entries_contain_country, collect_picks, extend_strings, join_all, join_distinct,
    joined_all, joined_distinct, nodes_or_empty, picks, spec_block_entries_contain_country,
};
use crate::clausewitz::block_at;
use crate::text::{str_eq, views};

verus! {

// ── Archaeology ─────────────────────────────────────────────────────────

/// The `completed` list of a site names `pid`.
pub open spec fn site_completed_by(site: SValue, pid: Seq<char>) -> bool {
    match spec_query_path(site, seq!["completed"@]) {
        Some(c) => spec_block_entries_contain_country(c, pid),
        None => false,
    }
}

/// The types of the keyed sites of `ns` that `pid` completed, in order.
pub open spec fn completed_site_types(ns: Seq<SNode>, pid: Seq<char>) -> Seq<Seq<char>>
    decreases ns.len(),
{
    if ns.len() == 0 {
        Seq::empty()
    } else {
        (match ns[0] {
            SNode::Pair(_, site) => if site_completed_by(site, pid) {
                match atom_at(site, seq!["type"@]) {
                    Some(t) => seq![t],
                    None => Seq::empty(),
                }
            } else {
                Seq::empty()
            },
            SNode::Value(_) => Seq::empty(),
        }) + completed_site_types(ns.drop_first(), pid)
    }
}

/// The types of the archaeological sites the player completed, joined.
pub open spec fn spec_archaeology_sites(game: SValue, pid: Seq<char>) -> Option<Seq<char>> {
    match spec_query_path(game, seq!["archaeological_sites"@, "sites"@]) {
        Some(SValue::Block(ns)) => joined_all(completed_site_types(ns, pid)),
        _ => None,
    }
}

/// The types of the archaeological sites the player completed, in site
/// order, joined with ", ".
pub fn extract_archaeology_sites(game_root: &ClausewitzValue, player_country_id: &str) -> (r:
    Option<String>)
    ensures
        opt_str_view(r) == spec_archaeology_sites(value_view(*game_root), player_country_id@),
{
    let nodes = match entry2(game_root, "archaeological_sites", "sites") {
        Some(ClausewitzValue::Block(nodes)) => nodes,
        _ => return None,
    };
    let ghost ns = nodes_view(nodes@);
    let ghost pid = player_country_id@;
    proof {
        lemma_nodes_view(nodes@);
        assert(ns.skip(0) =~= ns);
    }
    let mut types: Vec<String> = Vec::new();
    proof {
        assert(completed_site_types(ns, pid) =~= views(types@) + completed_site_types(ns, pid));
    }
    let mut i: usize = 0;
    while i < nodes.len()
        invariant
            i <= nodes@.len(),
            ns == nodes_view(nodes@),
            ns.len() == nodes@.len(),
            pid == player_country_id@,
            completed_site_types(ns, pid) == views(types@) + completed_site_types(
                ns.skip(i as int),
                pid,
            ),
        decreases nodes@.len() - i,
    {
        proof {
            lemma_nodes_view_skip(nodes@, i as int);
        }
        let ghost before = views(types@);
        if let ClausewitzNode::Pair(_, site) = &nodes[i] {
            let done = match entry1(site, "completed") {
                Some(c) => block_entries_contain_country(c, player_country_id),
                None => false,
            };
            if done {
                if let Some(t) = atom1(site, "type") {
                    types.push(t);
                    proof {
                        assert(views(types@) =~= before.push(
                            atom_at(value_view(*site), seq!["type"@])->0,
                        ));
                    }
                }
            }
        }
        proof {
            assert(views(types@) + completed_site_types(ns.skip(i + 1), pid) =~= before
                + completed_site_types(ns.skip(i as int), pid));
        }
        i = i + 1;
    }
    proof {
        assert(ns.skip(i as int) =~= Seq::<SNode>::empty());
        assert(views(types@) + Seq::<Seq<char>>::empty() =~= views(types@));
    }
    join_all(&types)
}

// ── Fauna, contacts and rifts ───────────────────────────────────────────

/// The distinct types (else species) of captured fauna, from
/// `vivarium_critters` then `exhibits`, joined.
pub open spec fn spec_space_fauna(game: SValue) -> Option<Seq<char>> {
    joined_distinct(
        picks(nodes_or_empty(block_at(game, seq!["vivarium_critters"@])), Pick::TypeOrSpecies)
            + picks(nodes_or_empty(block_at(game, seq!["exhibits"@])), Pick::TypeOrSpecies),
    )
}

fn fauna_in(game_root: &ClausewitzValue, field: &str) -> (r: Vec<String>)
    ensures
        views(r@) == picks(
            nodes_or_empty(block_at(value_view(*game_root), seq![field@])),
            Pick::TypeOrSpecies,
        ),
{
    match block1(game_root, field) {
        Some(nodes) => collect_picks(nodes, Pick::TypeOrSpecies),
        None => {
            let r: Vec<String> = Vec::new();
            proof {
                assert(views(r@) =~= Seq::<Seq<char>>::empty());
            }
            r
        },
    }
}

/// The kinds of space fauna captured, in order of first appearance, joined.
pub fn extract_space_fauna_type_captured(game_root: &ClausewitzValue) -> (r: Option<String>)
    ensures
        opt_str_view(r) == spec_space_fauna(value_view(*game_root)),
{
    let mut types = fauna_in(game_root, "vivarium_critters");
    let more = fauna_in(game_root, "exhibits");
    extend_strings(&mut types, more);
    join_distinct(types)
}

/// The distinct first-contact results (else outcomes, else types), joined.
pub open spec fn spec_first_contact(game: SValue) -> Option<Seq<char>> {
    match spec_query_path(game, seq!["first_contacts"@, "contacts"@]) {
        Some(SValue::Block(ns)) => joined_distinct(picks(ns, Pick::ResultOutcomeType)),
        _ => None,
    }
}

/// The results of first contacts, in order of first appearance, joined.
pub fn extract_first_contact_result(game_root: &ClausewitzValue) -> (r: Option<String>)
    ensures
        opt_str_view(r) == spec_first_contact(value_view(*game_root)),
{
    match entry2(game_root, "first_contacts", "contacts") {
        Some(ClausewitzValue::Block(nodes)) => join_distinct(
            collect_picks(nodes, Pick::ResultOutcomeType),
        ),
        _ => None,
    }
}

/// The number of keyed entries of `ns` with `explored = yes`.
pub open spec fn count_explored(ns: Seq<SNode>) -> nat
    decreases ns.len(),
{
    if ns.len() == 0 {
        0
    } else {
        (match ns[0] {
            SNode::Pair(_, e) => if atom_at(e, seq!["explored"@]) == Some("yes"@) {
                1nat
            } else {
                0nat
            },
            SNode::Value(_) => 0nat,
        }) + count_explored(ns.drop_first())
    }
}

/// The number of explored astral rifts, `None` when there is none.
pub open spec fn spec_astral_rifts(game: SValue) -> Option<usize> {
    match spec_query_path(game, seq!["astral_rifts"@]) {
        Some(SValue::Block(ns)) => if count_explored(ns) > 0 {
            Some(count_explored(ns) as usize)
        } else {
            None
        },
        _ => None,
    }
}

/// The number of astral rifts explored.
pub fn count_astral_rifts_explored(game_root: &ClausewitzValue) -> (r: Option<usize>)
    ensures
        r == spec_astral_rifts(value_view(*game_root)),
{
    let nodes = match entry1(game_root, "astral_rifts") {
        Some(ClausewitzValue::Block(nodes)) => nodes,
        _ => return None,
    };
    let ghost ns = nodes_view(nodes@);
    proof {
        lemma_nodes_view(nodes@);
        assert(ns.skip(0) =~= ns);
    }
    let mut count: usize = 0;
    let mut i: usize = 0;
    while i < nodes.len()
        invariant
            i <= nodes@.len(),
            ns == nodes_view(nodes@),
            ns.len() == nodes@.len(),
            count <= i,
            count_explored(ns) == count + count_explored(ns.skip(i as int)),
        decreases nodes@.len() - i,
    {
        proof {
            lemma_nodes_view_skip(nodes@, i as int);
        }
        if let ClausewitzNode::Pair(_, e) = &nodes[i] {
            if let Some(v) = atom1(e, "explored") {
                if str_eq(v.as_str(), "yes") {
                    count = count + 1;
                }
            }
        }
        i = i + 1;
    }
    proof {
        assert(ns.skip(i as int) =~= Seq::<SNode>::empty());
    }
    if count > 0 {
        Some(count)
    } else {
        None
    }
}

} // verus!
