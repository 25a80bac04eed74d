//! Crisis paths, the colossus and purges.
use vstd::prelude::*;
use crate::clausewitz::{
    ClausewitzNode, ClausewitzValue, SNode, SValue, entry1, lemma_nodes_view,
    lemma_nodes_view_skip, nodes_view, opt_str_view, path_view, spec_query_path, value_view,
};
use crate::flags::{has_any_flag, spec_has_any_flag};
use crate::gather::{field_contains, has_perk, spec_category_pops, sum_pop_groups_by_category};
use crate::text::{chars_of, slice_chars, starts_with_seq, str_starts_with, string_of};

verus! {

/// The country took the Nemesis path: a crisis flag or the acolyte perk.
pub open spec fn spec_crisis_path_nemesis(country: SValue) -> Option<bool> {
    Some(
        spec_has_any_flag(country, seq!["became_crisis"@, "crisis_path_nemesis"@]) || has_perk(
            country,
            "ap_crisis_acolyte"@,
        ),
    )
}

/// Whether the country became a crisis (Nemesis).
pub fn extract_crisis_path_nemesis(country_value: &ClausewitzValue) -> (r: Option<bool>)
    ensures
        r == spec_crisis_path_nemesis(value_view(*country_value)),
{
    let names = ["became_crisis", "crisis_path_nemesis"];
    proof {
        assert(path_view(names@) =~= seq!["became_crisis"@, "crisis_path_nemesis"@]);
    }
    let via_flag = has_any_flag(country_value, &names);
    let via_perk = field_contains(country_value, "ascension_perks", "ap_crisis_acolyte");
    Some(via_flag || via_perk)
}

pub open spec fn spec_crisis_path_cosmogenesis(country: SValue) -> Option<bool> {
    Some(spec_has_any_flag(country, seq!["cosmogenesis"@, "crisis_path_cosmogenesis"@]))
}

/// Whether the country took the Cosmogenesis path.
pub fn extract_crisis_path_cosmogenesis(country_value: &ClausewitzValue) -> (r: Option<bool>)
    ensures
        r == spec_crisis_path_cosmogenesis(value_view(*country_value)),
{
    let names = ["cosmogenesis", "crisis_path_cosmogenesis"];
    proof {
        assert(path_view(names@) =~= seq!["cosmogenesis"@, "crisis_path_cosmogenesis"@]);
    }
    Some(has_any_flag(country_value, &names))
}

/// The rest of the first key of `ns` that starts with `prefix` and goes on
/// past it.
pub open spec fn first_key_suffix(ns: Seq<SNode>, prefix: Seq<char>) -> Option<Seq<char>>
    decreases ns.len(),
{
    if ns.len() == 0 {
        None
    } else {
        match ns[0] {
            SNode::Pair(k, _) => if starts_with_seq(k, prefix) && k.len() > prefix.len() {
                Some(k.skip(prefix.len() as int))
            } else {
                first_key_suffix(ns.drop_first(), prefix)
            },
            SNode::Value(_) => first_key_suffix(ns.drop_first(), prefix),
        }
    }
}

/// The colossus weapon named by the first `colossus_weapon_*` flag.
pub open spec fn spec_colossus_weapon(country: SValue) -> Option<Seq<char>> {
    match spec_query_path(country, seq!["flags"@]) {
        Some(SValue::Block(ns)) => first_key_suffix(ns, "colossus_weapon_"@),
        _ => None,
    }
}

/// The rest of `key` after `prefix`, when `key` starts with it and is longer.
fn strip_prefix_nonempty(key: &str, prefix: &str) -> (r: Option<String>)
    ensures
        opt_str_view(r) == if starts_with_seq(key@, prefix@) && key@.len() > prefix@.len() {
            Some(key@.skip(prefix@.len() as int))
        } else {
            None
        },
{
    if !str_starts_with(key, prefix) {
        return None;
    }
    let kc = chars_of(key);
    let pc = chars_of(prefix);
    if kc.len() <= pc.len() {
        return None;
    }
    let rest = slice_chars(kc.as_slice(), pc.len(), kc.len());
    proof {
        assert(rest@ =~= key@.skip(prefix@.len() as int));
    }
    Some(string_of(rest.as_slice()))
}

/// The weapon the country's colossus carries, from its flags.
pub fn extract_colossus_weapon_type(country_value: &ClausewitzValue) -> (r: Option<String>)
    ensures
        opt_str_view(r) == spec_colossus_weapon(value_view(*country_value)),
{
    let nodes = match entry1(country_value, "flags") {
        Some(ClausewitzValue::Block(nodes)) => nodes,
        _ => return None,
    };
    let ghost ns = nodes_view(nodes@);
    proof {
        lemma_nodes_view(nodes@);
        assert(ns.skip(0) =~= ns);
    }
    let mut i: usize = 0;
    while i < nodes.len()
        invariant
            i <= nodes@.len(),
            ns == nodes_view(nodes@),
            ns.len() == nodes@.len(),
            spec_query_path(value_view(*country_value), seq!["flags"@]) == Some(SValue::Block(ns)),
            first_key_suffix(ns, "colossus_weapon_"@) == first_key_suffix(
                ns.skip(i as int),
                "colossus_weapon_"@,
            ),
        decreases nodes@.len() - i,
    {
        proof {
            lemma_nodes_view_skip(nodes@, i as int);
        }
        if let ClausewitzNode::Pair(k, _) = &nodes[i] {
            if let Some(suffix) = strip_prefix_nonempty(k.as_str(), "colossus_weapon_") {
                return Some(suffix);
            }
        }
        i = i + 1;
    }
    proof {
        assert(ns.skip(i as int) =~= Seq::<SNode>::empty());
    }
    None
}

/// The number of purged pops.
pub fn count_purged_pops(game_root: &ClausewitzValue) -> (r: Option<usize>)
    ensures
        r == spec_category_pops(value_view(*game_root), "purge"@),
{
    sum_pop_groups_by_category(game_root, "purge")
}

} // verus!
