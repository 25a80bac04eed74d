//! Relics the country owns and uses.
use vstd::prelude::*;
use crate::clausewitz::{
    ClausewitzNode, ClausewitzValue, SNode, SValue, entry1, lemma_nodes_view, nodes_view,
    opt_str_view, spec_query_path, value_view,
};
use crate::gather::{collect_space_list, field_contains, join_all, joined_all, spec_space_list};
use crate::text::{contains_seq, str_contains, str_eq};

verus! {

/// The relics the country owns, joined.
pub open spec fn spec_relics_owned(country: SValue) -> Option<Seq<char>> {
    joined_all(spec_space_list(country, "relics"@))
}

/// The relics the country owns, joined with ", ".
pub fn extract_relics_owned(country_value: &ClausewitzValue) -> (r: Option<String>)
    ensures
        opt_str_view(r) == spec_relics_owned(value_view(*country_value)),
{
    let relics = collect_space_list(country_value, "relics");
    join_all(&relics)
}

pub open spec fn spec_galatron(country: SValue) -> Option<bool> {
    Some(spec_space_list(country, "relics"@).contains("r_galatron"@))
}

/// Whether the Galatron is among the country's relics.
pub fn extract_galatron(country_value: &ClausewitzValue) -> (r: Option<bool>)
    ensures
        r == spec_galatron(value_view(*country_value)),
{
    Some(field_contains(country_value, "relics", "r_galatron"))
}

/// A flag recording that a relic's active effect was used.
pub open spec fn relic_active_key(k: Seq<char>) -> bool {
    k == "relic_active_effect_used"@ || contains_seq(k, "relic_active"@)
}

/// Some keyed entry of `ns` has a relic-active key.
pub open spec fn has_relic_active_key(ns: Seq<SNode>) -> bool {
    exists|j: int| 0 <= j < ns.len() && (#[trigger] ns[j] matches SNode::Pair(k, _) && relic_active_key(k))
}

/// `"true"` when the country's flags record a relic's active effect.
pub open spec fn spec_relic_active_effect_used(country: SValue) -> Option<Seq<char>> {
    match spec_query_path(country, seq!["flags"@]) {
        Some(SValue::Block(ns)) => if has_relic_active_key(ns) {
            Some("true"@)
        } else {
            None
        },
        _ => None,
    }
}

/// Whether the country used a relic's active effect, as `"true"`.
pub fn extract_relic_active_effect_used(country_value: &ClausewitzValue) -> (r: Option<String>)
    ensures
        opt_str_view(r) == spec_relic_active_effect_used(value_view(*country_value)),
{
    let nodes = match entry1(country_value, "flags") {
        Some(ClausewitzValue::Block(nodes)) => nodes,
        _ => return None,
    };
    let ghost ns = nodes_view(nodes@);
    proof {
        lemma_nodes_view(nodes@);
    }
    let mut i: usize = 0;
    while i < nodes.len()
        invariant
            i <= nodes@.len(),
            ns == nodes_view(nodes@),
            ns.len() == nodes@.len(),
            spec_query_path(value_view(*country_value), seq!["flags"@]) == Some(SValue::Block(ns)),
            forall|j: int|
                0 <= j < i ==> !(#[trigger] ns[j] matches SNode::Pair(k, _) && relic_active_key(k)),
        decreases nodes@.len() - i,
    {
        proof {
            lemma_nodes_view(nodes@);
        }
        if let ClausewitzNode::Pair(k, _) = &nodes[i] {
            if str_eq(k.as_str(), "relic_active_effect_used") || str_contains(
                k.as_str(),
                "relic_active",
            ) {
                assert(ns[i as int] matches SNode::Pair(k, _) && relic_active_key(k));
                return Some("true".to_owned());
            }
        }
        i = i + 1;
    }
    None
}

} // verus!
