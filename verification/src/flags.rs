//! Lookups on the `flags` block of a country and on keyed entries of blocks.
use vstd::prelude::*;
use crate::clausewitz::{
    ClausewitzNode, ClausewitzValue, SNode, SValue, block_at, lemma_nodes_view,
    lemma_nodes_view_skip, nodes_view, opt_str_view, path_view, query_block, query_path,
    spec_query_path, value_view,
};
use crate::text::{chars_of, contains_chars, contains_seq};

verus! {

/// The entries of a country's `flags` block.
pub open spec fn flag_nodes(country: SValue) -> Option<Seq<SNode>> {
    block_at(country, seq!["flags"@])
}

/// The country has a flag named `name`.
pub open spec fn spec_has_flag(country: SValue, name: Seq<char>) -> bool {
    spec_query_path(country, seq!["flags"@, name]) is Some
}

/// `k` contains at least one of `subs`.
pub open spec fn contains_any(k: Seq<char>, subs: Seq<Seq<char>>) -> bool {
    exists|j: int| 0 <= j < subs.len() && contains_seq(k, #[trigger] subs[j])
}

/// The first key of a `key = value` entry among `ns` that is one of `names`.
pub open spec fn first_key_in(ns: Seq<SNode>, names: Seq<Seq<char>>) -> Option<Seq<char>>
    decreases ns.len(),
{
    if ns.len() == 0 {
        None
    } else {
        match ns[0] {
            SNode::Pair(k, _) => if names.contains(k) {
                Some(k)
            } else {
                first_key_in(ns.drop_first(), names)
            },
            SNode::Value(_) => first_key_in(ns.drop_first(), names),
        }
    }
}

/// The first key of a `key = value` entry among `ns` that contains one of `subs`.
pub open spec fn first_key_containing(ns: Seq<SNode>, subs: Seq<Seq<char>>) -> Option<Seq<char>>
    decreases ns.len(),
{
    if ns.len() == 0 {
        None
    } else {
        match ns[0] {
            SNode::Pair(k, _) => if contains_any(k, subs) {
                Some(k)
            } else {
                first_key_containing(ns.drop_first(), subs)
            },
            SNode::Value(_) => first_key_containing(ns.drop_first(), subs),
        }
    }
}

/// The number of `key = value` entries among `ns` whose key contains `sub`.
pub open spec fn count_keys_containing(ns: Seq<SNode>, sub: Seq<char>) -> nat
    decreases ns.len(),
{
    if ns.len() == 0 {
        0
    } else {
        (match ns[0] {
            SNode::Pair(k, _) => if contains_seq(k, sub) {
                1nat
            } else {
                0nat
            },
            SNode::Value(_) => 0nat,
        }) + count_keys_containing(ns.drop_first(), sub)
    }
}

/// Whether a country has the flag `name`.
pub fn has_flag(country: &ClausewitzValue, name: &str) -> (r: bool)
    ensures
        r == spec_has_flag(value_view(*country), name@),
{
    let p = ["flags", name];
    let r = query_path(country, &p);
    proof {
        assert(path_view(p@) =~= seq!["flags"@, name@]);
    }
    r.is_some()
}

/// The country has at least one of the flags `names`.
pub open spec fn spec_has_any_flag(country: SValue, names: Seq<Seq<char>>) -> bool {
    exists|j: int| 0 <= j < names.len() && spec_has_flag(country, #[trigger] names[j])
}

/// Whether a country has any of the flags `names`.
pub fn has_any_flag(country: &ClausewitzValue, names: &[&str]) -> (r: bool)
    ensures
        r == spec_has_any_flag(value_view(*country), path_view(names@)),
{
    let ghost nv = path_view(names@);
    let mut i: usize = 0;
    while i < names.len()
        invariant
            i <= names@.len(),
            nv == path_view(names@),
            nv.len() == names@.len(),
            forall|j: int| 0 <= j < i ==> !spec_has_flag(value_view(*country), #[trigger] nv[j]),
        decreases names@.len() - i,
    {
        if has_flag(country, names[i]) {
            assert(spec_has_flag(value_view(*country), nv[i as int]));
            return true;
        }
        i = i + 1;
    }
    false
}

/// Does `key` contain one of `subs`?
pub fn str_contains_any(key: &str, subs: &[&str]) -> (r: bool)
    ensures
        r == contains_any(key@, path_view(subs@)),
{
    let kc = chars_of(key);
    let ghost sv = path_view(subs@);
    let mut i: usize = 0;
    while i < subs.len()
        invariant
            i <= subs@.len(),
            sv == path_view(subs@),
            kc@ == key@,
            forall|j: int| 0 <= j < i ==> !contains_seq(key@, #[trigger] sv[j]),
        decreases subs@.len() - i,
    {
        let sc = chars_of(subs[i]);
        if contains_chars(kc.as_slice(), sc.as_slice()) {
            assert(contains_seq(key@, sv[i as int]));
            return true;
        }
        i = i + 1;
    }
    false
}

/// Is `key` one of `names`?
pub fn str_in(key: &str, names: &[&str]) -> (r: bool)
    ensures
        r == path_view(names@).contains(key@),
{
    let ghost nv = path_view(names@);
    let mut i: usize = 0;
    while i < names.len()
        invariant
            i <= names@.len(),
            nv == path_view(names@),
            forall|j: int| 0 <= j < i ==> #[trigger] nv[j] != key@,
        decreases names@.len() - i,
    {
        if crate::text::str_eq(names[i], key) {
            assert(nv[i as int] == key@);
            return true;
        }
        i = i + 1;
    }
    false
}

/// The first key among `nodes` that is one of `names`.
pub fn first_key_in_nodes(nodes: &Vec<ClausewitzNode>, names: &[&str]) -> (r: Option<String>)
    ensures
        opt_str_view(r) == first_key_in(nodes_view(nodes@), path_view(names@)),
{
    let ghost ns = nodes_view(nodes@);
    proof {
        lemma_nodes_view(nodes@);
        assert(ns.skip(0) =~= ns);
    }
    let mut i: usize = 0;
    while i < nodes.len()
        invariant
            i <= nodes@.len(),
            ns == nodes_view(nodes@),
            ns.len() == nodes@.len(),
            first_key_in(ns, path_view(names@)) == first_key_in(ns.skip(i as int), path_view(names@)),
        decreases nodes@.len() - i,
    {
        proof {
            lemma_nodes_view_skip(nodes@, i as int);
        }
        if let ClausewitzNode::Pair(k, _) = &nodes[i] {
            if str_in(k.as_str(), names) {
                return Some(k.clone());
            }
        }
        i = i + 1;
    }
    proof {
        assert(ns.skip(i as int) =~= Seq::<SNode>::empty());
    }
    None
}

/// The first key among `nodes` that contains one of `subs`.
pub fn first_key_containing_in_nodes(nodes: &Vec<ClausewitzNode>, subs: &[&str]) -> (r: Option<
    String,
>)
    ensures
        opt_str_view(r) == first_key_containing(nodes_view(nodes@), path_view(subs@)),
{
    let ghost ns = nodes_view(nodes@);
    proof {
        lemma_nodes_view(nodes@);
        assert(ns.skip(0) =~= ns);
    }
    let mut i: usize = 0;
    while i < nodes.len()
        invariant
            i <= nodes@.len(),
            ns == nodes_view(nodes@),
            ns.len() == nodes@.len(),
            first_key_containing(ns, path_view(subs@)) == first_key_containing(
                ns.skip(i as int),
                path_view(subs@),
            ),
        decreases nodes@.len() - i,
    {
        proof {
            lemma_nodes_view_skip(nodes@, i as int);
        }
        if let ClausewitzNode::Pair(k, _) = &nodes[i] {
            if str_contains_any(k.as_str(), subs) {
                return Some(k.clone());
            }
        }
        i = i + 1;
    }
    proof {
        assert(ns.skip(i as int) =~= Seq::<SNode>::empty());
    }
    None
}

/// The number of keys among `nodes` containing `sub`.
pub fn count_keys_containing_in_nodes(nodes: &Vec<ClausewitzNode>, sub: &str) -> (r: usize)
    ensures
        r == count_keys_containing(nodes_view(nodes@), sub@),
{
    let ghost ns = nodes_view(nodes@);
    let sc = chars_of(sub);
    proof {
        lemma_nodes_view(nodes@);
        assert(ns.skip(0) =~= ns);
    }
    let mut i: usize = 0;
    let mut count: usize = 0;
    while i < nodes.len()
        invariant
            i <= nodes@.len(),
            ns == nodes_view(nodes@),
            ns.len() == nodes@.len(),
            sc@ == sub@,
            count <= i,
            count_keys_containing(ns, sub@) == count + count_keys_containing(
                ns.skip(i as int),
                sub@,
            ),
        decreases nodes@.len() - i,
    {
        proof {
            lemma_nodes_view_skip(nodes@, i as int);
        }
        if let ClausewitzNode::Pair(k, _) = &nodes[i] {
            let kc = chars_of(k.as_str());
            if contains_chars(kc.as_slice(), sc.as_slice()) {
                count = count + 1;
            }
        }
        i = i + 1;
    }
    proof {
        assert(ns.skip(i as int) =~= Seq::<SNode>::empty());
    }
    count
}

/// The first flag of a country whose name is one of `names`.
pub fn find_any_flag(country: &ClausewitzValue, names: &[&str]) -> (r: Option<String>)
    ensures
        opt_str_view(r) == match flag_nodes(value_view(*country)) {
            Some(ns) => first_key_in(ns, path_view(names@)),
            None => None,
        },
{
    let p = ["flags"];
    let b = query_block(country, &p);
    proof {
        assert(path_view(p@) =~= seq!["flags"@]);
    }
    match b {
        Some(nodes) => {
            first_key_in_nodes(nodes, names)
        },
        None => None,
    }
}

/// The first flag of a country whose name contains one of `subs`.
pub fn find_flag_containing(country: &ClausewitzValue, subs: &[&str]) -> (r: Option<String>)
    ensures
        opt_str_view(r) == match flag_nodes(value_view(*country)) {
            Some(ns) => first_key_containing(ns, path_view(subs@)),
            None => None,
        },
{
    let p = ["flags"];
    let b = query_block(country, &p);
    proof {
        assert(path_view(p@) =~= seq!["flags"@]);
    }
    match b {
        Some(nodes) => first_key_containing_in_nodes(nodes, subs),
        None => None,
    }
}

} // verus!
