//! Wars, subjects, federations, the galactic community and agreements.
use vstd::prelude::*;
use crate::clausewitz::{
    ClausewitzNode, ClausewitzValue, SNode, SValue, atom1, atom2, atom_at, atom_string, block1,
    block_at, collect_atoms, count_entries, dedupe, entry1, entry2, lemma_nodes_view,
    lemma_nodes_view_skip, node_view, nodes_view, opt_str_view, opt_view, path_view,
    spec_atom_string, spec_collect_atoms, spec_count_entries, spec_query_path, strs_view,
    value_view,
};
use crate::flags::{count_keys_containing, count_keys_containing_in_nodes, flag_nodes};
use crate::gather::{
    Pick, block_entries_contain_country, collect_key_hits, collect_picks, count_at, join_distinct,
    joined_distinct, key_hits, or_else, picks, push_all_unique, spec_block_entries_contain_country,
};
use crate::numbers::{is_minus_one, numeral_is_minus_one, parse_count, spec_count};
use crate::text::{contains_seq, str_contains, str_eq, views};

verus! {

// ── Wars ────────────────────────────────────────────────────────────────

/// The war side `side` lists the country `pid`.
pub open spec fn side_has_country(war: SValue, side: Seq<char>, pid: Seq<char>) -> bool {
    match spec_query_path(war, seq![side]) {
        Some(b) => spec_block_entries_contain_country(b, pid),
        None => false,
    }
}

/// The country `pid` fights in `war`, as attacker or defender.
pub open spec fn player_in_war(war: SValue, pid: Seq<char>) -> bool {
    side_has_country(war, "attackers"@, pid) || side_has_country(war, "defenders"@, pid)
}

/// The keyed wars of `ns` that `pid` fights in, in order.
pub open spec fn player_wars(ns: Seq<SNode>, pid: Seq<char>) -> Seq<SValue>
    decreases ns.len(),
{
    if ns.len() == 0 {
        Seq::empty()
    } else {
        (match ns[0] {
            SNode::Pair(_, w) => if player_in_war(w, pid) {
                seq![w]
            } else {
                Seq::empty()
            },
            SNode::Value(_) => Seq::empty(),
        }) + player_wars(ns.drop_first(), pid)
    }
}

/// The first war goal type written in `ws`, in order.
pub open spec fn first_war_goal(ws: Seq<SValue>) -> Option<Seq<char>>
    decreases ws.len(),
{
    if ws.len() == 0 {
        None
    } else {
        or_else(first_war_goal(ws.drop_last()), atom_at(ws.last(), seq!["war_goal"@, "type"@]))
    }
}

/// How many wars `pid` fights in, and the first war goal type among them.
pub open spec fn spec_active_wars(game: SValue, pid: Seq<char>) -> (nat, Option<Seq<char>>) {
    match block_at(game, seq!["war"@]) {
        Some(ns) => (player_wars(ns, pid).len(), first_war_goal(player_wars(ns, pid))),
        None => (0, None),
    }
}

fn player_in_war_exec(war_value: &ClausewitzValue, player_country_id: &str) -> (r: bool)
    ensures
        r == player_in_war(value_view(*war_value), player_country_id@),
{
    if let Some(side) = entry1(war_value, "attackers") {
        if block_entries_contain_country(side, player_country_id) {
            return true;
        }
    }
    if let Some(side) = entry1(war_value, "defenders") {
        if block_entries_contain_country(side, player_country_id) {
            return true;
        }
    }
    false
}

/// The number of wars the player fights in, with the war goal type of the
/// first of them that names one.
pub fn count_player_active_wars(game_root: &ClausewitzValue, player_country_id: &str) -> (r: (
    usize,
    Option<String>,
))
    ensures
        r.0 == spec_active_wars(value_view(*game_root), player_country_id@).0,
        opt_str_view(r.1) == spec_active_wars(value_view(*game_root), player_country_id@).1,
{
    let nodes = match block1(game_root, "war") {
        Some(n) => n,
        None => return (0, None),
    };
    let ghost ns = nodes_view(nodes@);
    let ghost pid = player_country_id@;
    proof {
        lemma_nodes_view(nodes@);
        assert(ns.skip(0) =~= ns);
        assert(player_wars(ns, pid) =~= Seq::<SValue>::empty() + player_wars(ns, pid));
    }
    let mut count: usize = 0;
    let mut war_type: Option<String> = None;
    let ghost mut seen: Seq<SValue> = Seq::empty();
    let mut i: usize = 0;
    while i < nodes.len()
        invariant
            i <= nodes@.len(),
            ns == nodes_view(nodes@),
            ns.len() == nodes@.len(),
            pid == player_country_id@,
            player_wars(ns, pid) == seen + player_wars(ns.skip(i as int), pid),
            count == seen.len(),
            seen.len() <= i,
            opt_str_view(war_type) == first_war_goal(seen),
        decreases nodes@.len() - i,
    {
        proof {
            lemma_nodes_view_skip(nodes@, i as int);
        }
        let ghost before = seen;
        if let ClausewitzNode::Pair(_, w) = &nodes[i] {
            if player_in_war_exec(w, player_country_id) {
                count = count + 1;
                if war_type.is_none() {
                    war_type = atom2(w, "war_goal", "type");
                }
                proof {
                    assert(seen.push(value_view(*w)).drop_last() =~= seen);
                    seen = seen.push(value_view(*w));
                }
            }
        }
        proof {
            assert(seen + player_wars(ns.skip(i + 1), pid) =~= before + player_wars(
                ns.skip(i as int),
                pid,
            ));
        }
        i = i + 1;
    }
    proof {
        assert(ns.skip(i as int) =~= Seq::<SNode>::empty());
        assert(seen + Seq::<SValue>::empty() =~= seen);
    }
    (count, war_type)
}

// ── Subjects ────────────────────────────────────────────────────────────

/// The number of entries under `subjects`.
pub open spec fn spec_subjects_count(country: SValue) -> Option<usize> {
    match spec_query_path(country, seq!["subjects"@]) {
        Some(v) => Some(spec_count_entries(v) as usize),
        None => None,
    }
}

/// The number of subjects, once as subjects acquired and once as vassals.
pub fn extract_subjects_data(country_value: &ClausewitzValue) -> (r: (Option<usize>, Option<
    usize,
>))
    ensures
        r.0 == spec_subjects_count(value_view(*country_value)),
        r.1 == spec_subjects_count(value_view(*country_value)),
{
    let count = match entry1(country_value, "subjects") {
        Some(v) => Some(count_entries(v)),
        None => None,
    };
    (count, count)
}

/// The distinct subject types, joined.
pub open spec fn spec_subject_type(country: SValue) -> Option<Seq<char>> {
    match block_at(country, seq!["subjects"@]) {
        Some(ns) => joined_distinct(picks(ns, Pick::Type)),
        None => None,
    }
}

/// The distinct `type`s of the country's subjects, joined with ", ".
pub fn extract_subject_type(country_value: &ClausewitzValue) -> (r: Option<String>)
    ensures
        opt_str_view(r) == spec_subject_type(value_view(*country_value)),
{
    match block1(country_value, "subjects") {
        Some(nodes) => join_distinct(collect_picks(nodes, Pick::Type)),
        None => None,
    }
}

// ── Federation ──────────────────────────────────────────────────────────

/// Whether the country names a federation: a non-empty atom or a block.
pub open spec fn spec_federation_formed(country: SValue) -> Option<bool> {
    match spec_query_path(country, seq!["federation"@]) {
        Some(SValue::Atom(s)) => Some(s.len() > 0),
        Some(SValue::Block(_)) => Some(true),
        None => Some(false),
    }
}

/// Whether the country is in a federation.
pub fn extract_federation_formed(country_value: &ClausewitzValue) -> (r: Option<bool>)
    ensures
        r == spec_federation_formed(value_view(*country_value)),
{
    match entry1(country_value, "federation") {
        Some(ClausewitzValue::Atom(s)) => Some(!s.as_str().is_empty()),
        Some(_) => Some(true),
        None => Some(false),
    }
}

/// The gamestate's entry for the federation the country names.
pub open spec fn federation_entry(game: SValue, country: SValue) -> Option<SValue> {
    match atom_at(country, seq!["federation"@]) {
        Some(id) => spec_query_path(game, seq!["federation"@, id]),
        None => None,
    }
}

/// The gamestate's entry for the country's federation.
pub fn get_federation_entry<'a>(game_root: &'a ClausewitzValue, country_value: &ClausewitzValue) -> (r:
    Option<&'a ClausewitzValue>)
    ensures
        opt_view(r) == federation_entry(value_view(*game_root), value_view(*country_value)),
{
    match atom1(country_value, "federation") {
        Some(id) => entry2(game_root, "federation", id.as_str()),
        None => None,
    }
}

pub open spec fn spec_federation_type(game: SValue, country: SValue) -> Option<Seq<char>> {
    match federation_entry(game, country) {
        Some(f) => atom_at(f, seq!["type"@]),
        None => None,
    }
}

/// The `type` of the country's federation.
pub fn extract_federation_type(game_root: &ClausewitzValue, country_value: &ClausewitzValue) -> (r:
    Option<String>)
    ensures
        opt_str_view(r) == spec_federation_type(value_view(*game_root), value_view(*country_value)),
{
    match get_federation_entry(game_root, country_value) {
        Some(fed) => atom1(fed, "type"),
        None => None,
    }
}

/// The federation's level: `level`, else `federation_level`, else
/// `centralization_level`, whichever is first a numeral.
pub open spec fn spec_federation_level(game: SValue, country: SValue) -> Option<usize> {
    match federation_entry(game, country) {
        Some(f) => or_else(
            count_at(f, seq!["level"@]),
            or_else(
                count_at(f, seq!["federation_level"@]),
                count_at(f, seq!["centralization_level"@]),
            ),
        ),
        None => None,
    }
}

/// The level of the country's federation.
pub fn extract_federation_level(game_root: &ClausewitzValue, country_value: &ClausewitzValue) -> (r:
    Option<usize>)
    ensures
        r == spec_federation_level(value_view(*game_root), value_view(*country_value)),
{
    let fed = match get_federation_entry(game_root, country_value) {
        Some(f) => f,
        None => return None,
    };
    if let Some(n) = crate::gather::count1(fed, "level") {
        return Some(n);
    }
    if let Some(n) = crate::gather::count1(fed, "federation_level") {
        return Some(n);
    }
    crate::gather::count1(fed, "centralization_level")
}

/// The atom of the first `country = atom` field among `ns`.
pub open spec fn first_country_field(ns: Seq<SNode>) -> Option<Seq<char>>
    decreases ns.len(),
{
    if ns.len() == 0 {
        None
    } else {
        match ns[0] {
            SNode::Pair(k, SValue::Atom(v)) => if k == "country"@ {
                Some(v)
            } else {
                first_country_field(ns.drop_first())
            },
            _ => first_country_field(ns.drop_first()),
        }
    }
}

/// The country id a federation member entry names.
pub open spec fn member_id(n: SNode) -> Option<Seq<char>> {
    match n {
        SNode::Pair(_, v) => or_else(atom_at(v, seq!["country"@]), spec_atom_string(v)),
        SNode::Value(SValue::Block(fields)) => first_country_field(fields),
        SNode::Value(SValue::Atom(id)) => Some(id),
    }
}

/// The distinct ethics of the country `id`.
pub open spec fn country_ethics(game: SValue, id: Seq<char>) -> Seq<Seq<char>> {
    match spec_query_path(game, seq!["country"@, id]) {
        Some(c) => match spec_query_path(c, seq!["ethics"@]) {
            Some(e) => spec_collect_atoms(e),
            None => Seq::empty(),
        },
        None => Seq::empty(),
    }
}

/// The ethics of one member, nothing for the player itself.
pub open spec fn member_ethics(game: SValue, n: SNode, pid: Seq<char>) -> Seq<Seq<char>> {
    match member_id(n) {
        Some(id) => if id == pid {
            Seq::empty()
        } else {
            country_ethics(game, id)
        },
        None => Seq::empty(),
    }
}

/// The ethics of all members, in member order, repeats kept.
pub open spec fn members_ethics(game: SValue, ns: Seq<SNode>, pid: Seq<char>) -> Seq<Seq<char>>
    decreases ns.len(),
{
    if ns.len() == 0 {
        Seq::empty()
    } else {
        member_ethics(game, ns[0], pid) + members_ethics(game, ns.drop_first(), pid)
    }
}

/// The distinct ethics of the other members of the country's federation.
pub open spec fn spec_federation_member_ethics(game: SValue, country: SValue, pid: Seq<char>) -> Seq<
    Seq<char>,
> {
    match federation_entry(game, country) {
        Some(f) => match block_at(f, seq!["members"@]) {
            Some(ns) => dedupe(members_ethics(game, ns, pid)),
            None => Seq::empty(),
        },
        None => Seq::empty(),
    }
}

fn first_country_in_fields(fields: &Vec<ClausewitzNode>) -> (r: Option<String>)
    ensures
        opt_str_view(r) == first_country_field(nodes_view(fields@)),
{
    let ghost ns = nodes_view(fields@);
    proof {
        lemma_nodes_view(fields@);
        assert(ns.skip(0) =~= ns);
    }
    let mut i: usize = 0;
    while i < fields.len()
        invariant
            i <= fields@.len(),
            ns == nodes_view(fields@),
            ns.len() == fields@.len(),
            first_country_field(ns) == first_country_field(ns.skip(i as int)),
        decreases fields@.len() - i,
    {
        proof {
            lemma_nodes_view_skip(fields@, i as int);
        }
        if let ClausewitzNode::Pair(k, ClausewitzValue::Atom(v)) = &fields[i] {
            if str_eq(k.as_str(), "country") {
                return Some(v.clone());
            }
        }
        i = i + 1;
    }
    proof {
        assert(ns.skip(i as int) =~= Seq::<SNode>::empty());
    }
    None
}

fn member_id_exec(node: &ClausewitzNode) -> (r: Option<String>)
    ensures
        opt_str_view(r) == member_id(node_view(*node)),
{
    match node {
        ClausewitzNode::Pair(_, value) => match atom1(value, "country") {
            Some(c) => Some(c),
            None => atom_string(value),
        },
        ClausewitzNode::Value(ClausewitzValue::Block(fields)) => first_country_in_fields(fields),
        ClausewitzNode::Value(ClausewitzValue::Atom(id)) => Some(id.clone()),
    }
}

fn country_ethics_exec(game_root: &ClausewitzValue, id: &str) -> (r: Vec<String>)
    ensures
        views(r@) == country_ethics(value_view(*game_root), id@),
{
    match entry2(game_root, "country", id) {
        Some(c) => match entry1(c, "ethics") {
            Some(e) => {
                let r = collect_atoms(e);
                proof {
                    assert(views(r@) =~= strs_view(r@));
                }
                r
            },
            None => Vec::new(),
        },
        None => Vec::new(),
    }
}

/// The distinct ethics of the other members of the country's federation,
/// in order of first appearance.
pub fn extract_federation_member_ethics(
    game_root: &ClausewitzValue,
    country_value: &ClausewitzValue,
    player_country_id: &str,
) -> (r: Vec<String>)
    ensures
        views(r@) == spec_federation_member_ethics(
            value_view(*game_root),
            value_view(*country_value),
            player_country_id@,
        ),
{
    let fed = match get_federation_entry(game_root, country_value) {
        Some(f) => f,
        None => return Vec::new(),
    };
    let members = match block1(fed, "members") {
        Some(m) => m,
        None => return Vec::new(),
    };
    let ghost game = value_view(*game_root);
    let ghost pid = player_country_id@;
    let ghost ns = nodes_view(members@);
    proof {
        lemma_nodes_view(members@);
        assert(ns.skip(0) =~= ns);
        assert(members_ethics(game, ns, pid) =~= Seq::<Seq<char>>::empty() + members_ethics(
            game,
            ns,
            pid,
        ));
    }
    let mut ethics: Vec<String> = Vec::new();
    let ghost mut acc: Seq<Seq<char>> = Seq::empty();
    proof {
        assert(views(ethics@) =~= dedupe(acc));
    }
    let mut i: usize = 0;
    while i < members.len()
        invariant
            i <= members@.len(),
            ns == nodes_view(members@),
            ns.len() == members@.len(),
            game == value_view(*game_root),
            pid == player_country_id@,
            members_ethics(game, ns, pid) == acc + members_ethics(game, ns.skip(i as int), pid),
            views(ethics@) == dedupe(acc),
        decreases members@.len() - i,
    {
        proof {
            lemma_nodes_view_skip(members@, i as int);
        }
        let ghost before = acc;
        if let Some(id) = member_id_exec(&members[i]) {
            if !str_eq(id.as_str(), player_country_id) {
                let more = country_ethics_exec(game_root, id.as_str());
                push_all_unique(&mut ethics, &more, Ghost(acc));
                proof {
                    acc = acc + views(more@);
                }
            }
        }
        proof {
            assert(acc + members_ethics(game, ns.skip(i + 1), pid) =~= before + members_ethics(
                game,
                ns.skip(i as int),
                pid,
            ));
        }
        i = i + 1;
    }
    proof {
        assert(ns.skip(i as int) =~= Seq::<SNode>::empty());
        assert(acc + Seq::<Seq<char>>::empty() =~= acc);
    }
    ethics
}

// ── Galactic community ──────────────────────────────────────────────────

/// `Some(true)` when the galactic community has been formed.
pub open spec fn spec_gc_exists(game: SValue) -> Option<bool> {
    if spec_query_path(game, seq!["galactic_community"@, "community_formed"@]) is Some {
        Some(true)
    } else {
        None
    }
}

/// Whether the galactic community has been formed.
pub fn extract_gc_exists(game_root: &ClausewitzValue) -> (r: Option<bool>)
    ensures
        r == spec_gc_exists(value_view(*game_root)),
{
    match entry2(game_root, "galactic_community", "community_formed") {
        Some(_) => Some(true),
        None => None,
    }
}

/// A custodian term runs: `custodian_term` is a numeral other than `-1`.
pub open spec fn custodian_term_active(game: SValue) -> bool {
    match atom_at(game, seq!["galactic_community"@, "custodian_term"@]) {
        Some(t) => spec_count(t) is Some && !is_minus_one(t),
        None => false,
    }
}

/// The player is custodian: a term runs and the community's leader is `pid`.
pub open spec fn spec_gc_custodian(game: SValue, pid: Seq<char>) -> Option<bool> {
    Some(
        custodian_term_active(game) && atom_at(game, seq!["galactic_community"@, "leader"@])
            == Some(pid),
    )
}

/// Whether the player holds the galactic custodianship.
pub fn extract_gc_custodian(game_root: &ClausewitzValue, player_country_id: &str) -> (r: Option<
    bool,
>)
    ensures
        r == spec_gc_custodian(value_view(*game_root), player_country_id@),
{
    let active = match atom2(game_root, "galactic_community", "custodian_term") {
        Some(t) => parse_count(t.as_str()).is_some() && !numeral_is_minus_one(t.as_str()),
        None => false,
    };
    if !active {
        return Some(false);
    }
    match atom2(game_root, "galactic_community", "leader") {
        Some(id) => Some(str_eq(id.as_str(), player_country_id)),
        None => Some(false),
    }
}

// ── Flags and agreements ────────────────────────────────────────────────

pub open spec fn enclave_patterns() -> Seq<Seq<char>> {
    seq![
        "recruit_curator_scientist"@,
        "buy_trader_resource"@,
        "destroyed_enclave"@,
        "destroy_enclave"@,
        "traded_with_artisans"@,
        "recruited_curator"@,
    ]
}

/// The enclave interactions the country's flags mention, joined.
pub open spec fn spec_enclave_interaction_type(country: SValue) -> Option<Seq<char>> {
    match flag_nodes(country) {
        Some(ns) => joined_distinct(key_hits(ns, enclave_patterns())),
        None => None,
    }
}

/// The enclave interactions named in the country's flags, in order of
/// first appearance, joined with ", ".
pub fn extract_enclave_interaction_type(country_value: &ClausewitzValue) -> (r: Option<String>)
    ensures
        opt_str_view(r) == spec_enclave_interaction_type(value_view(*country_value)),
{
    let patterns = [
        "recruit_curator_scientist",
        "buy_trader_resource",
        "destroyed_enclave",
        "destroy_enclave",
        "traded_with_artisans",
        "recruited_curator",
    ];
    proof {
        assert(path_view(patterns@) =~= enclave_patterns());
    }
    match block1(country_value, "flags") {
        Some(nodes) => join_distinct(collect_key_hits(nodes, &patterns)),
        None => None,
    }
}

/// The number of flags containing `sub`; zero when `flags` is an atom.
pub open spec fn flag_key_count(country: SValue, sub: Seq<char>) -> Option<usize> {
    match spec_query_path(country, seq!["flags"@]) {
        Some(SValue::Block(ns)) => Some(count_keys_containing(ns, sub) as usize),
        Some(SValue::Atom(_)) => Some(0),
        None => None,
    }
}

fn count_flag_keys(country_value: &ClausewitzValue, sub: &str) -> (r: Option<usize>)
    ensures
        r == flag_key_count(value_view(*country_value), sub@),
{
    match entry1(country_value, "flags") {
        Some(ClausewitzValue::Block(nodes)) => Some(count_keys_containing_in_nodes(nodes, sub)),
        Some(ClausewitzValue::Atom(_)) => Some(0),
        None => None,
    }
}

/// The number of completed espionage operations recorded in flags.
pub fn count_espionage_operations_completed(country_value: &ClausewitzValue) -> (r: Option<usize>)
    ensures
        r == flag_key_count(value_view(*country_value), "espionage_operation_completed"@),
{
    count_flag_keys(country_value, "espionage_operation_completed")
}

/// The number of proxy wars recorded in flags.
pub fn count_proxy_wars(country_value: &ClausewitzValue) -> (r: Option<usize>)
    ensures
        r == flag_key_count(value_view(*country_value), "proxy_war"@),
{
    count_flag_keys(country_value, "proxy_war")
}

/// The number of keyed entries whose `type` contains `sub`.
pub open spec fn count_types_containing(ns: Seq<SNode>, sub: Seq<char>) -> nat
    decreases ns.len(),
{
    if ns.len() == 0 {
        0
    } else {
        (match ns[0] {
            SNode::Pair(_, e) => match atom_at(e, seq!["type"@]) {
                Some(t) => if contains_seq(t, sub) {
                    1nat
                } else {
                    0nat
                },
                None => 0nat,
            },
            SNode::Value(_) => 0nat,
        }) + count_types_containing(ns.drop_first(), sub)
    }
}

/// The number of agreements whose type mentions migration.
pub open spec fn spec_migration_treaties(country: SValue) -> Option<usize> {
    match spec_query_path(country, seq!["agreements"@]) {
        Some(SValue::Block(ns)) => Some(count_types_containing(ns, "migration"@) as usize),
        Some(SValue::Atom(_)) => Some(0),
        None => None,
    }
}

/// The number of migration treaties among the country's agreements.
pub fn count_migration_treaties(country_value: &ClausewitzValue) -> (r: Option<usize>)
    ensures
        r == spec_migration_treaties(value_view(*country_value)),
{
    let nodes = match entry1(country_value, "agreements") {
        Some(ClausewitzValue::Block(nodes)) => nodes,
        Some(ClausewitzValue::Atom(_)) => return Some(0),
        None => return None,
    };
    let ghost ns = nodes_view(nodes@);
    proof {
        lemma_nodes_view(nodes@);
        assert(ns.skip(0) =~= ns);
    }
    let mut count: usize = 0;
    let mut i: usize = 0;
    while i < nodes.len()
        invariant
            i <= nodes@.len(),
            ns == nodes_view(nodes@),
            ns.len() == nodes@.len(),
            count <= i,
            count_types_containing(ns, "migration"@) == count + count_types_containing(
                ns.skip(i as int),
                "migration"@,
            ),
        decreases nodes@.len() - i,
    {
        proof {
            lemma_nodes_view_skip(nodes@, i as int);
        }
        if let ClausewitzNode::Pair(_, e) = &nodes[i] {
            if let Some(t) = atom1(e, "type") {
                if str_contains(t.as_str(), "migration") {
                    count = count + 1;
                }
            }
        }
        i = i + 1;
    }
    proof {
        assert(ns.skip(i as int) =~= Seq::<SNode>::empty());
    }
    Some(count)
}

} // verus!
