//! Discovery facts: what galaxy generation put in reach of the player,
//! read from country flags, archaeological sites, first contacts, ambient
//! objects and galactic objects of a parsed gamestate.
use vstd::prelude::*;
use crate::clausewitz::{
    ClausewitzNode, ClausewitzValue, SNode, SValue, atom1, atom2, atom_at, block1, block2,
    block_at, entry1, entry2, lemma_nodes_view, lemma_nodes_view_skip, nodes_view, opt_str_view,
    path_view, spec_query_path, value_view,
};
use crate::flags::{
    contains_any, find_any_flag, find_flag_containing, first_key_containing, first_key_in,
    flag_nodes, str_contains_any,
};
use crate::text::{contains_seq, starts_with_seq, str_contains, str_starts_with};

verus! {

/// Discovery facts of one save (each `None` when the save shows no sign).
#[derive(Debug, Clone, Default)]
pub struct DiscoveryFacts {
    pub endgame_crisis: Option<String>,
    pub sol_system_era: Option<String>,
    pub primitive_earth_present: Option<bool>,
    pub pre_ftl_era_target: Option<String>,
    pub target_species_class: Option<String>,
    pub target_homeworld_class: Option<String>,
    pub precursor_type: Option<String>,
    pub precursor_chain_completed: Option<String>,
    pub l_cluster_unlocked: Option<bool>,
    pub shielded_world_unlocked: Option<bool>,
    pub ancient_leviathan: Option<String>,
    pub enclave_type_present: Option<String>,
    pub great_khan_spawned: Option<bool>,
}

// ── Name lists ──────────────────────────────────────────────────────────

pub open spec fn crisis_flag_names() -> Seq<Seq<char>> {
    seq![
        "crisis_contingency"@,
        "crisis_prethoryn"@,
        "crisis_unbidden"@,
        "crisis_cetana"@,
        "endgame_crisis"@,
        "contingency_spawned"@,
        "prethoryn_spawned"@,
        "unbidden_spawned"@,
    ]
}

pub open spec fn precursor_prefixes() -> Seq<Seq<char>> {
    seq![
        "site_zroni"@,
        "site_vultaum"@,
        "site_yuht"@,
        "site_league"@,
        "site_irassian"@,
        "site_cybrex"@,
    ]
}

pub open spec fn leviathan_patterns() -> Seq<Seq<char>> {
    seq![
        "ether_drake"@,
        "stellarite"@,
        "dimensional_horror"@,
        "void_spawn"@,
        "infinity_machine"@,
        "spectre"@,
        "scavenger_bot"@,
        "automated_dreadnought"@,
        "enigmatic_fortress"@,
        "wraith"@,
        "tiyanki"@,
    ]
}

pub open spec fn enclave_keywords() -> Seq<Seq<char>> {
    seq!["curator"@, "trader"@, "artisan"@, "mercenary"@]
}

// ── Generic scans ───────────────────────────────────────────────────────

/// What a scan looks for in one entry.
pub enum Selector {
    /// The `class` atom of the `species` block.
    SpeciesClass,
    /// The `class` atom of the `homeworld` block.
    HomeworldClass,
    /// The `type` atom, when it names a known leviathan.
    Leviathan,
    /// The first enclave keyword that the `type` atom contains.
    EnclaveKeyword,
}

/// The first element of `words` that `s` contains.
pub open spec fn first_contained(s: Seq<char>, words: Seq<Seq<char>>) -> Option<Seq<char>>
    decreases words.len(),
{
    if words.len() == 0 {
        None
    } else if contains_seq(s, words[0]) {
        Some(words[0])
    } else {
        first_contained(s, words.drop_first())
    }
}

/// The first element of `prefixes` that `s` starts with.
pub open spec fn first_prefix(s: Seq<char>, prefixes: Seq<Seq<char>>) -> Option<Seq<char>>
    decreases prefixes.len(),
{
    if prefixes.len() == 0 {
        None
    } else if starts_with_seq(s, prefixes[0]) {
        Some(prefixes[0])
    } else {
        first_prefix(s, prefixes.drop_first())
    }
}

/// What `sel` finds in one entry's value.
pub open spec fn select(sel: Selector, v: SValue) -> Option<Seq<char>> {
    match sel {
        Selector::SpeciesClass => match spec_query_path(v, seq!["species"@]) {
            Some(s) => atom_at(s, seq!["class"@]),
            None => None,
        },
        Selector::HomeworldClass => match spec_query_path(v, seq!["homeworld"@]) {
            Some(h) => atom_at(h, seq!["class"@]),
            None => None,
        },
        Selector::Leviathan => match atom_at(v, seq!["type"@]) {
            Some(t) => if contains_any(t, leviathan_patterns()) {
                Some(t)
            } else {
                None
            },
            None => None,
        },
        Selector::EnclaveKeyword => match atom_at(v, seq!["type"@]) {
            Some(t) => first_contained(t, enclave_keywords()),
            None => None,
        },
    }
}

/// What `sel` finds in the first keyed entry of `ns` where it finds anything.
pub open spec fn first_selected(ns: Seq<SNode>, sel: Selector) -> Option<Seq<char>>
    decreases ns.len(),
{
    if ns.len() == 0 {
        None
    } else {
        match ns[0] {
            SNode::Pair(_, v) => match select(sel, v) {
                Some(x) => Some(x),
                None => first_selected(ns.drop_first(), sel),
            },
            SNode::Value(_) => first_selected(ns.drop_first(), sel),
        }
    }
}

/// The first word of `words` that `s` contains.
pub fn first_contained_exec(s: &str, words: &[&str]) -> (r: Option<String>)
    ensures
        opt_str_view(r) == first_contained(s@, path_view(words@)),
{
    let ghost wv = path_view(words@);
    let mut i: usize = 0;
    proof {
        assert(wv.skip(0) =~= wv);
    }
    while i < words.len()
        invariant
            i <= words@.len(),
            wv == path_view(words@),
            wv.len() == words@.len(),
            first_contained(s@, wv) == first_contained(s@, wv.skip(i as int)),
        decreases words@.len() - i,
    {
        proof {
            assert(wv.skip(i as int)[0] == words@[i as int]@);
            assert(wv.skip(i as int).drop_first() =~= wv.skip(i + 1));
        }
        if str_contains(s, words[i]) {
            return Some(crate::text::string_of(crate::text::chars_of(words[i]).as_slice()));
        }
        i = i + 1;
    }
    proof {
        assert(wv.skip(i as int) =~= Seq::<Seq<char>>::empty());
    }
    None
}

/// The first prefix of `prefixes` that `s` starts with.
pub fn first_prefix_exec(s: &str, prefixes: &[&str]) -> (r: Option<String>)
    ensures
        opt_str_view(r) == first_prefix(s@, path_view(prefixes@)),
{
    let ghost wv = path_view(prefixes@);
    let mut i: usize = 0;
    proof {
        assert(wv.skip(0) =~= wv);
    }
    while i < prefixes.len()
        invariant
            i <= prefixes@.len(),
            wv == path_view(prefixes@),
            wv.len() == prefixes@.len(),
            first_prefix(s@, wv) == first_prefix(s@, wv.skip(i as int)),
        decreases prefixes@.len() - i,
    {
        proof {
            assert(wv.skip(i as int)[0] == prefixes@[i as int]@);
            assert(wv.skip(i as int).drop_first() =~= wv.skip(i + 1));
        }
        if str_starts_with(s, prefixes[i]) {
            return Some(crate::text::string_of(crate::text::chars_of(prefixes[i]).as_slice()));
        }
        i = i + 1;
    }
    proof {
        assert(wv.skip(i as int) =~= Seq::<Seq<char>>::empty());
    }
    None
}

fn select_exec(sel: &Selector, v: &ClausewitzValue) -> (r: Option<String>)
    ensures
        opt_str_view(r) == select(*sel, value_view(*v)),
{
    match sel {
        Selector::SpeciesClass => match entry1(v, "species") {
            Some(s) => atom1(s, "class"),
            None => None,
        },
        Selector::HomeworldClass => match entry1(v, "homeworld") {
            Some(h) => atom1(h, "class"),
            None => None,
        },
        Selector::Leviathan => match atom1(v, "type") {
            Some(t) => {
                let pats = [
                    "ether_drake",
                    "stellarite",
                    "dimensional_horror",
                    "void_spawn",
                    "infinity_machine",
                    "spectre",
                    "scavenger_bot",
                    "automated_dreadnought",
                    "enigmatic_fortress",
                    "wraith",
                    "tiyanki",
                ];
                proof {
                    assert(path_view(pats@) =~= leviathan_patterns());
                }
                if str_contains_any(t.as_str(), &pats) {
                    Some(t)
                } else {
                    None
                }
            },
            None => None,
        },
        Selector::EnclaveKeyword => match atom1(v, "type") {
            Some(t) => {
                let kws = ["curator", "trader", "artisan", "mercenary"];
                proof {
                    assert(path_view(kws@) =~= enclave_keywords());
                }
                first_contained_exec(t.as_str(), &kws)
            },
            None => None,
        },
    }
}

/// What `sel` finds in the first keyed entry of `nodes` where it finds anything.
pub fn first_selected_exec(nodes: &Vec<ClausewitzNode>, sel: Selector) -> (r: Option<String>)
    ensures
        opt_str_view(r) == first_selected(nodes_view(nodes@), sel),
{
    let ghost ns = nodes_view(nodes@);
    proof {
        lemma_nodes_view(nodes@);
        assert(ns.skip(0) =~= ns);
    }
    let mut i: usize = 0;
    while i < nodes.len()
        invariant
            i <= nodes@.len(),
            ns == nodes_view(nodes@),
            ns.len() == nodes@.len(),
            first_selected(ns, sel) == first_selected(ns.skip(i as int), sel),
        decreases nodes@.len() - i,
    {
        proof {
            lemma_nodes_view_skip(nodes@, i as int);
        }
        if let ClausewitzNode::Pair(_, v) = &nodes[i] {
            let found = select_exec(&sel, v);
            if found.is_some() {
                return found;
            }
        }
        i = i + 1;
    }
    proof {
        assert(ns.skip(i as int) =~= Seq::<SNode>::empty());
    }
    None
}

} // verus!

verus! {

// ── Dimension specifications ────────────────────────────────────────────

pub open spec fn flags_first_in(country: SValue, names: Seq<Seq<char>>) -> Option<Seq<char>> {
    match flag_nodes(country) {
        Some(ns) => first_key_in(ns, names),
        None => None,
    }
}

pub open spec fn flags_first_containing(country: SValue, subs: Seq<Seq<char>>) -> Option<
    Seq<char>,
> {
    match flag_nodes(country) {
        Some(ns) => first_key_containing(ns, subs),
        None => None,
    }
}

pub open spec fn some_true<T>(o: Option<T>) -> Option<bool> {
    match o {
        Some(_) => Some(true),
        None => None,
    }
}

pub open spec fn or_else<T>(a: Option<T>, b: Option<T>) -> Option<T> {
    match a {
        Some(x) => Some(x),
        None => b,
    }
}

/// Endgame crisis: a known crisis flag, else the first flag mentioning "crisis".
pub open spec fn spec_endgame_crisis(country: SValue) -> Option<Seq<char>> {
    or_else(
        flags_first_in(country, crisis_flag_names()),
        flags_first_containing(country, seq!["crisis"@]),
    )
}

pub open spec fn spec_sol_system_era(country: SValue) -> Option<Seq<char>> {
    flags_first_containing(country, seq!["sol_era"@])
}

pub open spec fn spec_primitive_earth_present(country: SValue) -> Option<bool> {
    some_true(
        flags_first_containing(
            country,
            seq!["primitive_earth"@, "earth_primitive"@, "sol_primitive"@],
        ),
    )
}

/// Stage (or era) of the first pre-FTL contact that has one. The scan gives
/// up at the first keyed contact without a `type`.
pub open spec fn pre_ftl_scan(ns: Seq<SNode>) -> Option<Seq<char>>
    decreases ns.len(),
{
    if ns.len() == 0 {
        None
    } else {
        match ns[0] {
            SNode::Pair(_, b) => match atom_at(b, seq!["type"@]) {
                None => None,
                Some(t) => {
                    let stage = or_else(atom_at(b, seq!["stage"@]), atom_at(b, seq!["era"@]));
                    if (contains_seq(t, "pre_ftl"@) || contains_seq(t, "primitive"@))
                        && stage is Some {
                        stage
                    } else {
                        pre_ftl_scan(ns.drop_first())
                    }
                },
            },
            SNode::Value(_) => pre_ftl_scan(ns.drop_first()),
        }
    }
}

pub open spec fn contact_nodes(game: SValue) -> Option<Seq<SNode>> {
    block_at(game, seq!["first_contacts"@, "contacts"@])
}

pub open spec fn spec_pre_ftl_era_target(game: SValue) -> Option<Seq<char>> {
    match contact_nodes(game) {
        Some(ns) => pre_ftl_scan(ns),
        None => None,
    }
}

/// The node is a contact whose type contains `pre_ftl` or `primitive` and
/// whose `stage` (or, lacking one, `era`) is `x`.
pub open spec fn is_pre_ftl_source(n: SNode, x: Seq<char>) -> bool {
    match n {
        SNode::Pair(_, b) => match atom_at(b, seq!["type"@]) {
            Some(t) => (contains_seq(t, "pre_ftl"@) || contains_seq(t, "primitive"@)) && (atom_at(
                b,
                seq!["stage"@],
            ) == Some(x) || (atom_at(b, seq!["stage"@]) is None && atom_at(b, seq!["era"@]) == Some(x))),
            None => false,
        },
        SNode::Value(_) => false,
    }
}

proof fn lemma_pre_ftl_scan_found(ns: Seq<SNode>)
    ensures
        pre_ftl_scan(ns) matches Some(x) ==> exists|i: int|
            0 <= i < ns.len() && is_pre_ftl_source(#[trigger] ns[i], x),
    decreases ns.len(),
{
    if ns.len() > 0 {
        let rest = ns.drop_first();
        lemma_pre_ftl_scan_found(rest);
        if let Some(x) = pre_ftl_scan(ns) {
            if !is_pre_ftl_source(ns[0], x) {
                assert(pre_ftl_scan(rest) == Some(x));
                let i = choose|i: int| 0 <= i < rest.len() && is_pre_ftl_source(#[trigger] rest[i], x);
                assert(ns[i + 1] == rest[i]);
            }
        }
    }
}

/// A contact whose type names a primitive or pre-FTL civilization is the
/// pre-FTL era target: when the first contact is one, its `stage` (or,
/// lacking one, its `era`) is the target.
pub proof fn lemma_first_pre_ftl_contact_is_target(game: SValue, ns: Seq<SNode>, key: Seq<char>, b: SValue, t: Seq<char>)
    requires
        block_at(game, seq!["first_contacts"@, "contacts"@]) == Some(ns),
        ns.len() > 0,
        ns[0] == SNode::Pair(key, b),
        atom_at(b, seq!["type"@]) == Some(t),
        contains_seq(t, "pre_ftl"@) || contains_seq(t, "primitive"@),
    ensures
        atom_at(b, seq!["stage"@]) matches Some(s) ==> spec_pre_ftl_era_target(game) == Some(s),
        atom_at(b, seq!["stage"@]) is None && atom_at(b, seq!["era"@]) is Some
            ==> spec_pre_ftl_era_target(game) == atom_at(b, seq!["era"@]),
{
}

/// The contact gives no pre-FTL target and lets the scan go on: a value, or
/// a keyed contact with a type that is not pre-FTL or primitive, or that has
/// neither a `stage` nor an `era`.
pub open spec fn passes_over(n: SNode) -> bool {
    match n {
        SNode::Value(_) => true,
        SNode::Pair(_, b) => match atom_at(b, seq!["type"@]) {
            Some(t) => !(contains_seq(t, "pre_ftl"@) || contains_seq(t, "primitive"@)) || (atom_at(
                b,
                seq!["stage"@],
            ) is None && atom_at(b, seq!["era"@]) is None),
            None => false,
        },
    }
}

proof fn lemma_pre_ftl_scan_first(ns: Seq<SNode>, i: int, x: Seq<char>)
    requires
        0 <= i < ns.len(),
        is_pre_ftl_source(ns[i], x),
        forall|j: int| 0 <= j < i ==> passes_over(#[trigger] ns[j]),
    ensures
        pre_ftl_scan(ns) == Some(x),
    decreases i,
{
    if i > 0 {
        let rest = ns.drop_first();
        assert(passes_over(ns[0]));
        assert forall|j: int| 0 <= j < i - 1 implies passes_over(#[trigger] rest[j]) by {
            assert(rest[j] == ns[j + 1]);
        }
        assert(rest[i - 1] == ns[i]);
        lemma_pre_ftl_scan_first(rest, i - 1, x);
    }
}

/// The pre-FTL era target is that of the first contact that is a pre-FTL
/// or primitive civilization with a stage or era, when every contact before
/// it is passed over.
pub proof fn lemma_pre_ftl_target_is_first_source(game: SValue, ns: Seq<SNode>, i: int, x: Seq<char>)
    requires
        block_at(game, seq!["first_contacts"@, "contacts"@]) == Some(ns),
        0 <= i < ns.len(),
        is_pre_ftl_source(ns[i], x),
        forall|j: int| 0 <= j < i ==> passes_over(#[trigger] ns[j]),
    ensures
        spec_pre_ftl_era_target(game) == Some(x),
{
    lemma_pre_ftl_scan_first(ns, i, x);
}

/// Any pre-FTL era target is the `stage` (or, lacking one, the `era`) of a
/// contact whose type contains `pre_ftl` or `primitive`.
pub proof fn lemma_pre_ftl_target_has_a_source(game: SValue, ns: Seq<SNode>)
    requires
        block_at(game, seq!["first_contacts"@, "contacts"@]) == Some(ns),
    ensures
        spec_pre_ftl_era_target(game) matches Some(x) ==> exists|i: int|
            0 <= i < ns.len() && is_pre_ftl_source(#[trigger] ns[i], x),
{
    lemma_pre_ftl_scan_found(ns);
}

pub open spec fn spec_target_species_class(game: SValue) -> Option<Seq<char>> {
    match contact_nodes(game) {
        Some(ns) => first_selected(ns, Selector::SpeciesClass),
        None => None,
    }
}

pub open spec fn spec_target_homeworld_class(game: SValue) -> Option<Seq<char>> {
    match contact_nodes(game) {
        Some(ns) => first_selected(ns, Selector::HomeworldClass),
        None => None,
    }
}

/// Precursor of the first site that the player excavated. The scan gives up
/// at the first keyed site without a `type`.
pub open spec fn precursor_scan(ns: Seq<SNode>, player: Seq<char>) -> Option<Seq<char>>
    decreases ns.len(),
{
    if ns.len() == 0 {
        None
    } else {
        match ns[0] {
            SNode::Pair(_, site) => match atom_at(site, seq!["type"@]) {
                None => None,
                Some(t) => if atom_at(site, seq!["last_excavator_country"@]) == Some(player)
                    && first_prefix(t, precursor_prefixes()) is Some {
                    first_prefix(t, precursor_prefixes())
                } else {
                    precursor_scan(ns.drop_first(), player)
                },
            },
            SNode::Value(_) => precursor_scan(ns.drop_first(), player),
        }
    }
}

pub open spec fn site_nodes(game: SValue) -> Option<Seq<SNode>> {
    block_at(game, seq!["archaeological_sites"@, "sites"@])
}

pub open spec fn spec_player_id(game: SValue) -> Option<Seq<char>> {
    atom_at(game, seq!["player"@, "country"@])
}

pub open spec fn spec_precursor_type(game: SValue) -> Option<Seq<char>> {
    match spec_player_id(game) {
        None => None,
        Some(player) => match site_nodes(game) {
            Some(ns) => precursor_scan(ns, player),
            None => None,
        },
    }
}

/// The precursor chain of the first keyed site that the player excavated
/// and whose type starts with a known precursor prefix; sites without a
/// `type`, of another type, or excavated by someone else are passed over.
pub open spec fn chain_scan(ns: Seq<SNode>, player: Seq<char>) -> Option<Seq<char>>
    decreases ns.len(),
{
    if ns.len() == 0 {
        None
    } else {
        match ns[0] {
            SNode::Pair(_, site) => match atom_at(site, seq!["type"@]) {
                Some(t) => match first_prefix(t, precursor_prefixes()) {
                    Some(chain) => if atom_at(site, seq!["last_excavator_country"@]) == Some(player) {
                        Some(chain)
                    } else {
                        chain_scan(ns.drop_first(), player)
                    },
                    None => chain_scan(ns.drop_first(), player),
                },
                None => chain_scan(ns.drop_first(), player),
            },
            SNode::Value(_) => chain_scan(ns.drop_first(), player),
        }
    }
}

pub open spec fn spec_precursor_chain_completed(game: SValue) -> Option<Seq<char>> {
    match spec_player_id(game) {
        None => None,
        Some(player) => match spec_query_path(game, seq!["archaeological_sites"@, "sites"@]) {
            None => None,
            Some(SValue::Atom(_)) => None,
            Some(SValue::Block(ns)) => chain_scan(ns, player),
        },
    }
}

pub open spec fn spec_l_cluster_unlocked(country: SValue) -> Option<bool> {
    some_true(
        or_else(
            flags_first_in(country, seq!["l_cluster_unlocked"@, "terminal_egress_unlocked"@]),
            flags_first_containing(country, seq!["l_cluster"@, "terminal_egress"@, "l_gate"@]),
        ),
    )
}

pub open spec fn spec_shielded_world_unlocked(country: SValue) -> Option<bool> {
    some_true(
        flags_first_containing(country, seq!["shielded_world"@, "shield_world"@, "shielded"@]),
    )
}

pub open spec fn spec_ancient_leviathan(game: SValue) -> Option<Seq<char>> {
    match block_at(game, seq!["ambient_object"@]) {
        Some(ns) => first_selected(ns, Selector::Leviathan),
        None => None,
    }
}

pub open spec fn spec_enclave_type_present(game: SValue, country: SValue) -> Option<Seq<char>> {
    or_else(
        match block_at(game, seq!["galactic_object"@]) {
            Some(ns) => first_selected(ns, Selector::EnclaveKeyword),
            None => None,
        },
        flags_first_containing(country, enclave_keywords()),
    )
}

pub open spec fn spec_great_khan_spawned(country: SValue) -> Option<bool> {
    some_true(
        or_else(
            flags_first_in(country, seq!["great_khan_spawned"@, "great_khan"@, "khan_spawned"@]),
            flags_first_containing(country, seq!["great_khan"@, "khan"@]),
        ),
    )
}

/// The facts that [`extract_discovery_facts`] reports for a gamestate and
/// the player's country.
pub open spec fn discovery_facts_of(f: DiscoveryFacts, game: SValue, country: SValue) -> bool {
    &&& opt_str_view(f.endgame_crisis) == spec_endgame_crisis(country)
    &&& opt_str_view(f.sol_system_era) == spec_sol_system_era(country)
    &&& f.primitive_earth_present == spec_primitive_earth_present(country)
    &&& opt_str_view(f.pre_ftl_era_target) == spec_pre_ftl_era_target(game)
    &&& opt_str_view(f.target_species_class) == spec_target_species_class(game)
    &&& opt_str_view(f.target_homeworld_class) == spec_target_homeworld_class(game)
    &&& opt_str_view(f.precursor_type) == spec_precursor_type(game)
    &&& opt_str_view(f.precursor_chain_completed) == spec_precursor_chain_completed(game)
    &&& f.l_cluster_unlocked == spec_l_cluster_unlocked(country)
    &&& f.shielded_world_unlocked == spec_shielded_world_unlocked(country)
    &&& opt_str_view(f.ancient_leviathan) == spec_ancient_leviathan(game)
    &&& opt_str_view(f.enclave_type_present) == spec_enclave_type_present(game, country)
    &&& f.great_khan_spawned == spec_great_khan_spawned(country)
}

} // verus!

verus! {

// ── Extractors ──────────────────────────────────────────────────────────

/// The endgame crisis the country's flags name.
pub fn extract_endgame_crisis(game_root: &ClausewitzValue, country_value: &ClausewitzValue) -> (r:
    Option<String>)
    ensures
        opt_str_view(r) == spec_endgame_crisis(value_view(*country_value)),
{
    let names = [
        "crisis_contingency",
        "crisis_prethoryn",
        "crisis_unbidden",
        "crisis_cetana",
        "endgame_crisis",
        "contingency_spawned",
        "prethoryn_spawned",
        "unbidden_spawned",
    ];
    proof {
        assert(path_view(names@) =~= crisis_flag_names());
    }
    if let Some(name) = find_any_flag(country_value, &names) {
        return Some(name);
    }
    let subs = ["crisis"];
    proof {
        assert(path_view(subs@) =~= seq!["crisis"@]);
    }
    find_flag_containing(country_value, &subs)
}

/// The Sol system era flag.
pub fn extract_sol_system_era(game_root: &ClausewitzValue, country_value: &ClausewitzValue) -> (r:
    Option<String>)
    ensures
        opt_str_view(r) == spec_sol_system_era(value_view(*country_value)),
{
    let subs = ["sol_era"];
    proof {
        assert(path_view(subs@) =~= seq!["sol_era"@]);
    }
    find_flag_containing(country_value, &subs)
}

/// Whether a flag shows a primitive Earth.
pub fn extract_primitive_earth_present(
    game_root: &ClausewitzValue,
    country_value: &ClausewitzValue,
) -> (r: Option<bool>)
    ensures
        r == spec_primitive_earth_present(value_view(*country_value)),
{
    let subs = ["primitive_earth", "earth_primitive", "sol_primitive"];
    proof {
        assert(path_view(subs@) =~= seq!["primitive_earth"@, "earth_primitive"@, "sol_primitive"@]);
    }
    match find_flag_containing(country_value, &subs) {
        Some(_) => Some(true),
        None => None,
    }
}

fn pre_ftl_scan_exec(nodes: &Vec<ClausewitzNode>) -> (r: Option<String>)
    ensures
        opt_str_view(r) == pre_ftl_scan(nodes_view(nodes@)),
{
    let ghost ns = nodes_view(nodes@);
    proof {
        lemma_nodes_view(nodes@);
        assert(ns.skip(0) =~= ns);
    }
    let mut i: usize = 0;
    while i < nodes.len()
        invariant
            i <= nodes@.len(),
            ns == nodes_view(nodes@),
            ns.len() == nodes@.len(),
            pre_ftl_scan(ns) == pre_ftl_scan(ns.skip(i as int)),
        decreases nodes@.len() - i,
    {
        proof {
            lemma_nodes_view_skip(nodes@, i as int);
        }
        if let ClausewitzNode::Pair(_, b) = &nodes[i] {
            let t = match atom1(b, "type") {
                Some(t) => t,
                None => return None,
            };
            if str_contains(t.as_str(), "pre_ftl") || str_contains(t.as_str(), "primitive") {
                let stage = match atom1(b, "stage") {
                    Some(s) => Some(s),
                    None => atom1(b, "era"),
                };
                if stage.is_some() {
                    return stage;
                }
            }
        }
        i = i + 1;
    }
    proof {
        assert(ns.skip(i as int) =~= Seq::<SNode>::empty());
    }
    None
}

/// The stage of the first pre-FTL civilization among the first contacts.
pub fn extract_pre_ftl_era_target(game_root: &ClausewitzValue, country_value: &ClausewitzValue) -> (r:
    Option<String>)
    ensures
        opt_str_view(r) == spec_pre_ftl_era_target(value_view(*game_root)),
{
    match block2(game_root, "first_contacts", "contacts") {
        Some(nodes) => pre_ftl_scan_exec(nodes),
        None => None,
    }
}

/// The species class of the first contact that shows one.
pub fn extract_target_species_class(
    game_root: &ClausewitzValue,
    country_value: &ClausewitzValue,
) -> (r: Option<String>)
    ensures
        opt_str_view(r) == spec_target_species_class(value_view(*game_root)),
{
    match block2(game_root, "first_contacts", "contacts") {
        Some(nodes) => first_selected_exec(nodes, Selector::SpeciesClass),
        None => None,
    }
}

/// The homeworld class of the first contact that shows one.
pub fn extract_target_homeworld_class(
    game_root: &ClausewitzValue,
    country_value: &ClausewitzValue,
) -> (r: Option<String>)
    ensures
        opt_str_view(r) == spec_target_homeworld_class(value_view(*game_root)),
{
    match block2(game_root, "first_contacts", "contacts") {
        Some(nodes) => first_selected_exec(nodes, Selector::HomeworldClass),
        None => None,
    }
}

fn precursor_prefix_list() -> (r: [&'static str; 6])
    ensures
        path_view(r@) == precursor_prefixes(),
{
    let r = ["site_zroni", "site_vultaum", "site_yuht", "site_league", "site_irassian", "site_cybrex"];
    proof {
        assert(path_view(r@) =~= precursor_prefixes());
    }
    r
}

/// The precursor chain of the first site that the player excavated.
pub fn extract_precursor_type(game_root: &ClausewitzValue, country_value: &ClausewitzValue) -> (r:
    Option<String>)
    ensures
        opt_str_view(r) == spec_precursor_type(value_view(*game_root)),
{
    let player = match atom2(game_root, "player", "country") {
        Some(p) => p,
        None => return None,
    };
    let nodes = match block2(game_root, "archaeological_sites", "sites") {
        Some(n) => n,
        None => return None,
    };
    let prefixes = precursor_prefix_list();
    let ghost ns = nodes_view(nodes@);
    proof {
        lemma_nodes_view(nodes@);
        assert(ns.skip(0) =~= ns);
    }
    let mut i: usize = 0;
    while i < nodes.len()
        invariant
            i <= nodes@.len(),
            ns == nodes_view(nodes@),
            ns.len() == nodes@.len(),
            path_view(prefixes@) == precursor_prefixes(),
            precursor_scan(ns, player@) == precursor_scan(ns.skip(i as int), player@),
            spec_precursor_type(value_view(*game_root)) == precursor_scan(ns, player@),
        decreases nodes@.len() - i,
    {
        proof {
            lemma_nodes_view_skip(nodes@, i as int);
        }
        if let ClausewitzNode::Pair(_, site) = &nodes[i] {
            let t = match atom1(site, "type") {
                Some(t) => t,
                None => return None,
            };
            let excavator = atom1(site, "last_excavator_country");
            let mine = match &excavator {
                Some(e) => *e == player,
                None => false,
            };
            if mine {
                let p = first_prefix_exec(t.as_str(), &prefixes);
                if p.is_some() {
                    return p;
                }
            }
        }
        i = i + 1;
    }
    proof {
        assert(ns.skip(i as int) =~= Seq::<SNode>::empty());
    }
    None
}

/// The chain of the first player-excavated site, provided every site has a
/// known precursor type.
pub fn extract_precursor_chain_completed(
    game_root: &ClausewitzValue,
    country_value: &ClausewitzValue,
) -> (r: Option<String>)
    ensures
        opt_str_view(r) == spec_precursor_chain_completed(value_view(*game_root)),
{
    let player = match atom2(game_root, "player", "country") {
        Some(p) => p,
        None => return None,
    };
    let sites = match entry2(game_root, "archaeological_sites", "sites") {
        Some(s) => s,
        None => return None,
    };
    let nodes = match sites {
        ClausewitzValue::Block(n) => n,
        ClausewitzValue::Atom(_) => return None,
    };
    let prefixes = precursor_prefix_list();
    let ghost ns = nodes_view(nodes@);
    proof {
        lemma_nodes_view(nodes@);
        assert(ns.skip(0) =~= ns);
    }
    let mut i: usize = 0;
    while i < nodes.len()
        invariant
            i <= nodes@.len(),
            ns == nodes_view(nodes@),
            ns.len() == nodes@.len(),
            path_view(prefixes@) == precursor_prefixes(),
            spec_precursor_chain_completed(value_view(*game_root)) == chain_scan(ns, player@),
            chain_scan(ns, player@) == chain_scan(ns.skip(i as int), player@),
        decreases nodes@.len() - i,
    {
        proof {
            lemma_nodes_view_skip(nodes@, i as int);
        }
        if let ClausewitzNode::Pair(_, site) = &nodes[i] {
            if let Some(t) = atom1(site, "type") {
                if let Some(chain) = first_prefix_exec(t.as_str(), &prefixes) {
                    let excavator = atom1(site, "last_excavator_country");
                    let mine = match &excavator {
                        Some(e) => *e == player,
                        None => false,
                    };
                    if mine {
                        return Some(chain);
                    }
                }
            }
        }
        i = i + 1;
    }
    proof {
        assert(ns.skip(i as int) =~= Seq::<SNode>::empty());
    }
    None
}

/// Whether a flag shows the L-cluster opened.
pub fn extract_l_cluster_unlocked(game_root: &ClausewitzValue, country_value: &ClausewitzValue) -> (r:
    Option<bool>)
    ensures
        r == spec_l_cluster_unlocked(value_view(*country_value)),
{
    let names = ["l_cluster_unlocked", "terminal_egress_unlocked"];
    let subs = ["l_cluster", "terminal_egress", "l_gate"];
    proof {
        assert(path_view(names@) =~= seq!["l_cluster_unlocked"@, "terminal_egress_unlocked"@]);
        assert(path_view(subs@) =~= seq!["l_cluster"@, "terminal_egress"@, "l_gate"@]);
    }
    let found = match find_any_flag(country_value, &names) {
        Some(n) => Some(n),
        None => find_flag_containing(country_value, &subs),
    };
    match found {
        Some(_) => Some(true),
        None => None,
    }
}

/// Whether a flag shows a shielded world.
pub fn extract_shielded_world_unlocked(
    game_root: &ClausewitzValue,
    country_value: &ClausewitzValue,
) -> (r: Option<bool>)
    ensures
        r == spec_shielded_world_unlocked(value_view(*country_value)),
{
    let subs = ["shielded_world", "shield_world", "shielded"];
    proof {
        assert(path_view(subs@) =~= seq!["shielded_world"@, "shield_world"@, "shielded"@]);
    }
    match find_flag_containing(country_value, &subs) {
        Some(_) => Some(true),
        None => None,
    }
}

/// The type of the first ambient object that is a known leviathan.
pub fn extract_ancient_leviathan(game_root: &ClausewitzValue, country_value: &ClausewitzValue) -> (r:
    Option<String>)
    ensures
        opt_str_view(r) == spec_ancient_leviathan(value_view(*game_root)),
{
    match block1(game_root, "ambient_object") {
        Some(nodes) => first_selected_exec(nodes, Selector::Leviathan),
        None => None,
    }
}

/// The enclave kind among the galactic objects, else an enclave flag.
pub fn extract_enclave_type_present(
    game_root: &ClausewitzValue,
    country_value: &ClausewitzValue,
) -> (r: Option<String>)
    ensures
        opt_str_view(r) == spec_enclave_type_present(
            value_view(*game_root),
            value_view(*country_value),
        ),
{
    if let Some(nodes) = block1(game_root, "galactic_object") {
        let found = first_selected_exec(nodes, Selector::EnclaveKeyword);
        if found.is_some() {
            return found;
        }
    }
    let kws = ["curator", "trader", "artisan", "mercenary"];
    proof {
        assert(path_view(kws@) =~= enclave_keywords());
    }
    find_flag_containing(country_value, &kws)
}

/// Whether a flag shows the Great Khan.
pub fn extract_great_khan_spawned(game_root: &ClausewitzValue, country_value: &ClausewitzValue) -> (r:
    Option<bool>)
    ensures
        r == spec_great_khan_spawned(value_view(*country_value)),
{
    let names = ["great_khan_spawned", "great_khan", "khan_spawned"];
    let subs = ["great_khan", "khan"];
    proof {
        assert(path_view(names@) =~= seq!["great_khan_spawned"@, "great_khan"@, "khan_spawned"@]);
        assert(path_view(subs@) =~= seq!["great_khan"@, "khan"@]);
    }
    let found = match find_any_flag(country_value, &names) {
        Some(n) => Some(n),
        None => find_flag_containing(country_value, &subs),
    };
    match found {
        Some(_) => Some(true),
        None => None,
    }
}

/// All discovery facts of a gamestate for the player's country.
pub fn extract_discovery_facts(game_root: &ClausewitzValue, country_value: &ClausewitzValue) -> (r:
    DiscoveryFacts)
    ensures
        discovery_facts_of(r, value_view(*game_root), value_view(*country_value)),
{
    DiscoveryFacts {
        endgame_crisis: extract_endgame_crisis(game_root, country_value),
        sol_system_era: extract_sol_system_era(game_root, country_value),
        primitive_earth_present: extract_primitive_earth_present(game_root, country_value),
        pre_ftl_era_target: extract_pre_ftl_era_target(game_root, country_value),
        target_species_class: extract_target_species_class(game_root, country_value),
        target_homeworld_class: extract_target_homeworld_class(game_root, country_value),
        precursor_type: extract_precursor_type(game_root, country_value),
        precursor_chain_completed: extract_precursor_chain_completed(game_root, country_value),
        l_cluster_unlocked: extract_l_cluster_unlocked(game_root, country_value),
        shielded_world_unlocked: extract_shielded_world_unlocked(game_root, country_value),
        ancient_leviathan: extract_ancient_leviathan(game_root, country_value),
        enclave_type_present: extract_enclave_type_present(game_root, country_value),
        great_khan_spawned: extract_great_khan_spawned(game_root, country_value),
    }
}

} // verus!
