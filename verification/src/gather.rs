//! Helpers that gather values out of country and gamestate blocks:
//! space-separated lists, distinct values, pop groups and owned planets.
use vstd::prelude::*;
use crate::clausewitz::{
    ClausewitzNode, ClausewitzValue, SNode, SValue, atom1, atom2, atom_at, block2, block_at,
    collect_atoms, dedupe, entries, entry1, lemma_nodes_view, lemma_nodes_view_skip, nodes_view,
    spec_collect_atoms, spec_query_path, value_view,
};
use crate::numbers::{parse_count, spec_count};
use crate::text::{split_whitespace, views, words};

verus! {

/// Appends `v` unless an equal string is already present.
pub fn push_unique(out: &mut Vec<String>, v: String)
    ensures
        views(final(out)@) == if views(old(out)@).contains(v@) {
            views(old(out)@)
        } else {
            views(old(out)@).push(v@)
        },
{
    let mut j: usize = 0;
    while j < out.len()
        invariant
            j <= out@.len(),
            forall|k: int| 0 <= k < j ==> out@[k]@ != v@,
        decreases out@.len() - j,
    {
        if out[j] == v {
            proof {
                assert(views(out@)[j as int] == v@);
            }
            return;
        }
        j = j + 1;
    }
    proof {
        assert forall|k: int| 0 <= k < views(out@).len() implies views(out@)[k] != v@ by {
            assert(views(out@)[k] == out@[k]@);
        }
    }
    let ghost before = out@;
    out.push(v);
    proof {
        assert(views(out@) =~= views(before).push(v@));
    }
}

/// Pushing onto a sequence extends its deduplication the same way.
pub proof fn lemma_dedupe_push(s: Seq<Seq<char>>, x: Seq<char>)
    ensures
        dedupe(s.push(x)) == if dedupe(s).contains(x) {
            dedupe(s)
        } else {
            dedupe(s).push(x)
        },
{
    assert(s.push(x).drop_last() =~= s);
}

/// Appends each string of `more` that is not present yet, in order.
pub(crate) fn push_all_unique(
    out: &mut Vec<String>,
    more: &Vec<String>,
    Ghost(acc): Ghost<Seq<Seq<char>>>,
)
    requires
        views(old(out)@) == dedupe(acc),
    ensures
        views(final(out)@) == dedupe(acc + views(more@)),
{
    let ghost mv = views(more@);
    let mut j: usize = 0;
    while j < more.len()
        invariant
            j <= more@.len(),
            mv == views(more@),
            views(out@) == dedupe(acc + mv.take(j as int)),
        decreases more@.len() - j,
    {
        let ghost t = acc + mv.take(j as int);
        push_unique(out, more[j].clone());
        proof {
            lemma_dedupe_push(t, mv[j as int]);
            assert(t.push(mv[j as int]) =~= acc + mv.take(j + 1));
        }
        j = j + 1;
    }
    proof {
        assert(mv.take(j as int) =~= mv);
    }
}

/// The words of an atom, the distinct atoms of a block, or nothing.
pub open spec fn spec_space_list(country: SValue, field: Seq<char>) -> Seq<Seq<char>> {
    match spec_query_path(country, seq![field]) {
        Some(SValue::Atom(s)) => words(s),
        Some(v) => spec_collect_atoms(v),
        None => Seq::empty(),
    }
}

/// The items listed under `field`: space-separated words when it is an atom,
/// its distinct atoms when it is a block.
pub fn collect_space_list(country_value: &ClausewitzValue, field: &str) -> (r: Vec<String>)
    ensures
        views(r@) == spec_space_list(value_view(*country_value), field@),
{
    match entry1(country_value, field) {
        Some(ClausewitzValue::Atom(s)) => split_whitespace(s.as_str()),
        Some(v) => {
            let r = collect_atoms(v);
            proof {
                assert(views(r@) =~= crate::clausewitz::strs_view(r@));
            }
            r
        },
        None => Vec::new(),
    }
}

/// `perk` is among the country's ascension perks.
pub open spec fn has_perk(country: SValue, perk: Seq<char>) -> bool {
    spec_space_list(country, "ascension_perks"@).contains(perk)
}

/// The entries of an optional block, or none.
pub open spec fn nodes_or_empty(o: Option<Seq<SNode>>) -> Seq<SNode> {
    match o {
        Some(ns) => ns,
        None => Seq::empty(),
    }
}

/// Whether `value` is among the items listed under `field`.
pub fn field_contains(country_value: &ClausewitzValue, field: &str, value: &str) -> (r: bool)
    ensures
        r == spec_space_list(value_view(*country_value), field@).contains(value@),
{
    let items = collect_space_list(country_value, field);
    let ghost iv = views(items@);
    let mut i: usize = 0;
    while i < items.len()
        invariant
            i <= items@.len(),
            iv == views(items@),
            iv == spec_space_list(value_view(*country_value), field@),
            forall|k: int| 0 <= k < i ==> iv[k] != value@,
        decreases items@.len() - i,
    {
        if crate::text::str_eq(items[i].as_str(), value) {
            assert(iv[i as int] == value@);
            return true;
        }
        i = i + 1;
    }
    false
}

/// The count written at `path` inside an entry, if it is a numeral atom.
pub open spec fn count_at(v: SValue, path: Seq<Seq<char>>) -> Option<usize> {
    match spec_query_path(v, path) {
        Some(SValue::Atom(s)) => spec_count(s),
        _ => None,
    }
}

/// The count one entry down.
pub fn count1(value: &ClausewitzValue, a: &str) -> (r: Option<usize>)
    ensures
        r == count_at(value_view(*value), seq![a@]),
{
    match entry1(value, a) {
        Some(ClausewitzValue::Atom(s)) => parse_count(s.as_str()),
        _ => None,
    }
}

/// The count two entries down.
pub fn count2(value: &ClausewitzValue, a: &str, b: &str) -> (r: Option<usize>)
    ensures
        r == count_at(value_view(*value), seq![a@, b@]),
{
    match crate::clausewitz::entry2(value, a, b) {
        Some(ClausewitzValue::Atom(s)) => parse_count(s.as_str()),
        _ => None,
    }
}

// ── Pop groups ──────────────────────────────────────────────────────────

pub open spec fn in_category(entry: SValue, category: Seq<char>) -> bool {
    atom_at(entry, seq!["key"@, "category"@]) == Some(category)
}

/// The size of a pop group (zero when it is not a numeral).
pub open spec fn group_size(entry: SValue) -> nat {
    match count_at(entry, seq!["size"@]) {
        Some(n) => n as nat,
        None => 0,
    }
}

/// Total size of the keyed pop groups of one category.
pub open spec fn category_total(ns: Seq<SNode>, category: Seq<char>) -> nat
    decreases ns.len(),
{
    if ns.len() == 0 {
        0
    } else {
        (match ns[0] {
            SNode::Pair(_, e) => if in_category(e, category) {
                group_size(e)
            } else {
                0
            },
            SNode::Value(_) => 0,
        }) + category_total(ns.drop_first(), category)
    }
}

pub open spec fn cap(n: nat) -> usize {
    if n > usize::MAX {
        usize::MAX
    } else {
        n as usize
    }
}

/// Total pop size of one category over the gamestate's `pop_groups`
/// (capped at `usize::MAX`); zero when `pop_groups` is an atom.
pub open spec fn spec_category_pops(game: SValue, category: Seq<char>) -> Option<usize> {
    match spec_query_path(game, seq!["pop_groups"@]) {
        None => None,
        Some(SValue::Atom(_)) => Some(0),
        Some(SValue::Block(ns)) => Some(cap(category_total(ns, category))),
    }
}

pub fn sum_pop_groups_by_category(game_root: &ClausewitzValue, category: &str) -> (r: Option<
    usize,
>)
    ensures
        r == spec_category_pops(value_view(*game_root), category@),
{
    let nodes = match entry1(game_root, "pop_groups") {
        None => return None,
        Some(ClausewitzValue::Atom(_)) => return Some(0),
        Some(ClausewitzValue::Block(n)) => n,
    };
    let ghost ns = nodes_view(nodes@);
    proof {
        lemma_nodes_view(nodes@);
        assert(ns.skip(0) =~= ns);
    }
    let mut total: usize = 0;
    let mut i: usize = 0;
    while i < nodes.len()
        invariant
            i <= nodes@.len(),
            ns == nodes_view(nodes@),
            ns.len() == nodes@.len(),
            cap(category_total(ns, category@)) == cap(total as nat + category_total(
                ns.skip(i as int),
                category@,
            )),
        decreases nodes@.len() - i,
    {
        proof {
            lemma_nodes_view_skip(nodes@, i as int);
        }
        if let ClausewitzNode::Pair(_, entry) = &nodes[i] {
            let cat = atom2(entry, "key", "category");
            let matches = match &cat {
                Some(c) => crate::text::str_eq(c.as_str(), category),
                None => false,
            };
            if matches {
                let size = match count1(entry, "size") {
                    Some(n) => n,
                    None => 0,
                };
                total = total.saturating_add(size);
            }
        }
        i = i + 1;
    }
    proof {
        assert(ns.skip(i as int) =~= Seq::<SNode>::empty());
    }
    Some(total)
}

/// Species of the keyed pop groups of one category, in order, repeats kept.
pub open spec fn category_species(ns: Seq<SNode>, category: Seq<char>) -> Seq<Seq<char>>
    decreases ns.len(),
{
    if ns.len() == 0 {
        Seq::empty()
    } else {
        (match ns[0] {
            SNode::Pair(_, e) => if in_category(e, category) {
                match atom_at(e, seq!["key"@, "species"@]) {
                    Some(s) => seq![s],
                    None => Seq::empty(),
                }
            } else {
                Seq::empty()
            },
            SNode::Value(_) => Seq::empty(),
        }) + category_species(ns.drop_first(), category)
    }
}

/// Number of distinct species among the pop groups of one category.
pub open spec fn spec_category_species_count(game: SValue, category: Seq<char>) -> Option<usize> {
    match spec_query_path(game, seq!["pop_groups"@]) {
        None => None,
        Some(SValue::Atom(_)) => Some(0),
        Some(SValue::Block(ns)) => Some(dedupe(category_species(ns, category)).len() as usize),
    }
}

pub proof fn lemma_dedupe_len<T>(s: Seq<T>)
    ensures
        dedupe(s).len() <= s.len(),
    decreases s.len(),
{
    if s.len() > 0 {
        lemma_dedupe_len(s.drop_last());
    }
}

pub fn count_distinct_species_in_category(game_root: &ClausewitzValue, category: &str) -> (r:
    Option<usize>)
    ensures
        r == spec_category_species_count(value_view(*game_root), category@),
{
    let nodes = match entry1(game_root, "pop_groups") {
        None => return None,
        Some(ClausewitzValue::Atom(_)) => return Some(0),
        Some(ClausewitzValue::Block(n)) => n,
    };
    let ghost ns = nodes_view(nodes@);
    proof {
        lemma_nodes_view(nodes@);
        assert(ns.skip(0) =~= ns);
    }
    let mut species: Vec<String> = Vec::new();
    let ghost mut seen: Seq<Seq<char>> = Seq::empty();
    let mut i: usize = 0;
    proof {
        assert(views(species@) =~= dedupe(seen));
        assert(category_species(ns, category@) =~= seen + category_species(ns, category@));
    }
    while i < nodes.len()
        invariant
            i <= nodes@.len(),
            ns == nodes_view(nodes@),
            ns.len() == nodes@.len(),
            views(species@) == dedupe(seen),
            category_species(ns, category@) == seen + category_species(ns.skip(i as int), category@),
        decreases nodes@.len() - i,
    {
        proof {
            lemma_nodes_view_skip(nodes@, i as int);
        }
        if let ClausewitzNode::Pair(_, entry) = &nodes[i] {
            let cat = atom2(entry, "key", "category");
            let matches = match &cat {
                Some(c) => crate::text::str_eq(c.as_str(), category),
                None => false,
            };
            if matches {
                if let Some(s) = atom2(entry, "key", "species") {
                    proof {
                        lemma_dedupe_push(seen, s@);
                        assert(seen.push(s@) + category_species(ns.skip(i + 1), category@)
                            =~= seen + category_species(ns.skip(i as int), category@));
                        seen = seen.push(s@);
                    }
                    push_unique(&mut species, s);
                } else {
                    proof {
                        assert(seen + category_species(ns.skip(i + 1), category@) =~= seen
                            + category_species(ns.skip(i as int), category@));
                    }
                }
            } else {
                proof {
                    assert(seen + category_species(ns.skip(i + 1), category@) =~= seen
                        + category_species(ns.skip(i as int), category@));
                }
            }
        } else {
            proof {
                assert(seen + category_species(ns.skip(i + 1), category@) =~= seen
                    + category_species(ns.skip(i as int), category@));
            }
        }
        i = i + 1;
    }
    proof {
        assert(ns.skip(i as int) =~= Seq::<SNode>::empty());
        assert(seen + Seq::<Seq<char>>::empty() =~= seen);
        lemma_dedupe_len(seen);
    }
    Some(species.len())
}

} // verus!

verus! {

// ── Picking one atom per keyed entry ────────────────────────────────────

/// Which atom of an entry to pick.
pub enum Pick {
    /// `type`.
    Type,
    /// `result`, else `outcome`, else `type`.
    ResultOutcomeType,
    /// `type`, else `species`.
    TypeOrSpecies,
    /// `key.species`.
    KeySpecies,
}

pub open spec fn or_else<T>(a: Option<T>, b: Option<T>) -> Option<T> {
    match a {
        Some(x) => Some(x),
        None => b,
    }
}

pub open spec fn pick(p: Pick, e: SValue) -> Option<Seq<char>> {
    match p {
        Pick::Type => atom_at(e, seq!["type"@]),
        Pick::ResultOutcomeType => or_else(
            atom_at(e, seq!["result"@]),
            or_else(atom_at(e, seq!["outcome"@]), atom_at(e, seq!["type"@])),
        ),
        Pick::TypeOrSpecies => or_else(atom_at(e, seq!["type"@]), atom_at(e, seq!["species"@])),
        Pick::KeySpecies => atom_at(e, seq!["key"@, "species"@]),
    }
}

/// The picked atoms of the keyed entries of `ns`, in order, repeats kept.
pub open spec fn picks(ns: Seq<SNode>, p: Pick) -> Seq<Seq<char>>
    decreases ns.len(),
{
    if ns.len() == 0 {
        Seq::empty()
    } else {
        (match ns[0] {
            SNode::Pair(_, e) => match pick(p, e) {
                Some(x) => seq![x],
                None => Seq::empty(),
            },
            SNode::Value(_) => Seq::empty(),
        }) + picks(ns.drop_first(), p)
    }
}

fn pick_exec(p: &Pick, e: &ClausewitzValue) -> (r: Option<String>)
    ensures
        crate::clausewitz::opt_str_view(r) == pick(*p, value_view(*e)),
{
    match p {
        Pick::Type => atom1(e, "type"),
        Pick::ResultOutcomeType => match atom1(e, "result") {
            Some(x) => Some(x),
            None => match atom1(e, "outcome") {
                Some(x) => Some(x),
                None => atom1(e, "type"),
            },
        },
        Pick::TypeOrSpecies => match atom1(e, "type") {
            Some(x) => Some(x),
            None => atom1(e, "species"),
        },
        Pick::KeySpecies => atom2(e, "key", "species"),
    }
}

/// The picked atoms of the keyed entries of `nodes`.
pub fn collect_picks(nodes: &Vec<ClausewitzNode>, p: Pick) -> (r: Vec<String>)
    ensures
        views(r@) == picks(nodes_view(nodes@), p),
{
    let ghost ns = nodes_view(nodes@);
    proof {
        lemma_nodes_view(nodes@);
        assert(ns.skip(0) =~= ns);
    }
    let mut out: Vec<String> = Vec::new();
    let mut i: usize = 0;
    proof {
        assert(picks(ns, p) =~= views(out@) + picks(ns, p));
    }
    while i < nodes.len()
        invariant
            i <= nodes@.len(),
            ns == nodes_view(nodes@),
            ns.len() == nodes@.len(),
            picks(ns, p) == views(out@) + picks(ns.skip(i as int), p),
        decreases nodes@.len() - i,
    {
        proof {
            lemma_nodes_view_skip(nodes@, i as int);
        }
        let ghost before = views(out@);
        if let ClausewitzNode::Pair(_, e) = &nodes[i] {
            if let Some(x) = pick_exec(&p, e) {
                out.push(x);
                proof {
                    assert(views(out@) =~= before.push(pick(p, value_view(*e))->0));
                }
            }
        }
        proof {
            assert(views(out@) + picks(ns.skip(i + 1), p) =~= before + picks(ns.skip(i as int), p));
        }
        i = i + 1;
    }
    proof {
        assert(ns.skip(i as int) =~= Seq::<SNode>::empty());
        assert(views(out@) + Seq::<Seq<char>>::empty() =~= views(out@));
    }
    out
}

/// Distinct values joined with ", ", or `None` when there are none.
pub open spec fn joined_distinct(items: Seq<Seq<char>>) -> Option<Seq<char>> {
    if dedupe(items).len() == 0 {
        None
    } else {
        Some(crate::text::join_seq(dedupe(items), ", "@))
    }
}

/// The distinct values of `items`, joined with ", ", or `None` when empty.
pub fn join_distinct(items: Vec<String>) -> (r: Option<String>)
    ensures
        crate::clausewitz::opt_str_view(r) == joined_distinct(views(items@)),
{
    let d = crate::clausewitz::dedupe_preserve_order(items);
    proof {
        assert(views(d@) =~= crate::clausewitz::strs_view(d@));
        assert(views(items@) =~= crate::clausewitz::strs_view(items@));
    }
    if d.len() == 0 {
        None
    } else {
        Some(crate::text::join_strings(&d, ", "))
    }
}

/// All values joined with ", ", or `None` when there are none.
pub open spec fn joined_all(items: Seq<Seq<char>>) -> Option<Seq<char>> {
    if items.len() == 0 {
        None
    } else {
        Some(crate::text::join_seq(items, ", "@))
    }
}

/// The values of `items` joined with ", ", or `None` when empty.
pub fn join_all(items: &Vec<String>) -> (r: Option<String>)
    ensures
        crate::clausewitz::opt_str_view(r) == joined_all(views(items@)),
{
    if items.len() == 0 {
        None
    } else {
        Some(crate::text::join_strings(items, ", "))
    }
}

/// Appends copies of `more`.
pub fn extend_strings(out: &mut Vec<String>, more: Vec<String>)
    ensures
        views(final(out)@) == views(old(out)@) + views(more@),
{
    crate::clausewitz::append_strings(out, &more);
    proof {
        assert(views(out@) =~= crate::clausewitz::strs_view(out@));
        assert(views(old(out)@) =~= crate::clausewitz::strs_view(old(out)@));
        assert(views(more@) =~= crate::clausewitz::strs_view(more@));
    }
}

// ── Pattern hits in keys ────────────────────────────────────────────────

/// The patterns (in list order) that occur in `k`.
pub open spec fn patterns_in(k: Seq<char>, pats: Seq<Seq<char>>) -> Seq<Seq<char>>
    decreases pats.len(),
{
    if pats.len() == 0 {
        Seq::empty()
    } else {
        (if crate::text::contains_seq(k, pats[0]) {
            seq![pats[0]]
        } else {
            Seq::empty()
        }) + patterns_in(k, pats.drop_first())
    }
}

/// For each keyed entry in order, the patterns its key contains.
pub open spec fn key_hits(ns: Seq<SNode>, pats: Seq<Seq<char>>) -> Seq<Seq<char>>
    decreases ns.len(),
{
    if ns.len() == 0 {
        Seq::empty()
    } else {
        (match ns[0] {
            SNode::Pair(k, _) => patterns_in(k, pats),
            SNode::Value(_) => Seq::empty(),
        }) + key_hits(ns.drop_first(), pats)
    }
}

fn patterns_in_exec(k: &str, pats: &[&str]) -> (r: Vec<String>)
    ensures
        views(r@) == patterns_in(k@, crate::clausewitz::path_view(pats@)),
{
    let ghost pv = crate::clausewitz::path_view(pats@);
    let kc = crate::text::chars_of(k);
    let mut out: Vec<String> = Vec::new();
    let mut j: usize = 0;
    proof {
        assert(pv.skip(0) =~= pv);
        assert(patterns_in(k@, pv) =~= views(out@) + patterns_in(k@, pv));
    }
    while j < pats.len()
        invariant
            j <= pats@.len(),
            pv == crate::clausewitz::path_view(pats@),
            pv.len() == pats@.len(),
            kc@ == k@,
            patterns_in(k@, pv) == views(out@) + patterns_in(k@, pv.skip(j as int)),
        decreases pats@.len() - j,
    {
        proof {
            assert(pv.skip(j as int)[0] == pats@[j as int]@);
            assert(pv.skip(j as int).drop_first() =~= pv.skip(j + 1));
        }
        let ghost before = views(out@);
        let pc = crate::text::chars_of(pats[j]);
        if crate::text::contains_chars(kc.as_slice(), pc.as_slice()) {
            out.push(pats[j].to_owned());
            proof {
                assert(views(out@) =~= before.push(pv[j as int]));
            }
        }
        proof {
            assert(views(out@) + patterns_in(k@, pv.skip(j + 1)) =~= before + patterns_in(
                k@,
                pv.skip(j as int),
            ));
        }
        j = j + 1;
    }
    proof {
        assert(pv.skip(j as int) =~= Seq::<Seq<char>>::empty());
        assert(views(out@) + Seq::<Seq<char>>::empty() =~= views(out@));
    }
    out
}

/// The patterns found in the keys of `nodes`, entry by entry, repeats kept.
pub fn collect_key_hits(nodes: &Vec<ClausewitzNode>, pats: &[&str]) -> (r: Vec<String>)
    ensures
        views(r@) == key_hits(nodes_view(nodes@), crate::clausewitz::path_view(pats@)),
{
    let ghost pv = crate::clausewitz::path_view(pats@);
    let ghost ns = nodes_view(nodes@);
    proof {
        lemma_nodes_view(nodes@);
        assert(ns.skip(0) =~= ns);
    }
    let mut out: Vec<String> = Vec::new();
    let mut i: usize = 0;
    proof {
        assert(key_hits(ns, pv) =~= views(out@) + key_hits(ns, pv));
    }
    while i < nodes.len()
        invariant
            i <= nodes@.len(),
            ns == nodes_view(nodes@),
            ns.len() == nodes@.len(),
            pv == crate::clausewitz::path_view(pats@),
            key_hits(ns, pv) == views(out@) + key_hits(ns.skip(i as int), pv),
        decreases nodes@.len() - i,
    {
        proof {
            lemma_nodes_view_skip(nodes@, i as int);
        }
        let ghost before = views(out@);
        if let ClausewitzNode::Pair(k, _) = &nodes[i] {
            let hits = patterns_in_exec(k.as_str(), pats);
            extend_strings(&mut out, hits);
        }
        proof {
            assert(views(out@) + key_hits(ns.skip(i + 1), pv) =~= before + key_hits(
                ns.skip(i as int),
                pv,
            ));
        }
        i = i + 1;
    }
    proof {
        assert(ns.skip(i as int) =~= Seq::<SNode>::empty());
        assert(views(out@) + Seq::<Seq<char>>::empty() =~= views(out@));
    }
    out
}

} // verus!

verus! {

// ── Owned planets ───────────────────────────────────────────────────────

pub open spec fn refs_view(v: Seq<&ClausewitzValue>) -> Seq<SValue> {
    v.map_values(|r: &ClausewitzValue| value_view(*r))
}

/// The keyed planets of `ns` whose `controller` is `pid`, in order.
pub open spec fn controlled_by(ns: Seq<SNode>, pid: Seq<char>) -> Seq<SValue>
    decreases ns.len(),
{
    if ns.len() == 0 {
        Seq::empty()
    } else {
        (match ns[0] {
            SNode::Pair(_, p) => if atom_at(p, seq!["controller"@]) == Some(pid) {
                seq![p]
            } else {
                Seq::empty()
            },
            SNode::Value(_) => Seq::empty(),
        }) + controlled_by(ns.drop_first(), pid)
    }
}

/// The planets of the gamestate that the country `pid` controls.
pub open spec fn spec_owned_planets(game: SValue, pid: Seq<char>) -> Seq<SValue> {
    match block_at(game, seq!["planets"@, "planet"@]) {
        Some(ns) => controlled_by(ns, pid),
        None => Seq::empty(),
    }
}

/// The planets that `player_country_id` controls.
pub fn owned_planets<'a>(game_root: &'a ClausewitzValue, player_country_id: &str) -> (r: Vec<
    &'a ClausewitzValue,
>)
    ensures
        refs_view(r@) == spec_owned_planets(value_view(*game_root), player_country_id@),
{
    let mut out: Vec<&'a ClausewitzValue> = Vec::new();
    let nodes = match block2(game_root, "planets", "planet") {
        Some(n) => n,
        None => {
            proof {
                assert(refs_view(out@) =~= Seq::<SValue>::empty());
            }
            return out;
        },
    };
    let ghost ns = nodes_view(nodes@);
    let ghost pid = player_country_id@;
    proof {
        lemma_nodes_view(nodes@);
        assert(ns.skip(0) =~= ns);
        assert(controlled_by(ns, pid) =~= refs_view(out@) + controlled_by(ns, pid));
    }
    let mut i: usize = 0;
    while i < nodes.len()
        invariant
            i <= nodes@.len(),
            ns == nodes_view(nodes@),
            ns.len() == nodes@.len(),
            pid == player_country_id@,
            controlled_by(ns, pid) == refs_view(out@) + controlled_by(ns.skip(i as int), pid),
        decreases nodes@.len() - i,
    {
        proof {
            lemma_nodes_view_skip(nodes@, i as int);
        }
        let ghost before = refs_view(out@);
        if let ClausewitzNode::Pair(_, p) = &nodes[i] {
            let c = atom1(p, "controller");
            let mine = match &c {
                Some(x) => crate::text::str_eq(x.as_str(), player_country_id),
                None => false,
            };
            if mine {
                out.push(p);
                proof {
                    assert(refs_view(out@) =~= before.push(value_view(*p)));
                }
            }
        }
        proof {
            assert(refs_view(out@) + controlled_by(ns.skip(i + 1), pid) =~= before + controlled_by(
                ns.skip(i as int),
                pid,
            ));
        }
        i = i + 1;
    }
    proof {
        assert(ns.skip(i as int) =~= Seq::<SNode>::empty());
        assert(refs_view(out@) + Seq::<SValue>::empty() =~= refs_view(out@));
    }
    out
}

// ── Countries listed in blocks ──────────────────────────────────────────

/// Some entry of `ns` is exactly `key = value` with an atom value.
pub open spec fn spec_has_pair_atom(ns: Seq<SNode>, key: Seq<char>, value: Seq<char>) -> bool {
    exists|j: int| 0 <= j < ns.len() && #[trigger] ns[j] == SNode::Pair(key, SValue::Atom(value))
}

/// A bare block entry with a field `country = id`.
pub open spec fn entry_names_country(e: SNode, id: Seq<char>) -> bool {
    match e {
        SNode::Value(SValue::Block(fields)) => spec_has_pair_atom(fields, "country"@, id),
        _ => false,
    }
}

/// Some entry of `es` is a bare block with a field `country = id`.
pub open spec fn entries_name_country(es: Seq<SNode>, id: Seq<char>) -> bool {
    exists|i: int| 0 <= i < es.len() && #[trigger] entry_names_country(es[i], id)
}

/// Some bare block entry of `b` has a field `country = id`.
pub open spec fn spec_block_entries_contain_country(b: SValue, id: Seq<char>) -> bool {
    b is Block && entries_name_country(entries(b), id)
}

/// Whether some entry of `nodes` is exactly `key = value` with an atom value.
pub fn has_pair_atom(nodes: &Vec<ClausewitzNode>, key: &str, value: &str) -> (r: bool)
    ensures
        r == spec_has_pair_atom(nodes_view(nodes@), key@, value@),
{
    let ghost fs = nodes_view(nodes@);
    proof {
        lemma_nodes_view(nodes@);
    }
    let mut j: usize = 0;
    while j < nodes.len()
        invariant
            j <= nodes@.len(),
            fs == nodes_view(nodes@),
            fs.len() == nodes@.len(),
            forall|k: int| 0 <= k < j ==> #[trigger] fs[k] != SNode::Pair(key@, SValue::Atom(value@)),
        decreases nodes@.len() - j,
    {
        proof {
            lemma_nodes_view(nodes@);
        }
        if let ClausewitzNode::Pair(k, ClausewitzValue::Atom(v)) = &nodes[j] {
            if crate::text::str_eq(k.as_str(), key) && crate::text::str_eq(v.as_str(), value) {
                assert(fs[j as int] == SNode::Pair(key@, SValue::Atom(value@)));
                return true;
            }
        }
        j = j + 1;
    }
    false
}

/// Whether a bare block entry of `block` names `target_id` as its country.
pub fn block_entries_contain_country(block: &ClausewitzValue, target_id: &str) -> (r: bool)
    ensures
        r == spec_block_entries_contain_country(value_view(*block), target_id@),
{
    match block {
        ClausewitzValue::Block(entries) => {
            let ghost es = nodes_view(entries@);
            proof {
                lemma_nodes_view(entries@);
            }
            let mut i: usize = 0;
            while i < entries.len()
                invariant
                    i <= entries@.len(),
                    es == nodes_view(entries@),
                    es.len() == entries@.len(),
                    value_view(*block) == SValue::Block(es),
                    forall|k: int| 0 <= k < i ==> !entry_names_country(#[trigger] es[k], target_id@),
                decreases entries@.len() - i,
            {
                proof {
                    lemma_nodes_view(entries@);
                }
                if let ClausewitzNode::Value(ClausewitzValue::Block(fields)) = &entries[i] {
                    if has_pair_atom(fields, "country", target_id) {
                        assert(entry_names_country(es[i as int], target_id@));
                        assert(entries_name_country(es, target_id@));
                        return true;
                    }
                }
                i = i + 1;
            }
            false
        },
        ClausewitzValue::Atom(_) => false,
    }
}

} // verus!
