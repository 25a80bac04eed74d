//! What the documents folder tells about a player's runs: which save of a
//! run counts as its latest, and the string lists of `dlc_load.json`.
use vstd::prelude::*;
use crate::order::{
    lemma_lex_irreflexive, lemma_lex_total, lemma_lex_transitive, lex_lt, str_lt,
    strictly_sorted,
};
use crate::text::{chars_of, str_eq, views};
use crate::clausewitz::opt_str_view;
use crate::model::LauncherModSummary;
use crate::values::{entries_view, fact_view, lemma_entries_view, opt_fact_view, FactValue, SFact};

verus! {

// ── Save preference ─────────────────────────────────────────────────────

/// What the preference among the saves of a run looks at: the file's name
/// and its modification time, in nanoseconds from the Unix epoch.
#[derive(Debug)]
pub struct SaveStamp {
    pub file_name: Option<String>,
    pub modified: Option<i128>,
}

/// The order of modification times, an unknown time first.
pub open spec fn time_lt(a: Option<i128>, b: Option<i128>) -> bool {
    match (a, b) {
        (None, Some(_)) => true,
        (Some(x), Some(y)) => x < y,
        _ => false,
    }
}

/// Save `i` comes before save `j`: it is newer, or as new and listed later.
pub open spec fn newer_first(ts: Seq<Option<i128>>, i: int, j: int) -> bool {
    time_lt(ts[j], ts[i]) || (ts[i] == ts[j] && i > j)
}

pub open spec fn stamps_times(fs: Seq<SaveStamp>) -> Seq<Option<i128>> {
    fs.map_values(|f: SaveStamp| f.modified)
}

/// The save is an ironman save.
pub open spec fn is_ironman(f: SaveStamp) -> bool {
    f.file_name matches Some(n) && n@ == "ironman.sav"@
}

/// `o` lists the saves `lo..` of `o` newest first.
pub open spec fn newest_first_from(ts: Seq<Option<i128>>, o: Seq<usize>, lo: int) -> bool {
    forall|a: int, b: int| lo <= a < b < o.len() ==> newer_first(ts, #[trigger] o[a] as int, #[trigger] o[b] as int)
}

/// `o` is an order of the saves `fs` in which the preferred one comes first:
/// an ironman save (the newest of them), else the newest save; the others
/// follow newest first, saves of the same time in reverse listing order.
pub open spec fn preference_order(fs: Seq<SaveStamp>, o: Seq<usize>) -> bool {
    let ts = stamps_times(fs);
    &&& o.len() == fs.len()
    &&& forall|a: int| 0 <= a < o.len() ==> (#[trigger] o[a]) < fs.len()
    &&& forall|a: int, b: int| 0 <= a < o.len() && 0 <= b < o.len() && a != b ==> #[trigger] o[a] != #[trigger] o[b]
    &&& if exists|k: int| 0 <= k < fs.len() && is_ironman(#[trigger] fs[k]) {
        &&& is_ironman(fs[o[0] as int])
        &&& newest_first_from(ts, o, 1)
        &&& forall|b: int| 1 <= b < o.len() && is_ironman(#[trigger] fs[o[b] as int]) ==> newer_first(ts, o[0] as int, o[b] as int)
    } else {
        newest_first_from(ts, o, 0)
    }
}

proof fn lemma_newer_first_total(ts: Seq<Option<i128>>, i: int, j: int)
    requires
        i != j,
    ensures
        newer_first(ts, i, j) || newer_first(ts, j, i),
{
}

proof fn lemma_newer_first_transitive(ts: Seq<Option<i128>>, i: int, j: int, k: int)
    requires
        newer_first(ts, i, j),
        newer_first(ts, j, k),
    ensures
        newer_first(ts, i, k),
{
}

proof fn lemma_newer_first_irreflexive(ts: Seq<Option<i128>>, i: int)
    ensures
        !newer_first(ts, i, i),
{
}

/// The saves of a run in the order of preference (see
/// [`preference_order`]), as indices into `files`.
pub fn order_saves_by_preference(files: &[SaveStamp]) -> (r: Vec<usize>)
    ensures
        preference_order(files@, r@),
{
    let ghost ts = stamps_times(files@);
    let n: usize = files.len();
    let mut out: Vec<usize> = Vec::new();
    let mut i: usize = 0;
    while i < n
        invariant
            i <= n,
            n == files@.len(),
            ts == stamps_times(files@),
            out@.len() == i,
            forall|a: int| 0 <= a < out@.len() ==> (#[trigger] out@[a]) < i,
            newest_first_from(ts, out@, 0),
        decreases n - i,
    {
        let mut p: usize = 0;
        while p < out.len() && newer_first_exec(files, out[p], i)
            invariant
                p <= out@.len(),
                i < n,
                n == files@.len(),
                ts == stamps_times(files@),
                forall|a: int| 0 <= a < p ==> newer_first(ts, #[trigger] out@[a] as int, i as int),
                forall|a: int| 0 <= a < out@.len() ==> (#[trigger] out@[a]) < i,
                out@.len() == i,
                newest_first_from(ts, out@, 0),
            decreases out@.len() - p,
        {
            p = p + 1;
        }
        let ghost before = out@;
        proof {
            if p < before.len() {
                assert(!newer_first(ts, before[p as int] as int, i as int));
                assert(before[p as int] < i);
                lemma_newer_first_total(ts, before[p as int] as int, i as int);
                assert forall|b: int| p <= b < before.len() implies newer_first(ts, i as int, #[trigger] before[b] as int) by {
                    if b > p {
                        lemma_newer_first_transitive(ts, i as int, before[p as int] as int, before[b] as int);
                    }
                }
            }
        }
        out.insert(p, i);
        proof {
            let now = out@;
            assert(now =~= before.insert(p as int, i));
            assert forall|a: int, b: int| 0 <= a < b < now.len() implies newer_first(ts, #[trigger] now[a] as int, #[trigger] now[b] as int) by {
                if b < p {
                } else if b == p {
                } else if a < p {
                    lemma_newer_first_transitive(ts, now[a] as int, i as int, now[b] as int);
                } else if a == p {
                } else {
                }
            }
        }
        i = i + 1;
    }
    proof {
        assert forall|a: int, b: int| 0 <= a < out@.len() && 0 <= b < out@.len() && a != b implies #[trigger] out@[a] != #[trigger] out@[b] by {
            if a < b {
                lemma_newer_first_irreflexive(ts, out@[a] as int);
            } else {
                lemma_newer_first_irreflexive(ts, out@[b] as int);
            }
        }
    }
    let mut k: usize = 0;
    while k < out.len() && !ironman_exec(&files[out[k]])
        invariant
            k <= out@.len(),
            out@.len() == n,
            n == files@.len(),
            forall|a: int| 0 <= a < out@.len() ==> (#[trigger] out@[a]) < n,
            forall|a: int| 0 <= a < k ==> !is_ironman(files@[#[trigger] out@[a] as int]),
        decreases out@.len() - k,
    {
        k = k + 1;
    }
    if k < out.len() {
        let ghost s = out@;
        let v = out.remove(k);
        out.insert(0, v);
        proof {
            let now = out@;
            assert(now =~= seq![s[k as int]] + s.remove(k as int));
            assert forall|a: int, b: int| 1 <= a < b < now.len() implies newer_first(ts, #[trigger] now[a] as int, #[trigger] now[b] as int) by {
                let sa = if a - 1 < k { a - 1 } else { a };
                let sb = if b - 1 < k { b - 1 } else { b };
                assert(now[a] == s[sa]);
                assert(now[b] == s[sb]);
            }
            assert forall|b: int| 1 <= b < now.len() && is_ironman(#[trigger] files@[now[b] as int]) implies newer_first(ts, now[0] as int, now[b] as int) by {
                let sb = if b - 1 < k { b - 1 } else { b };
                assert(now[b] == s[sb]);
                if sb < k {
                    assert(!is_ironman(files@[s[sb] as int]));
                }
            }
            assert forall|a: int, b: int| 0 <= a < now.len() && 0 <= b < now.len() && a != b implies #[trigger] now[a] != #[trigger] now[b] by {
                let sa = if a == 0 { k as int } else if a - 1 < k { a - 1 } else { a };
                let sb = if b == 0 { k as int } else if b - 1 < k { b - 1 } else { b };
                assert(now[a] == s[sa]);
                assert(now[b] == s[sb]);
            }
            assert(exists|j: int| 0 <= j < files@.len() && is_ironman(#[trigger] files@[j])) by {
                assert(is_ironman(files@[s[k as int] as int]));
            }
        }
    } else {
        proof {
            assert forall|j: int| 0 <= j < files@.len() implies !is_ironman(#[trigger] files@[j]) by {
                assert(forall|a: int, b: int| 0 <= a < out@.len() && 0 <= b < out@.len() && a != b ==> #[trigger] out@[a] != #[trigger] out@[b]);
                lemma_index_listed(out@, n, j);
            }
        }
    }
    out
}

/// `o` holds `n` distinct indices below `n`, so it lists every one of them.
proof fn lemma_index_listed(o: Seq<usize>, n: usize, j: int)
    requires
        o.len() == n,
        0 <= j < n,
        forall|a: int| 0 <= a < o.len() ==> (#[trigger] o[a]) < n,
        forall|a: int, b: int| 0 <= a < o.len() && 0 <= b < o.len() && a != b ==> #[trigger] o[a] != #[trigger] o[b],
    ensures
        exists|a: int| 0 <= a < o.len() && o[a] == j,
{
    let s = o.to_set();
    assert(o.no_duplicates());
    o.unique_seq_to_set();
    let full = Set::new(|x: usize| x < n);
    lemma_full_range_len(n);
    assert(s.subset_of(full));
    if !s.contains(j as usize) {
        vstd::seq_lib::seq_to_set_is_finite(o);
        vstd::set_lib::lemma_len_subset(s.insert(j as usize), full);
    }
}

proof fn lemma_full_range_len(n: usize)
    ensures
        Set::new(|x: usize| x < n).finite(),
        Set::new(|x: usize| x < n).len() == n,
    decreases n,
{
    if n == 0 {
        assert(Set::new(|x: usize| x < n) =~= Set::<usize>::empty());
    } else {
        lemma_full_range_len((n - 1) as usize);
        assert(Set::new(|x: usize| x < n) =~= Set::new(|x: usize| x < (n - 1) as usize).insert((n - 1) as usize));
    }
}

fn newer_first_exec(files: &[SaveStamp], i: usize, j: usize) -> (r: bool)
    requires
        i < files@.len(),
        j < files@.len(),
    ensures
        r == newer_first(stamps_times(files@), i as int, j as int),
{
    let a = files[i].modified;
    let b = files[j].modified;
    let eq = match (a, b) {
        (None, None) => true,
        (Some(x), Some(y)) => x == y,
        _ => false,
    };
    let b_lt_a = match (b, a) {
        (None, Some(_)) => true,
        (Some(x), Some(y)) => x < y,
        _ => false,
    };
    b_lt_a || (eq && i > j)
}

fn ironman_exec(f: &SaveStamp) -> (r: bool)
    ensures
        r == is_ironman(*f),
{
    match &f.file_name {
        Some(n) => str_eq(n.as_str(), "ironman.sav"),
        None => false,
    }
}


// ── String lists of `dlc_load.json` ─────────────────────────────────────

/// An element of a JSON array as a string list reads it.
#[derive(Debug)]
pub enum ListItem {
    /// A JSON string.
    Text(String),
    /// A JSON object, by its entries.
    Object(Vec<(String, FactValue)>),
    /// Any other JSON value, by its compact JSON text.
    Other(String),
}

/// A JSON value read as a string list.
#[derive(Debug)]
pub enum ListSource {
    Array(Vec<ListItem>),
    /// A JSON object, by its entries in the order of its keys.
    Object(Vec<(String, FactValue)>),
    Other,
}

/// The value of the first entry keyed `k`.
pub open spec fn entry_field(es: Seq<(Seq<char>, SFact)>, k: Seq<char>) -> Option<SFact>
    decreases es.len(),
{
    if es.len() == 0 {
        None
    } else if es[0].0 == k {
        Some(es[0].1)
    } else {
        entry_field(es.drop_first(), k)
    }
}

/// The text an object in a list stands for: its `path`, else its `name`,
/// else its `id`, the first of them that is present; empty unless that one
/// is a string.
pub open spec fn object_text(es: Seq<(Seq<char>, SFact)>) -> Seq<char> {
    let f = match entry_field(es, "path"@) {
        Some(v) => Some(v),
        None => match entry_field(es, "name"@) {
            Some(v) => Some(v),
            None => entry_field(es, "id"@),
        },
    };
    match f {
        Some(SFact::Text(s)) => s,
        _ => Seq::empty(),
    }
}

/// The text a list element stands for.
pub open spec fn item_text(i: ListItem) -> Seq<char> {
    match i {
        ListItem::Text(s) => s@,
        ListItem::Object(es) => object_text(entries_view(es@)),
        ListItem::Other(j) => j@,
    }
}

/// The non-empty texts of the elements, in order.
pub open spec fn item_texts(items: Seq<ListItem>) -> Seq<Seq<char>>
    decreases items.len(),
{
    if items.len() == 0 {
        Seq::empty()
    } else {
        let rest = item_texts(items.drop_last());
        let t = item_text(items.last());
        if t.len() > 0 {
            rest.push(t)
        } else {
            rest
        }
    }
}

/// The string values of an object, in the order of its keys.
pub open spec fn string_values(es: Seq<(Seq<char>, SFact)>) -> Seq<Seq<char>>
    decreases es.len(),
{
    if es.len() == 0 {
        Seq::empty()
    } else {
        let rest = string_values(es.drop_last());
        match es.last().1 {
            SFact::Text(s) => rest.push(s),
            _ => rest,
        }
    }
}

/// The strings a JSON value lists: the texts of an array's elements, the
/// string values of an object, nothing for anything else.
pub open spec fn spec_string_list(v: ListSource) -> Seq<Seq<char>> {
    match v {
        ListSource::Array(items) => item_texts(items@),
        ListSource::Object(es) => string_values(entries_view(es@)),
        ListSource::Other => Seq::empty(),
    }
}

fn entry_field_exec<'a>(es: &'a Vec<(String, FactValue)>, k: &str) -> (r: Option<&'a FactValue>)
    ensures
        opt_fact_view(match r {
            Some(v) => Some(*v),
            None => None,
        }) == entry_field(entries_view(es@), k@),
{
    let ghost ev = entries_view(es@);
    proof {
        lemma_entries_view(es@);
        assert(ev.skip(0) =~= ev);
    }
    let mut i: usize = 0;
    while i < es.len()
        invariant
            i <= es@.len(),
            ev == entries_view(es@),
            ev.len() == es@.len(),
            forall|j: int| 0 <= j < es@.len() ==> #[trigger] ev[j] == (es@[j].0@, fact_view(es@[j].1)),
            entry_field(ev, k@) == entry_field(ev.skip(i as int), k@),
        decreases es@.len() - i,
    {
        proof {
            assert(ev.skip(i as int)[0] == ev[i as int]);
            assert(ev.skip(i as int).drop_first() =~= ev.skip(i + 1));
        }
        if str_eq(es[i].0.as_str(), k) {
            return Some(&es[i].1);
        }
        i = i + 1;
    }
    None
}

fn object_text_exec(es: &Vec<(String, FactValue)>) -> (r: String)
    ensures
        r@ == object_text(entries_view(es@)),
{
    let f = match entry_field_exec(es, "path") {
        Some(v) => Some(v),
        None => match entry_field_exec(es, "name") {
            Some(v) => Some(v),
            None => entry_field_exec(es, "id"),
        },
    };
    match f {
        Some(FactValue::Text(s)) => s.clone(),
        _ => {
            proof {
                reveal_strlit("");
            }
            String::from_str("")
        },
    }
}

fn item_text_exec(i: &ListItem) -> (r: String)
    ensures
        r@ == item_text(*i),
{
    match i {
        ListItem::Text(s) => s.clone(),
        ListItem::Object(es) => object_text_exec(es),
        ListItem::Other(j) => j.clone(),
    }
}

/// The strings a JSON value of `dlc_load.json` lists (see
/// [`spec_string_list`]).
pub fn normalize_string_list(value: &ListSource) -> (r: Vec<String>)
    ensures
        views(r@) == spec_string_list(*value),
{
    let mut out: Vec<String> = Vec::new();
    match value {
        ListSource::Array(items) => {
            let mut i: usize = 0;
            while i < items.len()
                invariant
                    i <= items@.len(),
                    views(out@) == item_texts(items@.take(i as int)),
                decreases items@.len() - i,
            {
                proof {
                    assert(items@.take(i + 1).drop_last() =~= items@.take(i as int));
                    assert(items@.take(i + 1).last() == items@[i as int]);
                }
                let t = item_text_exec(&items[i]);
                if chars_of(t.as_str()).len() > 0 {
                    let ghost before = views(out@);
                    out.push(t);
                    proof {
                        assert(views(out@) =~= before.push(item_text(items@[i as int])));
                    }
                }
                i = i + 1;
            }
            proof {
                assert(items@.take(i as int) =~= items@);
            }
        },
        ListSource::Object(es) => {
            let ghost ev = entries_view(es@);
            proof {
                lemma_entries_view(es@);
            }
            let mut i: usize = 0;
            while i < es.len()
                invariant
                    i <= es@.len(),
                    ev == entries_view(es@),
                    ev.len() == es@.len(),
                    forall|j: int| 0 <= j < es@.len() ==> #[trigger] ev[j] == (es@[j].0@, fact_view(es@[j].1)),
                    views(out@) == string_values(ev.take(i as int)),
                decreases es@.len() - i,
            {
                proof {
                    assert(ev.take(i + 1).drop_last() =~= ev.take(i as int));
                    assert(ev.take(i + 1).last() == ev[i as int]);
                }
                if let FactValue::Text(s) = &es[i].1 {
                    let ghost before = views(out@);
                    out.push(s.clone());
                    proof {
                        assert(views(out@) =~= before.push(s@));
                    }
                }
                i = i + 1;
            }
            proof {
                assert(ev.take(i as int) =~= ev);
            }
        },
        ListSource::Other => {
            proof {
                assert(views(out@) =~= Seq::<Seq<char>>::empty());
            }
        },
    }
    out
}


// ── Runs ────────────────────────────────────────────────────────────────

/// The positions in `folders` that name `key`, in order.
pub open spec fn indices_in(folders: Seq<Seq<char>>, key: Seq<char>) -> Seq<usize>
    decreases folders.len(),
{
    if folders.len() == 0 {
        Seq::empty()
    } else {
        let rest = indices_in(folders.drop_last(), key);
        if folders.last() == key {
            rest.push((folders.len() - 1) as usize)
        } else {
            rest
        }
    }
}

pub open spec fn groups_view(gs: Seq<(String, Vec<usize>)>) -> Seq<(Seq<char>, Seq<usize>)> {
    gs.map_values(|g: (String, Vec<usize>)| (g.0@, g.1@))
}

pub open spec fn group_keys(gs: Seq<(Seq<char>, Seq<usize>)>) -> Seq<Seq<char>> {
    gs.map_values(|g: (Seq<char>, Seq<usize>)| g.0)
}

/// `gs` groups the saves by the run folder each lies in: one group per
/// folder, in the order of the folders' names, each with the positions of
/// its saves in the order they were listed.
pub open spec fn run_groups(folders: Seq<Seq<char>>, gs: Seq<(Seq<char>, Seq<usize>)>) -> bool {
    &&& strictly_sorted(group_keys(gs))
    &&& forall|k: int| 0 <= k < folders.len() ==> exists|g: int| 0 <= g < gs.len() && (#[trigger] gs[g]).0 == #[trigger] folders[k]
    &&& forall|g: int| 0 <= g < gs.len() ==> (#[trigger] gs[g]).1 == indices_in(folders, gs[g].0) && gs[g].1.len() > 0
}

proof fn lemma_indices_in_step(folders: Seq<Seq<char>>, i: int, key: Seq<char>)
    requires
        0 <= i < folders.len(),
    ensures
        indices_in(folders.take(i + 1), key) == if folders[i] == key {
            indices_in(folders.take(i), key).push(i as usize)
        } else {
            indices_in(folders.take(i), key)
        },
{
    assert(folders.take(i + 1).drop_last() =~= folders.take(i));
}

proof fn lemma_indices_in_absent(folders: Seq<Seq<char>>, key: Seq<char>)
    requires
        forall|k: int| 0 <= k < folders.len() ==> folders[k] != key,
    ensures
        indices_in(folders, key) == Seq::<usize>::empty(),
    decreases folders.len(),
{
    if folders.len() > 0 {
        lemma_indices_in_absent(folders.drop_last(), key);
    }
}

/// The saves of each run: the run folders of the listed saves, grouped
/// (see [`run_groups`]).
pub fn group_saves_by_run(folders: &[String]) -> (r: Vec<(String, Vec<usize>)>)
    ensures
        run_groups(views(folders@), groups_view(r@)),
{
    let ghost fv = views(folders@);
    let mut out: Vec<(String, Vec<usize>)> = Vec::new();
    let mut i: usize = 0;
    proof {
        assert(fv.take(0) =~= Seq::<Seq<char>>::empty());
        assert(group_keys(groups_view(out@)) =~= Seq::<Seq<char>>::empty());
    }
    while i < folders.len()
        invariant
            i <= folders@.len(),
            fv == views(folders@),
            fv.len() == folders@.len(),
            run_groups(fv.take(i as int), groups_view(out@)),
        decreases folders@.len() - i,
    {
        let f = &folders[i];
        let ghost gv = groups_view(out@);
        let ghost keys = group_keys(gv);
        proof {
            assert(fv[i as int] == f@);
        }
        let mut p: usize = 0;
        while p < out.len() && str_lt(out[p].0.as_str(), f.as_str())
            invariant
                p <= out@.len(),
                gv == groups_view(out@),
                keys == group_keys(gv),
                forall|a: int| 0 <= a < p ==> lex_lt(#[trigger] keys[a], f@),
            decreases out@.len() - p,
        {
            assert(keys[p as int] == out@[p as int].0@);
            p = p + 1;
        }
        let ghost before_take = fv.take(i as int);
        let ghost after_take = fv.take(i + 1);
        proof {
            assert(after_take.drop_last() =~= before_take);
            assert(after_take.last() == f@);
        }
        if p < out.len() && str_eq(out[p].0.as_str(), f.as_str()) {
            let (k, mut v) = out.remove(p);
            v.push(i);
            out.insert(p, (k, v));
            proof {
                let nv = groups_view(out@);
                assert(nv =~= gv.update(p as int, (gv[p as int].0, gv[p as int].1.push(i))));
                assert(group_keys(nv) =~= keys);
                assert forall|g: int| 0 <= g < nv.len() implies (#[trigger] nv[g]).1 == indices_in(after_take, nv[g].0) && nv[g].1.len() > 0 by {
                    lemma_indices_in_step(fv, i as int, nv[g].0);
                    assert(fv.take(i as int) =~= before_take);
                    if g != p {
                        assert(nv[g] == gv[g]);
                        lemma_lex_irreflexive(f@);
                        if nv[g].0 == f@ {
                            assert(strictly_sorted(keys));
                            assert(keys[g] == keys[p as int]);
                            if g < p {
                                lemma_lex_irreflexive(keys[g]);
                            } else {
                                lemma_lex_irreflexive(keys[p as int]);
                            }
                        }
                    }
                }
                assert forall|k: int| 0 <= k < after_take.len() implies exists|g: int| 0 <= g < nv.len() && (#[trigger] nv[g]).0 == #[trigger] after_take[k] by {
                    if k < i {
                        assert(after_take[k] == before_take[k]);
                        let g = choose|g: int| 0 <= g < gv.len() && (#[trigger] gv[g]).0 == #[trigger] before_take[k];
                        assert(nv[g].0 == gv[g].0);
                    } else {
                        assert(nv[p as int].0 == f@);
                    }
                }
            }
        } else {
            proof {
                if p < keys.len() {
                    lemma_lex_total(keys[p as int], f@);
                    assert(keys[p as int] == out@[p as int].0@);
                    assert(lex_lt(f@, keys[p as int]));
                }
                assert forall|g: int| 0 <= g < keys.len() implies #[trigger] keys[g] != f@ by {
                    if g < p {
                        lemma_lex_irreflexive(f@);
                    } else {
                        lemma_lex_irreflexive(f@);
                        if g > p {
                            lemma_lex_transitive(f@, keys[p as int], keys[g]);
                        }
                    }
                }
                assert forall|k: int| 0 <= k < before_take.len() implies before_take[k] != f@ by {
                    let g = choose|g: int| 0 <= g < gv.len() && (#[trigger] gv[g]).0 == #[trigger] before_take[k];
                    assert(keys[g] == gv[g].0);
                }
                lemma_indices_in_absent(before_take, f@);
                lemma_indices_in_step(fv, i as int, f@);
                assert(fv.take(i as int) =~= before_take);
            }
            let mut v: Vec<usize> = Vec::new();
            v.push(i);
            out.insert(p, (f.clone(), v));
            proof {
                let nv = groups_view(out@);
                assert(nv =~= gv.insert(p as int, (f@, seq![i])));
                let nk = group_keys(nv);
                assert(nk =~= keys.insert(p as int, f@));
                assert forall|a: int, b: int| 0 <= a < b < nk.len() implies lex_lt(#[trigger] nk[a], #[trigger] nk[b]) by {
                    if b < p {
                    } else if b == p {
                    } else if a < p {
                        if p < keys.len() {
                            lemma_lex_transitive(nk[a], f@, keys[p as int]);
                            if b - 1 > p {
                                lemma_lex_transitive(nk[a], keys[p as int], nk[b]);
                            }
                        }
                    } else if a == p {
                        if b - 1 > p {
                            lemma_lex_transitive(f@, keys[p as int], nk[b]);
                        }
                    } else {
                    }
                }
                assert forall|g: int| 0 <= g < nv.len() implies (#[trigger] nv[g]).1 == indices_in(after_take, nv[g].0) && nv[g].1.len() > 0 by {
                    lemma_indices_in_step(fv, i as int, nv[g].0);
                    if g != p {
                        let og = if g < p { g } else { g - 1 };
                        assert(nv[g] == gv[og]);
                        assert(keys[og] == gv[og].0);
                    } else {
                        assert(seq![i] =~= Seq::<usize>::empty().push(i));
                    }
                }
                assert forall|k: int| 0 <= k < after_take.len() implies exists|g: int| 0 <= g < nv.len() && (#[trigger] nv[g]).0 == #[trigger] after_take[k] by {
                    if k < i {
                        assert(after_take[k] == before_take[k]);
                        let g = choose|g: int| 0 <= g < gv.len() && (#[trigger] gv[g]).0 == #[trigger] before_take[k];
                        let ng = if g < p { g } else { g + 1 };
                        assert(nv[ng] == gv[g]);
                    } else {
                        assert(nv[p as int].0 == f@);
                    }
                }
            }
        }
        i = i + 1;
    }
    proof {
        assert(fv.take(i as int) =~= fv);
    }
    out
}


// ── Launcher playset ────────────────────────────────────────────────────

/// A row of the launcher's list of playset mods, as the reading looks at
/// it: its `enabled` column, the playset it belongs to, the mod's id and
/// its position.
#[derive(Debug, Default)]
pub struct PlaysetModRow {
    pub enabled: Option<i64>,
    pub playset_key: Option<String>,
    pub mod_id: Option<String>,
    pub position: Option<i64>,
}

/// A mod summary as values.
pub open spec fn mod_view(m: LauncherModSummary) -> (Option<i64>, Option<Seq<char>>, Option<Seq<char>>, Option<Seq<char>>, Option<Seq<char>>) {
    (m.position, opt_str_view(m.id), opt_str_view(m.name), opt_str_view(m.registry_id), opt_str_view(m.path))
}

/// The last mod of the catalog with the id `id`.
pub open spec fn catalog_lookup(cat: Seq<LauncherModSummary>, id: Seq<char>) -> Option<LauncherModSummary>
    decreases cat.len(),
{
    if cat.len() == 0 {
        None
    } else if opt_str_view(cat.last().id) == Some(id) {
        Some(cat.last())
    } else {
        catalog_lookup(cat.drop_last(), id)
    }
}

/// The row is enabled and belongs to the active playset: rows marked
/// disabled, and rows of another playset than the active one (when both
/// are known), are left out.
pub open spec fn row_kept(r: PlaysetModRow, active_uuid: Option<Seq<char>>) -> bool {
    &&& r.enabled != Some(0i64)
    &&& !(active_uuid matches Some(u) && (r.playset_key matches Some(k) && u != k@))
}

/// The summary of a kept row: the catalog's entry for its mod (or an empty
/// one) at the row's position, with the row's mod id where the entry has
/// none.
pub open spec fn row_summary(r: PlaysetModRow, cat: Seq<LauncherModSummary>) -> (Option<i64>, Option<Seq<char>>, Option<Seq<char>>, Option<Seq<char>>, Option<Seq<char>>) {
    let found = match opt_str_view(r.mod_id) {
        Some(id) => catalog_lookup(cat, id),
        None => None,
    };
    match found {
        Some(m) => (
            r.position,
            if m.id is None { opt_str_view(r.mod_id) } else { opt_str_view(m.id) },
            opt_str_view(m.name),
            opt_str_view(m.registry_id),
            opt_str_view(m.path),
        ),
        None => (r.position, opt_str_view(r.mod_id), None, None, None),
    }
}

/// The summaries of the kept rows, in order.
pub open spec fn enabled_mods_of(
    rows: Seq<PlaysetModRow>,
    active_uuid: Option<Seq<char>>,
    cat: Seq<LauncherModSummary>,
) -> Seq<(Option<i64>, Option<Seq<char>>, Option<Seq<char>>, Option<Seq<char>>, Option<Seq<char>>)>
    decreases rows.len(),
{
    if rows.len() == 0 {
        Seq::empty()
    } else {
        let rest = enabled_mods_of(rows.drop_last(), active_uuid, cat);
        if row_kept(rows.last(), active_uuid) {
            rest.push(row_summary(rows.last(), cat))
        } else {
            rest
        }
    }
}

fn copy_opt(o: &Option<String>) -> (r: Option<String>)
    ensures
        opt_str_view(r) == opt_str_view(*o),
{
    match o {
        Some(s) => Some(s.clone()),
        None => None,
    }
}

fn catalog_lookup_exec<'a>(cat: &'a [LauncherModSummary], id: &str) -> (r: Option<&'a LauncherModSummary>)
    ensures
        match r {
            Some(m) => catalog_lookup(cat@, id@) == Some(*m),
            None => catalog_lookup(cat@, id@) is None,
        },
{
    let mut i: usize = cat.len();
    proof {
        assert(cat@.take(i as int) =~= cat@);
    }
    while i > 0
        invariant
            i <= cat@.len(),
            catalog_lookup(cat@, id@) == catalog_lookup(cat@.take(i as int), id@),
        decreases i,
    {
        proof {
            assert(cat@.take(i as int).drop_last() =~= cat@.take(i - 1));
            assert(cat@.take(i as int).last() == cat@[i - 1]);
        }
        let m = &cat[i - 1];
        let hit = match &m.id {
            Some(x) => str_eq(x.as_str(), id),
            None => false,
        };
        if hit {
            return Some(m);
        }
        i = i - 1;
    }
    None
}

fn row_summary_exec(r: &PlaysetModRow, cat: &[LauncherModSummary]) -> (m: LauncherModSummary)
    ensures
        mod_view(m) == row_summary(*r, cat@),
{
    let found = match &r.mod_id {
        Some(id) => catalog_lookup_exec(cat, id.as_str()),
        None => None,
    };
    match found {
        Some(m) => LauncherModSummary {
            position: r.position,
            id: if m.id.is_none() { copy_opt(&r.mod_id) } else { copy_opt(&m.id) },
            name: copy_opt(&m.name),
            registry_id: copy_opt(&m.registry_id),
            path: copy_opt(&m.path),
        },
        None => LauncherModSummary { position: r.position, id: copy_opt(&r.mod_id), name: None, registry_id: None, path: None },
    }
}

/// The mods enabled in the active playset, from the launcher's playset
/// rows in position order and its catalog of mods (see
/// [`enabled_mods_of`]).
pub fn enabled_mods_from_rows(
    rows: &[PlaysetModRow],
    active_playset_uuid: Option<&str>,
    mod_catalog: &[LauncherModSummary],
) -> (r: Vec<LauncherModSummary>)
    ensures
        r@.map_values(|m: LauncherModSummary| mod_view(m)) == enabled_mods_of(
            rows@,
            match active_playset_uuid {
                Some(u) => Some(u@),
                None => None,
            },
            mod_catalog@,
        ),
{
    let ghost au = match active_playset_uuid {
        Some(u) => Some(u@),
        None => None,
    };
    let mut out: Vec<LauncherModSummary> = Vec::new();
    let mut i: usize = 0;
    proof {
        assert(rows@.take(0) =~= Seq::<PlaysetModRow>::empty());
        assert(out@.map_values(|m: LauncherModSummary| mod_view(m)) =~= enabled_mods_of(rows@.take(0), au, mod_catalog@));
    }
    while i < rows.len()
        invariant
            i <= rows@.len(),
            au == match active_playset_uuid {
                Some(u) => Some(u@),
                None => None::<Seq<char>>,
            },
            out@.map_values(|m: LauncherModSummary| mod_view(m)) == enabled_mods_of(rows@.take(i as int), au, mod_catalog@),
        decreases rows@.len() - i,
    {
        proof {
            assert(rows@.take(i + 1).drop_last() =~= rows@.take(i as int));
            assert(rows@.take(i + 1).last() == rows@[i as int]);
        }
        let r = &rows[i];
        let disabled = match r.enabled {
            Some(e) => e == 0,
            None => false,
        };
        let other_playset = match (active_playset_uuid, &r.playset_key) {
            (Some(u), Some(k)) => !str_eq(u, k.as_str()),
            _ => false,
        };
        if !disabled && !other_playset {
            let ghost before = out@.map_values(|m: LauncherModSummary| mod_view(m));
            let m = row_summary_exec(r, mod_catalog);
            out.push(m);
            proof {
                assert(out@.map_values(|m: LauncherModSummary| mod_view(m)) =~= before.push(row_summary(*r, mod_catalog@)));
            }
        }
        i = i + 1;
    }
    proof {
        assert(rows@.take(i as int) =~= rows@);
    }
    out
}

} // verus!
