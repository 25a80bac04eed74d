//! DLC identifiers: normalising the names that `dlc_load.json`, the launcher
//! and saves use, so that they can be matched against each other.
use vstd::prelude::*;
use crate::clausewitz::{dedupe, opt_str_view};
use crate::gather::push_unique;
use crate::order::{insert_sorted_unique, strictly_sorted};
use crate::text::{chars_of, ends_with_seq, starts_with_seq, str_eq, string_of, views};

verus! {

/// Unicode lower case of a string (`str::to_lowercase`).
pub uninterp spec fn lowercase(s: Seq<char>) -> Seq<char>;

/// `str::to_lowercase`: the lower case mapping of every character, as Unicode
/// defines it. The contract names the result and claims nothing else.
#[verifier::external_body]
fn to_lowercase(s: &str) -> (r: String)
    ensures
        r@ == lowercase(s@),
{
    s.to_lowercase()
}

/// A path separator of either platform.
pub open spec fn is_sep(c: char) -> bool {
    c == '/' || c == '\\'
}

/// The index of the first separator at or after `i` (or the length).
pub open spec fn sep_from(s: Seq<char>, i: int) -> int
    decreases s.len() - i,
{
    if i < s.len() && !is_sep(s[i]) {
        sep_from(s, i + 1)
    } else {
        i
    }
}

/// The text before the first separator.
pub open spec fn first_segment(s: Seq<char>) -> Seq<char> {
    s.take(sep_from(s, 0))
}

/// Drops a leading `dlc/` or `dlc\`.
pub open spec fn strip_dlc_dir(s: Seq<char>) -> Seq<char> {
    if starts_with_seq(s, "dlc/"@) {
        s.skip("dlc/"@.len() as int)
    } else if starts_with_seq(s, "dlc\\"@) {
        s.skip("dlc\\"@.len() as int)
    } else {
        s
    }
}

/// Drops a trailing `.dlc`.
pub open spec fn strip_dlc_ext(s: Seq<char>) -> Seq<char> {
    if ends_with_seq(s, ".dlc"@) {
        s.take(s.len() - ".dlc"@.len())
    } else {
        s
    }
}

/// The canonical form of a DLC identifier: lower case, without a leading
/// `dlc/` directory or a trailing `.dlc`, cut at the first separator left.
pub open spec fn spec_normalize_dlc_id(raw: Seq<char>) -> Seq<char> {
    first_segment(strip_dlc_ext(strip_dlc_dir(lowercase(raw))))
}

proof fn lemma_sep_from(s: Seq<char>, i: int)
    requires
        0 <= i <= s.len(),
    ensures
        i <= sep_from(s, i) <= s.len(),
        sep_from(s, i) < s.len() ==> is_sep(s[sep_from(s, i)]),
        forall|k: int| i <= k < sep_from(s, i) ==> !is_sep(#[trigger] s[k]),
    decreases s.len() - i,
{
    if i < s.len() && !is_sep(s[i]) {
        lemma_sep_from(s, i + 1);
    }
}

fn chars_starts_with(s: &Vec<char>, p: &str) -> (r: bool)
    ensures
        r == starts_with_seq(s@, p@),
{
    let pc = chars_of(p);
    if pc.len() > s.len() {
        return false;
    }
    let r = crate::text::matches_at(s.as_slice(), pc.as_slice(), 0);
    assert(s@.subrange(0, pc@.len() as int) =~= s@.take(pc@.len() as int));
    r
}

/// Normalises a raw DLC identifier from `dlc_load.json`, the launcher or a
/// save: `dlc/dlc014_leviathans.dlc` becomes `dlc014_leviathans`.
pub fn normalize_dlc_id(raw: &str) -> (r: String)
    ensures
        r@ == spec_normalize_dlc_id(raw@),
{
    let lower = to_lowercase(raw);
    normalize_lowered_dlc_id(lower.as_str())
}

/// The DLC id of an already lower-cased path or key: the `dlc/` folder and
/// the `.dlc` extension dropped, then the text up to the first separator.
pub fn normalize_lowered_dlc_id(lower: &str) -> (r: String)
    ensures
        r@ == first_segment(strip_dlc_ext(strip_dlc_dir(lower@))),
{
    let lc = chars_of(lower);
    let ghost l = lc@;
    let start: usize = if chars_starts_with(&lc, "dlc/") || chars_starts_with(&lc, "dlc\\") {
        proof {
            reveal_strlit("dlc/");
            reveal_strlit("dlc\\");
        }
        4
    } else {
        0
    };
    let s1 = crate::text::slice_chars(lc.as_slice(), start, lc.len());
    proof {
        reveal_strlit("dlc/");
        reveal_strlit("dlc\\");
        assert(s1@ =~= strip_dlc_dir(l));
    }
    let ext = chars_of(".dlc");
    let end: usize = if crate::text::chars_ends_with(s1.as_slice(), ext.as_slice()) {
        s1.len() - ext.len()
    } else {
        s1.len()
    };
    let s2 = crate::text::slice_chars(s1.as_slice(), 0, end);
    proof {
        assert(s2@ =~= strip_dlc_ext(s1@));
    }
    let mut k: usize = 0;
    while k < s2.len() && s2[k] != '/' && s2[k] != '\\'
        invariant
            k <= s2@.len(),
            sep_from(s2@, 0) == sep_from(s2@, k as int),
        decreases s2@.len() - k,
    {
        k = k + 1;
    }
    proof {
        lemma_sep_from(s2@, 0);
    }
    let s3 = crate::text::slice_chars(s2.as_slice(), 0, k);
    proof {
        assert(s3@ =~= first_segment(s2@));
    }
    string_of(s3.as_slice())
}

/// A space becomes an underscore.
pub open spec fn space_to_underscore(c: char) -> char {
    if c == ' ' {
        '_'
    } else {
        c
    }
}

/// The text with spaces turned into underscores.
pub open spec fn spaces_underscored(s: Seq<char>) -> Seq<char> {
    s.map_values(|c: char| space_to_underscore(c))
}

/// The readable name with spaces turned into underscores, lower cased.
pub open spec fn underscored(raw: Seq<char>) -> Seq<char> {
    spaces_underscored(lowercase(raw))
}

/// Drops the first of `_story_pack`, `_species_pack`, `_expansion` that the
/// name ends with.
pub open spec fn spec_normalize_readable_dlc_name(raw: Seq<char>) -> Seq<char> {
    readable_key(lowercase(raw))
}

/// The key of a lower-cased readable name: spaces as underscores, then the
/// first of `_story_pack`, `_species_pack`, `_expansion` that it ends with
/// dropped.
pub open spec fn readable_key(lower: Seq<char>) -> Seq<char> {
    let s = spaces_underscored(lower);
    if ends_with_seq(s, "_story_pack"@) {
        s.take(s.len() - "_story_pack"@.len())
    } else if ends_with_seq(s, "_species_pack"@) {
        s.take(s.len() - "_species_pack"@.len())
    } else if ends_with_seq(s, "_expansion"@) {
        s.take(s.len() - "_expansion"@.len())
    } else {
        s
    }
}

/// Turns a readable DLC name from a save, such as `Ancient Relics Story
/// Pack`, into an underscore key such as `ancient_relics`.
pub fn normalize_readable_dlc_name(raw: &str) -> (r: String)
    ensures
        r@ == spec_normalize_readable_dlc_name(raw@),
{
    let lower = to_lowercase(raw);
    readable_key_of_lowered(lower.as_str())
}

/// The key of an already lower-cased readable DLC name (see
/// [`readable_key`]).
pub fn readable_key_of_lowered(lower: &str) -> (r: String)
    ensures
        r@ == readable_key(lower@),
{
    let lc = chars_of(lower);
    let mut s: Vec<char> = Vec::new();
    let mut i: usize = 0;
    while i < lc.len()
        invariant
            i <= lc@.len(),
            lc@ == lower@,
            s@ == lc@.take(i as int).map_values(|c: char| space_to_underscore(c)),
        decreases lc@.len() - i,
    {
        let c = lc[i];
        s.push(if c == ' ' { '_' } else { c });
        proof {
            assert(lc@.take(i + 1).map_values(|c: char| space_to_underscore(c)) =~= lc@.take(
                i as int,
            ).map_values(|c: char| space_to_underscore(c)).push(space_to_underscore(c)));
        }
        i = i + 1;
    }
    proof {
        assert(lc@.take(i as int) =~= lc@);
    }
    let suffixes = ["_story_pack", "_species_pack", "_expansion"];
    let mut j: usize = 0;
    while j < suffixes.len()
        invariant
            j <= 3,
            suffixes@ == seq!["_story_pack", "_species_pack", "_expansion"],
            s@ == spaces_underscored(lower@),
            forall|k: int| 0 <= k < j ==> !ends_with_seq(s@, (#[trigger] suffixes@[k])@),
        decreases 3 - j,
    {
        let suffix = chars_of(suffixes[j]);
        if crate::text::chars_ends_with(s.as_slice(), suffix.as_slice()) {
            let cut = crate::text::slice_chars(s.as_slice(), 0, s.len() - suffix.len());
            return string_of(cut.as_slice());
        }
        j = j + 1;
    }
    string_of(s.as_slice())
}

// ── Classifying dlc_load.json ───────────────────────────────────────────

/// The index just past the last separator before `i` (or 0).
pub open spec fn last_sep_end(s: Seq<char>, i: int) -> int
    decreases i,
{
    if i <= 0 {
        0
    } else if is_sep(s[i - 1]) {
        i
    } else {
        last_sep_end(s, i - 1)
    }
}

/// The text after the last separator.
pub open spec fn last_segment(s: Seq<char>) -> Seq<char> {
    s.skip(last_sep_end(s, s.len() as int))
}

/// An `enabled_mods` entry names a DLC: its file name ends with `.dlc`,
/// ignoring case.
pub open spec fn names_dlc_file(entry: Seq<char>) -> bool {
    ends_with_seq(lowercase(last_segment(entry)), ".dlc"@)
}

/// The normalised DLC entries of `enabled_mods`, in order, repeats kept.
pub open spec fn dlc_entries(entries: Seq<Seq<char>>) -> Seq<Seq<char>>
    decreases entries.len(),
{
    if entries.len() == 0 {
        Seq::empty()
    } else if names_dlc_file(entries.last()) {
        dlc_entries(entries.drop_last()).push(spec_normalize_dlc_id(entries.last()))
    } else {
        dlc_entries(entries.drop_last())
    }
}

/// Every entry normalised.
pub open spec fn normalized_all(entries: Seq<Seq<char>>) -> Seq<Seq<char>> {
    entries.map_values(|e: Seq<char>| spec_normalize_dlc_id(e))
}

/// The DLCs a `dlc_load.json` names: enabled ones found among the enabled
/// mods by their `.dlc` file, disabled ones as listed, each normalised.
#[derive(Debug, Default)]
pub struct DlcState {
    /// Normalised DLC ids among the enabled mods, without repeats.
    pub enabled_dlcs: Vec<String>,
    /// Normalised ids of the disabled DLCs, without repeats.
    pub disabled_dlcs: Vec<String>,
}

fn last_segment_of(entry: &str) -> (r: String)
    ensures
        r@ == last_segment(entry@),
{
    let ec = chars_of(entry);
    let ghost e = ec@;
    let mut i: usize = ec.len();
    while i > 0 && ec[i - 1] != '/' && ec[i - 1] != '\\'
        invariant
            i <= ec@.len(),
            e == ec@,
            last_sep_end(e, e.len() as int) == last_sep_end(e, i as int),
        decreases i,
    {
        i = i - 1;
    }
    let seg = crate::text::slice_chars(ec.as_slice(), i, ec.len());
    proof {
        assert(seg@ =~= e.skip(i as int));
    }
    string_of(seg.as_slice())
}

/// Classifies `dlc_load.json` entries: the enabled mods whose file name ends
/// with `.dlc` are enabled DLCs; the disabled DLCs are passed through. Both
/// are normalised, first occurrence kept.
pub fn classify_dlc_state(enabled_mods: &[String], disabled_dlcs: &[String]) -> (r: DlcState)
    ensures
        views(r.enabled_dlcs@) == dedupe(dlc_entries(views(enabled_mods@))),
        views(r.disabled_dlcs@) == dedupe(normalized_all(views(disabled_dlcs@))),
{
    let mut enabled: Vec<String> = Vec::new();
    let ghost ev = views(enabled_mods@);
    let mut i: usize = 0;
    proof {
        assert(ev.take(0) =~= Seq::<Seq<char>>::empty());
        assert(views(enabled@) =~= dedupe(dlc_entries(ev.take(0))));
    }
    while i < enabled_mods.len()
        invariant
            i <= enabled_mods@.len(),
            ev == views(enabled_mods@),
            views(enabled@) == dedupe(dlc_entries(ev.take(i as int))),
        decreases enabled_mods@.len() - i,
    {
        let entry = enabled_mods[i].as_str();
        proof {
            assert(ev.take(i + 1).drop_last() =~= ev.take(i as int));
            assert(ev.take(i + 1).last() == entry@);
        }
        let file = to_lowercase(last_segment_of(entry).as_str());
        let fc = chars_of(file.as_str());
        let ext = chars_of(".dlc");
        if crate::text::chars_ends_with(fc.as_slice(), ext.as_slice()) {
            let n = normalize_dlc_id(entry);
            proof {
                crate::gather::lemma_dedupe_push(dlc_entries(ev.take(i as int)), n@);
            }
            push_unique(&mut enabled, n);
        }
        i = i + 1;
    }
    proof {
        assert(ev.take(i as int) =~= ev);
    }
    let mut disabled: Vec<String> = Vec::new();
    let ghost dv = views(disabled_dlcs@);
    let mut j: usize = 0;
    proof {
        assert(normalized_all(dv.take(0)) =~= Seq::<Seq<char>>::empty());
        assert(views(disabled@) =~= dedupe(normalized_all(dv.take(0))));
    }
    while j < disabled_dlcs.len()
        invariant
            j <= disabled_dlcs@.len(),
            dv == views(disabled_dlcs@),
            views(disabled@) == dedupe(normalized_all(dv.take(j as int))),
        decreases disabled_dlcs@.len() - j,
    {
        let n = normalize_dlc_id(disabled_dlcs[j].as_str());
        proof {
            assert(normalized_all(dv.take(j + 1)) =~= normalized_all(dv.take(j as int)).push(n@));
            crate::gather::lemma_dedupe_push(normalized_all(dv.take(j as int)), n@);
        }
        push_unique(&mut disabled, n);
        j = j + 1;
    }
    proof {
        assert(dv.take(j as int) =~= dv);
    }
    DlcState { enabled_dlcs: enabled, disabled_dlcs: disabled }
}

// ── Launcher entries ───────────────────────────────────────────────────

/// A DLC as the launcher's tables list it.
#[derive(Debug, Clone, Default)]
pub struct LauncherDlcSummary {
    pub id: Option<String>,
    pub name: Option<String>,
    pub registry_id: Option<String>,
    pub path: Option<String>,
    /// `Some(true)` when the active playset enables it, `Some(false)` when
    /// it disables it, `None` when the playset says nothing clear.
    pub enabled_in_active_playset: Option<bool>,
}

/// The index where the trailing run of separators of `s[..i]` begins.
pub open spec fn trailing_seps_start(s: Seq<char>, i: int) -> int
    decreases i,
{
    if i > 0 && is_sep(s[i - 1]) {
        trailing_seps_start(s, i - 1)
    } else {
        i
    }
}

/// The last non-empty segment of a path, or the path itself when it has
/// none.
pub open spec fn last_named_segment(path: Seq<char>) -> Seq<char> {
    let t = path.take(trailing_seps_start(path, path.len() as int));
    if t.len() == 0 {
        path
    } else {
        last_segment(t)
    }
}

pub open spec fn spec_launcher_dlc_match_key(dlc: LauncherDlcSummary) -> Option<Seq<char>> {
    match dlc.registry_id {
        Some(r) => Some(spec_normalize_dlc_id(r@)),
        None => match dlc.path {
            Some(p) => Some(spec_normalize_dlc_id(last_named_segment(p@))),
            None => match dlc.name {
                Some(n) => Some(spec_normalize_dlc_id(n@)),
                None => match dlc.id {
                    Some(i) => Some(spec_normalize_dlc_id(i@)),
                    None => None,
                },
            },
        },
    }
}

fn last_named_segment_of(path: &str) -> (r: String)
    ensures
        r@ == last_named_segment(path@),
{
    let pc = chars_of(path);
    let ghost p = pc@;
    let mut t: usize = pc.len();
    while t > 0 && (pc[t - 1] == '/' || pc[t - 1] == '\\')
        invariant
            t <= p.len(),
            p == pc@,
            trailing_seps_start(p, p.len() as int) == trailing_seps_start(p, t as int),
        decreases t,
    {
        t = t - 1;
    }
    if t == 0 {
        return string_of(pc.as_slice());
    }
    let mut i: usize = t;
    proof {
        assert(p.take(t as int).len() == t);
    }
    while i > 0 && pc[i - 1] != '/' && pc[i - 1] != '\\'
        invariant
            i <= t <= p.len(),
            p == pc@,
            last_sep_end(p.take(t as int), t as int) == last_sep_end(p.take(t as int), i as int),
        decreases i,
    {
        assert(p.take(t as int)[i - 1] == p[i - 1]);
        i = i - 1;
    }
    proof {
        if i > 0 {
            assert(p.take(t as int)[i - 1] == p[i - 1]);
        }
    }
    let seg = crate::text::slice_chars(pc.as_slice(), i, t);
    proof {
        assert(seg@ =~= p.take(t as int).skip(i as int));
    }
    string_of(seg.as_slice())
}

/// The key a launcher DLC is matched by: its registry id, else the last
/// segment of its path, else its name, else its id, normalised.
pub fn launcher_dlc_match_key(dlc: &LauncherDlcSummary) -> (r: Option<String>)
    ensures
        opt_str_view(r) == spec_launcher_dlc_match_key(*dlc),
{
    if let Some(registry_id) = &dlc.registry_id {
        return Some(normalize_dlc_id(registry_id.as_str()));
    }
    if let Some(path) = &dlc.path {
        let file = last_named_segment_of(path.as_str());
        return Some(normalize_dlc_id(file.as_str()));
    }
    if let Some(name) = &dlc.name {
        return Some(normalize_dlc_id(name.as_str()));
    }
    match &dlc.id {
        Some(id) => Some(normalize_dlc_id(id.as_str())),
        None => None,
    }
}

// ── Match keys ──────────────────────────────────────────────────────────

/// Launcher short names that differ from a canonical suffix by more than the
/// prefix: `(canonical, launcher form)`.
pub open spec fn dlc_aliases() -> Seq<(Seq<char>, Seq<char>)> {
    seq![
        ("plantoids"@, "plantoid"@),
        ("anniversary_portraits"@, "anniversary"@),
        ("first_contact"@, "firstcontact"@),
        ("galactic_paragons"@, "paragon"@),
        ("shadows_of_the_shroud"@, "shadows_shroud"@),
        ("rick_the_cube_species_portrait"@, "rick_the_cube"@),
        ("stargazer_species_portrait"@, "stargazer"@),
    ]
}

/// The index of the first `_` at or after `i` (or the length).
pub open spec fn underscore_from(s: Seq<char>, i: int) -> int
    decreases s.len() - i,
{
    if i < s.len() && s[i] != '_' {
        underscore_from(s, i + 1)
    } else {
        i
    }
}

pub open spec fn all_ascii_digits(s: Seq<char>) -> bool {
    forall|i: int| 0 <= i < s.len() ==> '0' <= #[trigger] s[i] && s[i] <= '9'
}

/// The short name of a canonical id `dlcNNN_name`: the text after the first
/// `_`, when it is not empty, not all digits, and not the id itself.
pub open spec fn short_key(n: Seq<char>) -> Option<Seq<char>> {
    let u = underscore_from(n, 0);
    if u < n.len() {
        let suffix = n.skip(u + 1);
        if suffix.len() > 0 && !all_ascii_digits(suffix) && suffix != n {
            Some(suffix)
        } else {
            None
        }
    } else {
        None
    }
}

/// The normalised id and its short name.
pub open spec fn base_keys(n: Seq<char>) -> Seq<Seq<char>> {
    match short_key(n) {
        Some(s) => seq![n, s],
        None => seq![n],
    }
}

/// The alias forms of `k` and the canonical forms it is an alias of.
pub open spec fn alias_keys(k: Seq<char>, t: Seq<(Seq<char>, Seq<char>)>) -> Seq<Seq<char>>
    decreases t.len(),
{
    if t.len() == 0 {
        Seq::empty()
    } else {
        (if k == t[0].0 {
            seq![t[0].1]
        } else {
            Seq::empty()
        }) + (if k == t[0].1 {
            seq![t[0].0]
        } else {
            Seq::empty()
        }) + alias_keys(k, t.drop_first())
    }
}

/// Every key a DLC id can be matched by.
pub open spec fn candidate_keys(id: Seq<char>) -> Seq<Seq<char>> {
    let b = base_keys(spec_normalize_dlc_id(id));
    b + alias_keys(b[0], dlc_aliases()) + if b.len() > 1 {
        alias_keys(b[1], dlc_aliases())
    } else {
        Seq::empty()
    }
}

fn short_key_of(n: &String) -> (r: Option<String>)
    ensures
        opt_str_view(r) == short_key(n@),
{
    let nc = chars_of(n.as_str());
    let ghost v = nc@;
    let mut u: usize = 0;
    while u < nc.len() && nc[u] != '_'
        invariant
            u <= v.len(),
            v == nc@,
            v == n@,
            underscore_from(v, 0) == underscore_from(v, u as int),
        decreases v.len() - u,
    {
        u = u + 1;
    }
    if u >= nc.len() {
        return None;
    }
    let suffix = crate::text::slice_chars(nc.as_slice(), u + 1, nc.len());
    proof {
        assert(suffix@ =~= v.skip(u + 1));
    }
    if suffix.len() == 0 {
        return None;
    }
    let mut all_digits = true;
    let mut k: usize = 0;
    while k < suffix.len()
        invariant
            k <= suffix@.len(),
            all_digits == (forall|j: int| 0 <= j < k ==> '0' <= #[trigger] suffix@[j] && suffix@[j] <= '9'),
        decreases suffix@.len() - k,
    {
        if !('0' <= suffix[k] && suffix[k] <= '9') {
            all_digits = false;
        }
        k = k + 1;
    }
    let text = string_of(suffix.as_slice());
    if all_digits || str_eq(text.as_str(), n.as_str()) {
        return None;
    }
    Some(text)
}

fn push_alias_keys(out: &mut Vec<String>, k: &str)
    ensures
        views(final(out)@) == views(old(out)@) + alias_keys(k@, dlc_aliases()),
{
    let table = [
        ("plantoids", "plantoid"),
        ("anniversary_portraits", "anniversary"),
        ("first_contact", "firstcontact"),
        ("galactic_paragons", "paragon"),
        ("shadows_of_the_shroud", "shadows_shroud"),
        ("rick_the_cube_species_portrait", "rick_the_cube"),
        ("stargazer_species_portrait", "stargazer"),
    ];
    let ghost tv = table@.map_values(|r: (&str, &str)| (r.0@, r.1@));
    proof {
        assert(tv =~= dlc_aliases());
        assert(tv.skip(0) =~= tv);
    }
    let ghost start = views(out@);
    let mut i: usize = 0;
    while i < table.len()
        invariant
            i <= table@.len(),
            tv == table@.map_values(|r: (&str, &str)| (r.0@, r.1@)),
            tv == dlc_aliases(),
            start + alias_keys(k@, tv) == views(out@) + alias_keys(k@, tv.skip(i as int)),
        decreases table@.len() - i,
    {
        let (canonical, alias) = table[i];
        let ghost before = views(out@);
        proof {
            assert(tv.skip(i as int)[0] == (canonical@, alias@));
            assert(tv.skip(i as int).drop_first() =~= tv.skip(i + 1));
        }
        if str_eq(k, canonical) {
            out.push(alias.to_owned());
        }
        let ghost mid = views(out@);
        if str_eq(k, alias) {
            out.push(canonical.to_owned());
        }
        proof {
            assert(mid =~= before + (if k@ == canonical@ {
                seq![alias@]
            } else {
                Seq::<Seq<char>>::empty()
            }));
            assert(views(out@) =~= mid + (if k@ == alias@ {
                seq![canonical@]
            } else {
                Seq::<Seq<char>>::empty()
            }));
            assert(views(out@) + alias_keys(k@, tv.skip(i + 1)) =~= before + alias_keys(
                k@,
                tv.skip(i as int),
            ));
        }
        i = i + 1;
    }
    proof {
        assert(tv.skip(i as int) =~= Seq::<(Seq<char>, Seq<char>)>::empty());
        assert(views(out@) + Seq::<Seq<char>>::empty() =~= views(out@));
    }
}

/// All the keys a DLC identifier can be matched by, sorted, without
/// repeats: the normalised id, the short name of a canonical `dlcNNN_name`
/// id, and the known aliases of either (see [`dlc_aliases`]).
pub fn dlc_match_keys(id: &str) -> (r: Vec<String>)
    ensures
        strictly_sorted(views(r@)),
        views(r@).to_set() == candidate_keys(id@).to_set(),
        views(r@).contains(spec_normalize_dlc_id(id@)),
{
    let normalized = normalize_dlc_id(id);
    let mut all: Vec<String> = Vec::new();
    all.push(normalized.clone());
    let short = short_key_of(&normalized);
    match &short {
        Some(s) => all.push(s.clone()),
        None => {},
    }
    let ghost base = views(all@);
    proof {
        assert(base =~= base_keys(spec_normalize_dlc_id(id@)));
    }
    push_alias_keys(&mut all, normalized.as_str());
    match &short {
        Some(s) => push_alias_keys(&mut all, s.as_str()),
        None => {},
    }
    proof {
        assert(views(all@) =~= candidate_keys(id@));
    }
    let mut keys: Vec<String> = Vec::new();
    let ghost av = views(all@);
    let mut i: usize = 0;
    proof {
        assert(views(keys@).to_set() =~= av.take(0).to_set());
    }
    while i < all.len()
        invariant
            i <= all@.len(),
            av == views(all@),
            strictly_sorted(views(keys@)),
            views(keys@).to_set() == av.take(i as int).to_set(),
        decreases all@.len() - i,
    {
        insert_sorted_unique(&mut keys, all[i].clone());
        proof {
            let t = av.take(i as int);
            let t1 = av.take(i + 1);
            assert(t1 =~= t.push(av[i as int]));
            assert forall|x: Seq<char>| t1.to_set().contains(x) <==> t.to_set().insert(
                av[i as int],
            ).contains(x) by {
                if t1.to_set().contains(x) {
                    let j = choose|j: int| 0 <= j < t1.len() && t1[j] == x;
                    if j < i {
                        assert(t[j] == x);
                    }
                }
                if t.to_set().contains(x) {
                    let j = choose|j: int| 0 <= j < t.len() && t[j] == x;
                    assert(t1[j] == x);
                }
                if x == av[i as int] {
                    assert(t1[i as int] == x);
                }
            }
            assert(t1.to_set() =~= t.to_set().insert(av[i as int]));
        }
        i = i + 1;
    }
    proof {
        assert(av.take(i as int) =~= av);
        assert(av[0] == spec_normalize_dlc_id(id@));
        assert(av.to_set().contains(av[0]));
    }
    keys
}

// ── DLCs of a run ───────────────────────────────────────────────────────

/// The DLCs a run requires, split by what local state says of them.
#[derive(Debug, Default)]
pub struct RunDlcInfo {
    /// Required by the save and enabled locally.
    pub enabled_and_required: Vec<String>,
    /// Required by the save and explicitly disabled locally.
    pub disabled_but_required: Vec<String>,
    /// Required by the save and neither enabled nor disabled locally.
    pub unknown_status_required: Vec<String>,
    /// Every DLC enabled across local sources.
    pub all_enabled_dlcs: Vec<String>,
    /// Every DLC disabled across local sources.
    pub all_disabled_dlcs: Vec<String>,
}

/// Two DLC identifiers share a match key.
pub open spec fn keys_meet(a: Seq<char>, b: Seq<char>) -> bool {
    exists|k: Seq<char>| candidate_keys(a).contains(k) && candidate_keys(b).contains(k)
}

/// Some identifier of `list` shares a match key with `r`.
pub open spec fn matches_any(list: Seq<Seq<char>>, r: Seq<char>) -> bool {
    exists|i: int| 0 <= i < list.len() && keys_meet(#[trigger] list[i], r)
}

/// Which list a required DLC goes to.
pub enum DlcStatus {
    Enabled,
    Disabled,
    Unknown,
}

pub open spec fn dlc_status(enabled: Seq<Seq<char>>, disabled: Seq<Seq<char>>, r: Seq<char>) -> DlcStatus {
    if matches_any(enabled, r) {
        DlcStatus::Enabled
    } else if matches_any(disabled, r) {
        DlcStatus::Disabled
    } else {
        DlcStatus::Unknown
    }
}

/// The required DLCs of status `st`, in order.
pub open spec fn with_status(
    required: Seq<Seq<char>>,
    enabled: Seq<Seq<char>>,
    disabled: Seq<Seq<char>>,
    st: DlcStatus,
) -> Seq<Seq<char>>
    decreases required.len(),
{
    if required.len() == 0 {
        Seq::empty()
    } else {
        let rest = with_status(required.drop_last(), enabled, disabled, st);
        if dlc_status(enabled, disabled, required.last()) == st {
            rest.push(required.last())
        } else {
            rest
        }
    }
}

fn keys_meet_exec(a_keys: &Vec<String>, b_keys: &Vec<String>, Ghost(a): Ghost<Seq<char>>, Ghost(b): Ghost<Seq<char>>) -> (r: bool)
    requires
        views(a_keys@).to_set() == candidate_keys(a).to_set(),
        views(b_keys@).to_set() == candidate_keys(b).to_set(),
    ensures
        r == keys_meet(a, b),
{
    let ghost av = views(a_keys@);
    let ghost bv = views(b_keys@);
    let mut i: usize = 0;
    while i < a_keys.len()
        invariant
            i <= a_keys@.len(),
            av == views(a_keys@),
            bv == views(b_keys@),
            av.to_set() == candidate_keys(a).to_set(),
            bv.to_set() == candidate_keys(b).to_set(),
            forall|x: int, y: int| 0 <= x < i && 0 <= y < bv.len() ==> #[trigger] av[x] != #[trigger] bv[y],
        decreases a_keys@.len() - i,
    {
        let mut j: usize = 0;
        while j < b_keys.len()
            invariant
                i < a_keys@.len(),
                j <= b_keys@.len(),
                av == views(a_keys@),
                bv == views(b_keys@),
                av.to_set() == candidate_keys(a).to_set(),
                bv.to_set() == candidate_keys(b).to_set(),
                forall|x: int, y: int| 0 <= x < i && 0 <= y < bv.len() ==> #[trigger] av[x] != #[trigger] bv[y],
                forall|y: int| 0 <= y < j ==> av[i as int] != #[trigger] bv[y],
            decreases b_keys@.len() - j,
        {
            if str_eq(a_keys[i].as_str(), b_keys[j].as_str()) {
                proof {
                    let k = av[i as int];
                    assert(av.to_set().contains(k));
                    assert(bv[j as int] == k);
                    assert(bv.to_set().contains(k));
                    assert(candidate_keys(a).to_set().contains(k));
                    assert(candidate_keys(b).to_set().contains(k));
                }
                return true;
            }
            j = j + 1;
        }
        i = i + 1;
    }
    proof {
        if keys_meet(a, b) {
            let k = choose|k: Seq<char>| candidate_keys(a).contains(k) && candidate_keys(b).contains(k);
            assert(candidate_keys(a).to_set().contains(k));
            assert(candidate_keys(b).to_set().contains(k));
            assert(av.to_set().contains(k));
            assert(bv.to_set().contains(k));
            let x = choose|x: int| 0 <= x < av.len() && av[x] == k;
            let y = choose|y: int| 0 <= y < bv.len() && bv[y] == k;
            assert(av[x] != bv[y]);
        }
    }
    false
}

fn matches_any_exec(list: &[String], r_keys: &Vec<String>, Ghost(r): Ghost<Seq<char>>) -> (res: bool)
    requires
        views(r_keys@).to_set() == candidate_keys(r).to_set(),
    ensures
        res == matches_any(views(list@), r),
{
    let ghost lv = views(list@);
    let mut i: usize = 0;
    while i < list.len()
        invariant
            i <= list@.len(),
            lv == views(list@),
            views(r_keys@).to_set() == candidate_keys(r).to_set(),
            forall|k: int| 0 <= k < i ==> !keys_meet(#[trigger] lv[k], r),
        decreases list@.len() - i,
    {
        let keys = dlc_match_keys(list[i].as_str());
        if keys_meet_exec(&keys, r_keys, Ghost(list@[i as int]@), Ghost(r)) {
            assert(keys_meet(lv[i as int], r));
            return true;
        }
        i = i + 1;
    }
    false
}

fn copy_all(v: &[String]) -> (r: Vec<String>)
    ensures
        views(r@) == views(v@),
{
    let mut out: Vec<String> = Vec::new();
    let mut i: usize = 0;
    while i < v.len()
        invariant
            i <= v@.len(),
            views(out@) == views(v@).take(i as int),
        decreases v@.len() - i,
    {
        let ghost before = views(out@);
        let c = v[i].clone();
        out.push(c);
        proof {
            assert(views(out@) =~= before.push(c@));
            assert(views(out@) =~= views(v@).take(i + 1));
        }
        i = i + 1;
    }
    proof {
        assert(views(v@).take(i as int) =~= views(v@));
    }
    out
}

/// Splits the DLCs a save requires by local state: enabled when one of its
/// match keys is a key of a locally enabled DLC, else disabled when it
/// shares one with a locally disabled DLC, else unknown.
pub fn run_dlc_info(required_dlcs: &[String], enabled_dlcs: &[String], disabled_dlcs: &[String]) -> (r:
    RunDlcInfo)
    ensures
        views(r.enabled_and_required@) == with_status(
            views(required_dlcs@),
            views(enabled_dlcs@),
            views(disabled_dlcs@),
            DlcStatus::Enabled,
        ),
        views(r.disabled_but_required@) == with_status(
            views(required_dlcs@),
            views(enabled_dlcs@),
            views(disabled_dlcs@),
            DlcStatus::Disabled,
        ),
        views(r.unknown_status_required@) == with_status(
            views(required_dlcs@),
            views(enabled_dlcs@),
            views(disabled_dlcs@),
            DlcStatus::Unknown,
        ),
        views(r.all_enabled_dlcs@) == views(enabled_dlcs@),
        views(r.all_disabled_dlcs@) == views(disabled_dlcs@),
{
    let ghost rv = views(required_dlcs@);
    let ghost ev = views(enabled_dlcs@);
    let ghost dv = views(disabled_dlcs@);
    let mut enabled_and_required: Vec<String> = Vec::new();
    let mut disabled_but_required: Vec<String> = Vec::new();
    let mut unknown_status_required: Vec<String> = Vec::new();
    let mut i: usize = 0;
    proof {
        assert(rv.take(0) =~= Seq::<Seq<char>>::empty());
    }
    while i < required_dlcs.len()
        invariant
            i <= required_dlcs@.len(),
            rv == views(required_dlcs@),
            ev == views(enabled_dlcs@),
            dv == views(disabled_dlcs@),
            views(enabled_and_required@) == with_status(rv.take(i as int), ev, dv, DlcStatus::Enabled),
            views(disabled_but_required@) == with_status(rv.take(i as int), ev, dv, DlcStatus::Disabled),
            views(unknown_status_required@) == with_status(rv.take(i as int), ev, dv, DlcStatus::Unknown),
        decreases required_dlcs@.len() - i,
    {
        let required = &required_dlcs[i];
        let ghost t = rv.take(i as int);
        proof {
            assert(rv.take(i + 1).drop_last() =~= t);
            assert(rv.take(i + 1).last() == required@);
        }
        let keys = dlc_match_keys(required.as_str());
        let is_enabled = matches_any_exec(enabled_dlcs, &keys, Ghost(required@));
        let is_disabled = matches_any_exec(disabled_dlcs, &keys, Ghost(required@));
        let ghost e0 = views(enabled_and_required@);
        let ghost d0 = views(disabled_but_required@);
        let ghost u0 = views(unknown_status_required@);
        if is_enabled {
            enabled_and_required.push(required.clone());
            proof {
                assert(views(enabled_and_required@) =~= e0.push(required@));
            }
        } else if is_disabled {
            disabled_but_required.push(required.clone());
            proof {
                assert(views(disabled_but_required@) =~= d0.push(required@));
            }
        } else {
            unknown_status_required.push(required.clone());
            proof {
                assert(views(unknown_status_required@) =~= u0.push(required@));
            }
        }
        i = i + 1;
    }
    proof {
        assert(rv.take(i as int) =~= rv);
    }
    RunDlcInfo {
        enabled_and_required,
        disabled_but_required,
        unknown_status_required,
        all_enabled_dlcs: copy_all(enabled_dlcs),
        all_disabled_dlcs: copy_all(disabled_dlcs),
    }
}

/// Each required DLC lands in exactly one of the three lists: together they
/// hold the required DLCs, each as many times as it is required.
pub proof fn lemma_required_dlcs_partition(
    required: Seq<Seq<char>>,
    enabled: Seq<Seq<char>>,
    disabled: Seq<Seq<char>>,
)
    ensures
        with_status(required, enabled, disabled, DlcStatus::Enabled).to_multiset().add(
            with_status(required, enabled, disabled, DlcStatus::Disabled).to_multiset(),
        ).add(with_status(required, enabled, disabled, DlcStatus::Unknown).to_multiset())
            == required.to_multiset(),
    decreases required.len(),
{
    broadcast use vstd::seq_lib::group_to_multiset_ensures;
    if required.len() > 0 {
        let p = required.drop_last();
        lemma_required_dlcs_partition(p, enabled, disabled);
        assert(required =~= p.push(required.last()));
        assert(required.to_multiset() =~= p.to_multiset().insert(required.last()));
        let e = with_status(p, enabled, disabled, DlcStatus::Enabled);
        let d = with_status(p, enabled, disabled, DlcStatus::Disabled);
        let u = with_status(p, enabled, disabled, DlcStatus::Unknown);
        match dlc_status(enabled, disabled, required.last()) {
            DlcStatus::Enabled => {
                assert(e.push(required.last()).to_multiset() =~= e.to_multiset().insert(
                    required.last(),
                ));
                assert(e.to_multiset().insert(required.last()).add(d.to_multiset()).add(
                    u.to_multiset(),
                ) =~= e.to_multiset().add(d.to_multiset()).add(u.to_multiset()).insert(
                    required.last(),
                ));
            },
            DlcStatus::Disabled => {
                assert(d.push(required.last()).to_multiset() =~= d.to_multiset().insert(
                    required.last(),
                ));
                assert(e.to_multiset().add(d.to_multiset().insert(required.last())).add(
                    u.to_multiset(),
                ) =~= e.to_multiset().add(d.to_multiset()).add(u.to_multiset()).insert(
                    required.last(),
                ));
            },
            DlcStatus::Unknown => {
                assert(u.push(required.last()).to_multiset() =~= u.to_multiset().insert(
                    required.last(),
                ));
                assert(e.to_multiset().add(d.to_multiset()).add(
                    u.to_multiset().insert(required.last()),
                ) =~= e.to_multiset().add(d.to_multiset()).add(u.to_multiset()).insert(
                    required.last(),
                ));
            },
        }
    } else {
        assert(with_status(required, enabled, disabled, DlcStatus::Enabled).to_multiset()
            =~= vstd::multiset::Multiset::empty());
        assert(with_status(required, enabled, disabled, DlcStatus::Disabled).to_multiset()
            =~= vstd::multiset::Multiset::empty());
        assert(with_status(required, enabled, disabled, DlcStatus::Unknown).to_multiset()
            =~= vstd::multiset::Multiset::empty());
        assert(required.to_multiset() =~= vstd::multiset::Multiset::empty());
    }
}

/// `start` with each of `items` appended unless already present.
pub open spec fn push_unique_all(start: Seq<Seq<char>>, items: Seq<Seq<char>>) -> Seq<Seq<char>>
    decreases items.len(),
{
    if items.len() == 0 {
        start
    } else {
        let o = push_unique_all(start, items.drop_last());
        if o.contains(items.last()) {
            o
        } else {
            o.push(items.last())
        }
    }
}

/// The match keys of the launcher DLCs the active playset marks as
/// `enabled` (or, for `false`, as disabled), in order.
pub open spec fn launcher_keys(dlcs: Seq<LauncherDlcSummary>, enabled: bool) -> Seq<Seq<char>>
    decreases dlcs.len(),
{
    if dlcs.len() == 0 {
        Seq::empty()
    } else {
        let rest = launcher_keys(dlcs.drop_last(), enabled);
        let d = dlcs.last();
        if d.enabled_in_active_playset == Some(enabled) {
            match spec_launcher_dlc_match_key(d) {
                Some(k) => rest.push(k),
                None => rest,
            }
        } else {
            rest
        }
    }
}

/// The DLCs enabled and disabled across local sources: those of
/// `dlc_load.json`, then those the active launcher playset enables or
/// disables, each added once.
pub fn local_dlc_lists(dlc_state: Option<&DlcState>, launcher_dlcs: Option<&[LauncherDlcSummary]>) -> (r: (
    Vec<String>,
    Vec<String>,
))
    ensures
        views(r.0@) == push_unique_all(
            match dlc_state {
                Some(st) => views(st.enabled_dlcs@),
                None => Seq::empty(),
            },
            match launcher_dlcs {
                Some(ds) => launcher_keys(ds@, true),
                None => Seq::empty(),
            },
        ),
        views(r.1@) == push_unique_all(
            match dlc_state {
                Some(st) => views(st.disabled_dlcs@),
                None => Seq::empty(),
            },
            match launcher_dlcs {
                Some(ds) => launcher_keys(ds@, false),
                None => Seq::empty(),
            },
        ),
{
    let mut enabled: Vec<String> = match dlc_state {
        Some(st) => copy_all(st.enabled_dlcs.as_slice()),
        None => Vec::new(),
    };
    let mut disabled: Vec<String> = match dlc_state {
        Some(st) => copy_all(st.disabled_dlcs.as_slice()),
        None => Vec::new(),
    };
    let ghost e0 = views(enabled@);
    let ghost d0 = views(disabled@);
    proof {
        assert(e0 =~= match dlc_state {
            Some(st) => views(st.enabled_dlcs@),
            None => Seq::empty(),
        });
        assert(d0 =~= match dlc_state {
            Some(st) => views(st.disabled_dlcs@),
            None => Seq::empty(),
        });
    }
    let dlcs = match launcher_dlcs {
        Some(ds) => ds,
        None => {
            proof {
                assert(e0 =~= push_unique_all(e0, Seq::<Seq<char>>::empty()));
                assert(d0 =~= push_unique_all(d0, Seq::<Seq<char>>::empty()));
            }
            return (enabled, disabled);
        },
    };
    let mut i: usize = 0;
    proof {
        assert(dlcs@.take(0) =~= Seq::<LauncherDlcSummary>::empty());
    }
    while i < dlcs.len()
        invariant
            i <= dlcs@.len(),
            views(enabled@) == push_unique_all(e0, launcher_keys(dlcs@.take(i as int), true)),
            views(disabled@) == push_unique_all(d0, launcher_keys(dlcs@.take(i as int), false)),
        decreases dlcs@.len() - i,
    {
        let d = &dlcs[i];
        let ghost t = dlcs@.take(i as int);
        proof {
            assert(dlcs@.take(i + 1).drop_last() =~= t);
            assert(dlcs@.take(i + 1).last() == *d);
        }
        if let Some(key) = launcher_dlc_match_key(d) {
            match d.enabled_in_active_playset {
                Some(true) => {
                    proof {
                        assert(launcher_keys(t, true).push(key@).drop_last() =~= launcher_keys(t, true));
                    }
                    push_unique(&mut enabled, key);
                },
                Some(false) => {
                    proof {
                        assert(launcher_keys(t, false).push(key@).drop_last() =~= launcher_keys(t, false));
                    }
                    push_unique(&mut disabled, key);
                },
                None => {},
            }
        }
        i = i + 1;
    }
    proof {
        assert(dlcs@.take(i as int) =~= dlcs@);
    }
    (enabled, disabled)
}


/// `r` splits `required` by the local lists `enabled` and `disabled`.
pub open spec fn dlc_info_of(
    r: RunDlcInfo,
    required: Seq<Seq<char>>,
    enabled: Seq<Seq<char>>,
    disabled: Seq<Seq<char>>,
) -> bool {
    &&& views(r.enabled_and_required@) == with_status(required, enabled, disabled, DlcStatus::Enabled)
    &&& views(r.disabled_but_required@) == with_status(required, enabled, disabled, DlcStatus::Disabled)
    &&& views(r.unknown_status_required@) == with_status(required, enabled, disabled, DlcStatus::Unknown)
    &&& views(r.all_enabled_dlcs@) == enabled
    &&& views(r.all_disabled_dlcs@) == disabled
}

/// The DLCs enabled locally, from `dlc_load.json` and then the launcher.
pub open spec fn local_enabled(dlc_state: Option<&DlcState>, launcher_dlcs: Option<&[LauncherDlcSummary]>) -> Seq<Seq<char>> {
    push_unique_all(
        match dlc_state {
            Some(st) => views(st.enabled_dlcs@),
            None => Seq::empty(),
        },
        match launcher_dlcs {
            Some(ds) => launcher_keys(ds@, true),
            None => Seq::empty(),
        },
    )
}

/// The DLCs disabled locally, from `dlc_load.json` and then the launcher.
pub open spec fn local_disabled(dlc_state: Option<&DlcState>, launcher_dlcs: Option<&[LauncherDlcSummary]>) -> Seq<Seq<char>> {
    push_unique_all(
        match dlc_state {
            Some(st) => views(st.disabled_dlcs@),
            None => Seq::empty(),
        },
        match launcher_dlcs {
            Some(ds) => launcher_keys(ds@, false),
            None => Seq::empty(),
        },
    )
}

/// The DLC information of each run, from the DLCs its latest save
/// requires (`None` for a run whose save was not parsed) and the local DLC
/// state.
pub fn runs_dlc_info(
    runs_required: &[Option<Vec<String>>],
    dlc_state: Option<&DlcState>,
    launcher_dlcs: Option<&[LauncherDlcSummary]>,
) -> (r: Vec<Option<RunDlcInfo>>)
    ensures
        r@.len() == runs_required@.len(),
        forall|i: int|
            0 <= i < r@.len() ==> match runs_required@[i] {
                None => (#[trigger] r@[i]) is None,
                Some(req) => r@[i] matches Some(info) && dlc_info_of(
                    info,
                    views(req@),
                    local_enabled(dlc_state, launcher_dlcs),
                    local_disabled(dlc_state, launcher_dlcs),
                ),
            },
{
    let (enabled, disabled) = local_dlc_lists(dlc_state, launcher_dlcs);
    let mut out: Vec<Option<RunDlcInfo>> = Vec::new();
    let mut i: usize = 0;
    while i < runs_required.len()
        invariant
            i <= runs_required@.len(),
            out@.len() == i,
            views(enabled@) == local_enabled(dlc_state, launcher_dlcs),
            views(disabled@) == local_disabled(dlc_state, launcher_dlcs),
            forall|k: int|
                0 <= k < i ==> match runs_required@[k] {
                    None => (#[trigger] out@[k]) is None,
                    Some(req) => out@[k] matches Some(info) && dlc_info_of(
                        info,
                        views(req@),
                        local_enabled(dlc_state, launcher_dlcs),
                        local_disabled(dlc_state, launcher_dlcs),
                    ),
                },
        decreases runs_required@.len() - i,
    {
        match &runs_required[i] {
            None => out.push(None),
            Some(req) => {
                let info = run_dlc_info(req.as_slice(), enabled.as_slice(), disabled.as_slice());
                out.push(Some(info));
            },
        }
        i = i + 1;
    }
    out
}


/// The DLC lists read from `dlc_load.json` hold each DLC once, and every
/// enabled `.dlc` entry and every disabled DLC is in them, normalised.
pub proof fn lemma_dlc_state_lists(enabled_mods: Seq<Seq<char>>, disabled_dlcs: Seq<Seq<char>>)
    ensures
        dedupe(dlc_entries(enabled_mods)).no_duplicates(),
        dedupe(normalized_all(disabled_dlcs)).no_duplicates(),
        forall|x: Seq<char>| dedupe(dlc_entries(enabled_mods)).contains(x) <==> dlc_entries(enabled_mods).contains(x),
        forall|x: Seq<char>| dedupe(normalized_all(disabled_dlcs)).contains(x) <==> normalized_all(disabled_dlcs).contains(x),
{
    crate::clausewitz::lemma_dedupe_distinct(dlc_entries(enabled_mods));
    crate::clausewitz::lemma_dedupe_distinct(normalized_all(disabled_dlcs));
}

} // verus!
