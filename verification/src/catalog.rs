//! Normalising and validating the achievement catalog: text fields are
//! trimmed, tags and condition fields are turned into slugs, and a catalog
//! is accepted only when its version, kind and entries are well formed.
use vstd::prelude::*;
use crate::clausewitz::{dedupe, opt_str_view};
use crate::install::{strip_leading, strip_trailing};
use crate::paths::ascii_lower_char;
use crate::model::{AchievementCatalogEntry, AchievementCondition, AchievementCurationFields};
use crate::numbers::{all_digits, decimal, decimal_string, is_digit};
use crate::text::{cat3, cat5, chars_of, str_eq, string_of, trim_chars, trim_seq, views};

verus! {

/// Why a catalog, or one of its fields, was refused.
#[derive(Debug)]
pub enum CatalogError {
    Parse(String),
}

pub open spec fn err_view<T>(r: Result<T, CatalogError>) -> Seq<char> {
    match r {
        Err(CatalogError::Parse(m)) => m@,
        Ok(_) => Seq::empty(),
    }
}

pub open spec fn empty_message(field: Seq<char>) -> Seq<char> {
    field + " must not be empty"@
}

/// Refuses a value that is empty once trimmed.
pub fn require_non_empty(field: &str, value: &str) -> (r: Result<(), CatalogError>)
    ensures
        r is Err <==> trim_seq(value@).len() == 0,
        r is Err ==> err_view(r) == empty_message(field@),
{
    let vc = chars_of(value);
    let t = trim_chars(vc.as_slice());
    if t.len() == 0 {
        proof {
            reveal_strlit("");
        }
        let m = cat3(field, " must not be empty", "");
        proof {
            assert(m@ =~= empty_message(field@));
        }
        return Err(CatalogError::Parse(m));
    }
    Ok(())
}

/// The trimmed value, refused when empty.
pub fn normalize_required_text(field: &str, value: &str) -> (r: Result<String, CatalogError>)
    ensures
        match r {
            Ok(s) => s@ == trim_seq(value@) && s@.len() > 0,
            Err(_) => trim_seq(value@).len() == 0 && err_view(r) == empty_message(field@),
        },
{
    let vc = chars_of(value);
    let t = trim_chars(vc.as_slice());
    if t.len() == 0 {
        proof {
            reveal_strlit("");
        }
        let m = cat3(field, " must not be empty", "");
        proof {
            assert(m@ =~= empty_message(field@));
        }
        return Err(CatalogError::Parse(m));
    }
    Ok(string_of(t.as_slice()))
}

/// The trimmed text when it is not empty.
pub open spec fn spec_optional_text(v: Option<Seq<char>>) -> Option<Seq<char>> {
    match v {
        Some(s) => if trim_seq(s).len() > 0 {
            Some(trim_seq(s))
        } else {
            None
        },
        None => None,
    }
}

/// An optional identifier, trimmed; `None` when blank.
pub fn normalize_optional_identifier(value: Option<String>) -> (r: Option<String>)
    ensures
        opt_str_view(r) == spec_optional_text(opt_str_view(value)),
{
    match value {
        Some(v) => {
            let vc = chars_of(v.as_str());
            let t = trim_chars(vc.as_slice());
            if t.len() == 0 {
                None
            } else {
                Some(string_of(t.as_slice()))
            }
        },
        None => None,
    }
}

/// Optional free text, trimmed; `None` when blank.
pub fn normalize_optional_text(value: Option<String>) -> (r: Option<String>)
    ensures
        opt_str_view(r) == spec_optional_text(opt_str_view(value)),
{
    normalize_optional_identifier(value)
}

// ── Slugs ───────────────────────────────────────────────────────────────

/// `s` with every `-` that follows a `-` dropped.
pub open spec fn collapse_runs(s: Seq<char>) -> Seq<char>
    decreases s.len(),
{
    if s.len() == 0 {
        Seq::empty()
    } else if s.last() == '-' && s.len() >= 2 && s[s.len() - 2] == '-' {
        collapse_runs(s.drop_last())
    } else {
        collapse_runs(s.drop_last()).push(s.last())
    }
}

/// Runs of hyphens collapsed to one, hyphens at either end dropped.
pub open spec fn spec_collapse_hyphens(s: Seq<char>) -> Seq<char> {
    strip_trailing(strip_leading(collapse_runs(s), '-'), '-')
}

/// Collapses runs of hyphens and trims hyphens from both ends.
pub fn collapse_hyphens(value: &str) -> (r: String)
    ensures
        r@ == spec_collapse_hyphens(value@),
{
    let vc = chars_of(value);
    let ghost v = vc@;
    let mut collapsed: Vec<char> = Vec::new();
    let mut previous_was_hyphen = false;
    let mut i: usize = 0;
    proof {
        assert(v.take(0) =~= Seq::<char>::empty());
    }
    while i < vc.len()
        invariant
            i <= v.len(),
            v == vc@,
            collapsed@ == collapse_runs(v.take(i as int)),
            previous_was_hyphen == (i > 0 && v[i - 1] == '-'),
        decreases v.len() - i,
    {
        let ch = vc[i];
        proof {
            assert(v.take(i + 1).drop_last() =~= v.take(i as int));
            assert(v.take(i + 1).last() == ch);
            if i > 0 {
                assert(v.take(i + 1)[i - 1] == v[i - 1]);
            }
        }
        if ch == '-' {
            if !previous_was_hyphen {
                collapsed.push(ch);
            }
            previous_was_hyphen = true;
        } else {
            collapsed.push(ch);
            previous_was_hyphen = false;
        }
        i = i + 1;
    }
    proof {
        assert(v.take(i as int) =~= v);
    }
    let lead = crate::install::strip_leading_chars(&collapsed, '-');
    let trail = crate::install::strip_trailing_chars(&lead, '-');
    string_of(trail.as_slice())
}

/// The slug form of one character (after ASCII lowering): letters and
/// digits stay, `-`, `_`, space and `/` become `-`, anything else stays.
pub open spec fn slug_char(c: char) -> char {
    if ('a' <= c && c <= 'z') || ('0' <= c && c <= '9') {
        c
    } else if c == '-' || c == '_' || c == ' ' || c == '/' {
        '-'
    } else {
        c
    }
}

pub open spec fn slug_chars(v: Seq<char>) -> Seq<char> {
    trim_seq(v).map_values(|c: char| slug_char(ascii_lower_char(c)))
}

/// Only lower case ASCII letters, digits and hyphens.
pub open spec fn slug_ok(s: Seq<char>) -> bool {
    forall|i: int| 0 <= i < s.len() ==> ('a' <= #[trigger] s[i] && s[i] <= 'z') || ('0' <= s[i] && s[i] <= '9')
        || s[i] == '-'
}

pub open spec fn slug_message(field: Seq<char>) -> Seq<char> {
    field + " must contain only lowercase letters, digits, and hyphens after normalization"@
}

/// A slug: trimmed, ASCII lowered, separators turned into hyphens, runs of
/// hyphens collapsed and end hyphens dropped; refused when nothing is left
/// or when it still holds other characters.
pub open spec fn spec_slug(field: Seq<char>, v: Seq<char>) -> Result<Seq<char>, Seq<char>> {
    let c = spec_collapse_hyphens(slug_chars(v));
    if trim_seq(c).len() == 0 {
        Err(empty_message(field))
    } else if !slug_ok(c) {
        Err(slug_message(field))
    } else {
        Ok(c)
    }
}

pub open spec fn result_view(r: Result<String, CatalogError>) -> Result<Seq<char>, Seq<char>> {
    match r {
        Ok(s) => Ok(s@),
        Err(CatalogError::Parse(m)) => Err(m@),
    }
}

/// Normalises a required slug such as a tag.
pub fn normalize_required_slug(field: &str, value: &str) -> (r: Result<String, CatalogError>)
    ensures
        result_view(r) == spec_slug(field@, value@),
{
    let vc = chars_of(value);
    let t = trim_chars(vc.as_slice());
    let mut mapped: Vec<char> = Vec::new();
    let mut i: usize = 0;
    while i < t.len()
        invariant
            i <= t@.len(),
            t@ == trim_seq(value@),
            mapped@ == t@.take(i as int).map_values(|c: char| slug_char(ascii_lower_char(c))),
        decreases t@.len() - i,
    {
        let c = t[i];
        let lower: char = if 'A' <= c && c <= 'Z' {
            ((c as u8) + 32) as char
        } else {
            c
        };
        let ch: char = if ('a' <= lower && lower <= 'z') || ('0' <= lower && lower <= '9') {
            lower
        } else if lower == '-' || lower == '_' || lower == ' ' || lower == '/' {
            '-'
        } else {
            lower
        };
        proof {
            assert(lower == ascii_lower_char(c));
            assert(ch == slug_char(ascii_lower_char(c)));
        }
        mapped.push(ch);
        proof {
            assert(t@.take(i + 1).map_values(|c: char| slug_char(ascii_lower_char(c))) =~= t@.take(
                i as int,
            ).map_values(|c: char| slug_char(ascii_lower_char(c))).push(ch));
        }
        i = i + 1;
    }
    proof {
        assert(t@.take(i as int) =~= t@);
    }
    let collapsed = collapse_hyphens(string_of(mapped.as_slice()).as_str());
    let cc = chars_of(collapsed.as_str());
    let ct = trim_chars(cc.as_slice());
    if ct.len() == 0 {
        proof {
            reveal_strlit("");
        }
        let m = cat3(field, " must not be empty", "");
        proof {
            assert(m@ =~= empty_message(field@));
        }
        return Err(CatalogError::Parse(m));
    }
    proof {
        assert(mapped@ == slug_chars(value@));
        assert(cc@ == spec_collapse_hyphens(slug_chars(value@)));
    }
    let mut k: usize = 0;
    while k < cc.len()
        invariant
            k <= cc@.len(),
            cc@ == spec_collapse_hyphens(slug_chars(value@)),
            trim_seq(cc@).len() > 0,
            forall|j: int| 0 <= j < k ==> ('a' <= #[trigger] cc@[j] && cc@[j] <= 'z') || ('0' <= cc@[j]
                && cc@[j] <= '9') || cc@[j] == '-',
        decreases cc@.len() - k,
    {
        let ch = cc[k];
        if !(('a' <= ch && ch <= 'z') || ('0' <= ch && ch <= '9') || ch == '-') {
            proof {
                reveal_strlit("");
            }
            let m = cat3(
                field,
                " must contain only lowercase letters, digits, and hyphens after normalization",
                "",
            );
            proof {
                assert(m@ =~= slug_message(field@));
                assert(!slug_ok(cc@));
            }
            return Err(CatalogError::Parse(m));
        }
        k = k + 1;
    }
    proof {
        assert(mapped@ == slug_chars(value@));
        assert(cc@ == collapsed@);
        assert(slug_ok(cc@));
    }
    Ok(collapsed)
}

pub open spec fn hyphen_to_underscore(c: char) -> char {
    if c == '-' {
        '_'
    } else {
        c
    }
}

/// A slug with `_` in place of `-`.
pub open spec fn spec_snake(field: Seq<char>, v: Seq<char>) -> Result<Seq<char>, Seq<char>> {
    match spec_slug(field, v) {
        Ok(s) => Ok(s.map_values(|c: char| hyphen_to_underscore(c))),
        Err(m) => Err(m),
    }
}

/// Normalises a required snake-case field such as a condition's operator.
pub fn normalize_required_snake(field: &str, value: &str) -> (r: Result<String, CatalogError>)
    ensures
        result_view(r) == spec_snake(field@, value@),
{
    let slug = normalize_required_slug(field, value)?;
    let sc = chars_of(slug.as_str());
    let mut out: Vec<char> = Vec::new();
    let mut i: usize = 0;
    while i < sc.len()
        invariant
            i <= sc@.len(),
            out@ == sc@.take(i as int).map_values(|c: char| hyphen_to_underscore(c)),
        decreases sc@.len() - i,
    {
        let c = sc[i];
        out.push(if c == '-' { '_' } else { c });
        proof {
            assert(sc@.take(i + 1).map_values(|c: char| hyphen_to_underscore(c)) =~= sc@.take(
                i as int,
            ).map_values(|c: char| hyphen_to_underscore(c)).push(hyphen_to_underscore(c)));
        }
        i = i + 1;
    }
    proof {
        assert(sc@.take(i as int) =~= sc@);
    }
    Ok(string_of(out.as_slice()))
}

// ── Slug laws ───────────────────────────────────────────────────────────

/// No two hyphens in a row.
pub open spec fn no_double_hyphen(s: Seq<char>) -> bool {
    forall|i: int| 0 <= i < s.len() - 1 ==> !(#[trigger] s[i] == '-' && s[i + 1] == '-')
}

/// Not starting or ending with a hyphen.
pub open spec fn no_edge_hyphen(s: Seq<char>) -> bool {
    s.len() > 0 ==> s[0] != '-' && s.last() != '-'
}

proof fn lemma_collapse_runs(s: Seq<char>)
    ensures
        no_double_hyphen(collapse_runs(s)),
        s.len() > 0 ==> collapse_runs(s).len() > 0 && collapse_runs(s).last() == s.last(),
        s.len() == 0 ==> collapse_runs(s).len() == 0,
        no_double_hyphen(s) ==> collapse_runs(s) == s,
    decreases s.len(),
{
    if s.len() > 0 {
        let p = s.drop_last();
        lemma_collapse_runs(p);
        if no_double_hyphen(s) {
            assert forall|i: int| 0 <= i < p.len() - 1 implies !(#[trigger] p[i] == '-' && p[i + 1]
                == '-') by {
                assert(p[i] == s[i] && p[i + 1] == s[i + 1]);
            }
            if s.len() >= 2 {
                assert(!(s[s.len() - 2] == '-' && s[s.len() - 1] == '-'));
            }
            assert(p.push(s.last()) =~= s);
        }
        let r = collapse_runs(s);
        let rp = collapse_runs(p);
        if !(s.last() == '-' && s.len() >= 2 && s[s.len() - 2] == '-') {
            assert forall|i: int| 0 <= i < r.len() - 1 implies !(#[trigger] r[i] == '-' && r[i + 1]
                == '-') by {
                if i < rp.len() - 1 {
                    assert(r[i] == rp[i] && r[i + 1] == rp[i + 1]);
                } else {
                    assert(i == rp.len() - 1);
                    assert(rp.last() == p.last());
                    assert(p.last() == s[s.len() - 2]);
                }
            }
        } else {
            assert(rp.last() == p.last());
        }
    }
}

proof fn lemma_strip_leading(s: Seq<char>)
    requires
        no_double_hyphen(s),
    ensures
        no_double_hyphen(strip_leading(s, '-')),
        strip_leading(s, '-').len() > 0 ==> strip_leading(s, '-')[0] != '-',
        strip_leading(s, '-').len() > 0 ==> s.len() > 0 && strip_leading(s, '-').last() == s.last(),
        s.len() == 0 || s[0] != '-' ==> strip_leading(s, '-') == s,
    decreases s.len(),
{
    if s.len() > 0 && s[0] == '-' {
        let t = s.drop_first();
        assert forall|i: int| 0 <= i < t.len() - 1 implies !(#[trigger] t[i] == '-' && t[i + 1] == '-') by {
            assert(t[i] == s[i + 1] && t[i + 1] == s[i + 2]);
        }
        lemma_strip_leading(t);
    }
}

proof fn lemma_strip_trailing(s: Seq<char>)
    requires
        no_double_hyphen(s),
        s.len() > 0 ==> s[0] != '-',
    ensures
        no_double_hyphen(strip_trailing(s, '-')),
        no_edge_hyphen(strip_trailing(s, '-')),
        s.len() == 0 || s.last() != '-' ==> strip_trailing(s, '-') == s,
    decreases s.len(),
{
    if s.len() > 0 && s.last() == '-' {
        let t = s.drop_last();
        assert forall|i: int| 0 <= i < t.len() - 1 implies !(#[trigger] t[i] == '-' && t[i + 1] == '-') by {
            assert(t[i] == s[i] && t[i + 1] == s[i + 1]);
        }
        lemma_strip_trailing(t);
    }
}

/// Collapsing hyphens leaves no two hyphens in a row and none at either end;
/// a text already like that is left as it is.
pub proof fn lemma_collapse_hyphens(s: Seq<char>)
    ensures
        no_double_hyphen(spec_collapse_hyphens(s)),
        no_edge_hyphen(spec_collapse_hyphens(s)),
        no_double_hyphen(s) && no_edge_hyphen(s) ==> spec_collapse_hyphens(s) == s,
{
    lemma_collapse_runs(s);
    let c = collapse_runs(s);
    lemma_strip_leading(c);
    lemma_strip_trailing(strip_leading(c, '-'));
}

proof fn lemma_trim_plain(s: Seq<char>)
    requires
        s.len() > 0,
        !crate::text::is_ws(s[0]),
        !crate::text::is_ws(s.last()),
    ensures
        trim_seq(s) == s,
{
    assert(crate::text::ws_run_end(s, 0) == 0);
    assert(s.skip(0) =~= s);
    assert(crate::text::ws_run_start(s, 0, s.len() as int) == s.len());
    assert(s.take(s.len() as int) =~= s);
}

/// A slug is made of lower case letters, digits and single hyphens, not at
/// either end, and normalising it again gives it back.
pub proof fn lemma_slug_laws(field: Seq<char>, v: Seq<char>)
    ensures
        spec_slug(field, v) matches Ok(c) ==> {
            &&& c.len() > 0
            &&& slug_ok(c)
            &&& no_double_hyphen(c)
            &&& no_edge_hyphen(c)
            &&& spec_slug(field, c) == Ok::<Seq<char>, Seq<char>>(c)
        },
{
    lemma_collapse_hyphens(slug_chars(v));
    if let Ok(c) = spec_slug(field, v) {
        assert(c.len() > 0) by {
            if c.len() == 0 {
                assert(trim_seq(c) =~= c.take(0));
            }
        }
        assert(!crate::text::is_ws(c[0]) && !crate::text::is_ws(c.last())) by {
            assert(slug_ok(c));
            assert(('a' <= c[0] && c[0] <= 'z') || ('0' <= c[0] && c[0] <= '9') || c[0] == '-');
            assert(('a' <= c[c.len() - 1] && c[c.len() - 1] <= 'z') || ('0' <= c[c.len() - 1]
                && c[c.len() - 1] <= '9') || c[c.len() - 1] == '-');
        }
        lemma_trim_plain(c);
        let m = slug_chars(c);
        assert(m =~= c) by {
            assert forall|i: int| 0 <= i < c.len() implies #[trigger] m[i] == c[i] by {
                assert(('a' <= c[i] && c[i] <= 'z') || ('0' <= c[i] && c[i] <= '9') || c[i] == '-');
            }
        }
        lemma_collapse_hyphens(c);
    }
}

// ── Entries ─────────────────────────────────────────────────────────────

/// A whole catalog snapshot.
#[derive(Debug, Default)]
pub struct AchievementCatalog {
    pub catalog_version: String,
    pub snapshot_kind: String,
    pub stellaris_version: Option<String>,
    pub source_url: Option<String>,
    pub source_hash: Option<String>,
    pub updated_at: String,
    pub achievements: Vec<AchievementCatalogEntry>,
}

/// The error of `r` if it was refused, else `later`.
pub open spec fn or_err(r: Result<Seq<char>, Seq<char>>, later: Option<Seq<char>>) -> Option<Seq<char>> {
    match r {
        Err(e) => Some(e),
        Ok(_) => later,
    }
}

/// `r` is the normalised form of the condition `c`: its six keyword fields
/// as snake case, its source and notes trimmed, the rest unchanged; or the
/// error of the first keyword field refused.
pub open spec fn condition_normalized(r: Result<AchievementCondition, CatalogError>, c: AchievementCondition) -> bool {
    let ct = spec_snake("condition.condition_type"@, c.condition_type@);
    let dm = spec_snake("condition.dimension"@, c.dimension@);
    let op = spec_snake("condition.operator"@, c.operator@);
    let tm = spec_snake("condition.timing"@, c.timing@);
    let mu = spec_snake("condition.mutability"@, c.mutability@);
    let sv = spec_snake("condition.severity"@, c.severity@);
    match r {
        Ok(n) => {
            &&& ct == Ok::<Seq<char>, Seq<char>>(n.condition_type@)
            &&& dm == Ok::<Seq<char>, Seq<char>>(n.dimension@)
            &&& op == Ok::<Seq<char>, Seq<char>>(n.operator@)
            &&& tm == Ok::<Seq<char>, Seq<char>>(n.timing@)
            &&& mu == Ok::<Seq<char>, Seq<char>>(n.mutability@)
            &&& sv == Ok::<Seq<char>, Seq<char>>(n.severity@)
            &&& opt_str_view(n.source) == spec_optional_text(opt_str_view(c.source))
            &&& opt_str_view(n.notes) == spec_optional_text(opt_str_view(c.notes))
            &&& n.value == c.value
            &&& n.children == c.children
        },
        Err(CatalogError::Parse(m)) => or_err(
            ct,
            or_err(dm, or_err(op, or_err(tm, or_err(mu, or_err(sv, None))))),
        ) == Some(m@),
    }
}

/// Normalises a curated condition.
pub fn normalize_condition(condition: AchievementCondition) -> (r: Result<
    AchievementCondition,
    CatalogError,
>)
    ensures
        condition_normalized(r, condition),
{
    let ghost c = condition;
    let AchievementCondition {
        condition_type,
        dimension,
        operator,
        value,
        timing,
        mutability,
        severity,
        source,
        notes,
        children,
    } = condition;
    let condition_type = normalize_required_snake("condition.condition_type", condition_type.as_str())?;
    let dimension = normalize_required_snake("condition.dimension", dimension.as_str())?;
    let operator = normalize_required_snake("condition.operator", operator.as_str())?;
    let timing = normalize_required_snake("condition.timing", timing.as_str())?;
    let mutability = normalize_required_snake("condition.mutability", mutability.as_str())?;
    let severity = normalize_required_snake("condition.severity", severity.as_str())?;
    Ok(
        AchievementCondition {
            condition_type,
            dimension,
            operator,
            value,
            timing,
            mutability,
            severity,
            source: normalize_optional_identifier(source),
            notes: normalize_optional_text(notes),
            children,
        },
    )
}

/// Every keyword field of the condition normalises.
pub open spec fn condition_ok(c: AchievementCondition) -> bool {
    &&& spec_snake("condition.condition_type"@, c.condition_type@) is Ok
    &&& spec_snake("condition.dimension"@, c.dimension@) is Ok
    &&& spec_snake("condition.operator"@, c.operator@) is Ok
    &&& spec_snake("condition.timing"@, c.timing@) is Ok
    &&& spec_snake("condition.mutability"@, c.mutability@) is Ok
    &&& spec_snake("condition.severity"@, c.severity@) is Ok
}

/// The slugs of the tags in order, or the error of the first refused one.
pub open spec fn tags_result(tags: Seq<Seq<char>>) -> Result<Seq<Seq<char>>, Seq<char>>
    decreases tags.len(),
{
    if tags.len() == 0 {
        Ok(Seq::empty())
    } else {
        match tags_result(tags.drop_last()) {
            Err(e) => Err(e),
            Ok(ss) => match spec_slug("achievement.curation.tags[]"@, tags.last()) {
                Ok(t) => Ok(ss.push(t)),
                Err(e) => Err(e),
            },
        }
    }
}

/// `r` is the normalised form of the entry `e`: id trimmed, optional
/// identifiers trimmed, tags as distinct slugs, conditions normalised, the
/// rest unchanged; or the first error, checking the id, then the tags, then
/// the conditions in order.
pub open spec fn entry_normalized(r: Result<AchievementCatalogEntry, CatalogError>, e: AchievementCatalogEntry) -> bool {
    let id = trim_seq(e.id@);
    let cs = e.curation.conditions@;
    match r {
        Ok(n) => {
            &&& id.len() > 0
            &&& n.id@ == id
            &&& opt_str_view(n.steam_api_name) == spec_optional_text(opt_str_view(e.steam_api_name))
            &&& opt_str_view(n.local_key) == spec_optional_text(opt_str_view(e.local_key))
            &&& tags_result(views(e.curation.tags@)) matches Ok(ts) && views(n.curation.tags@) == dedupe(ts)
            &&& n.curation.conditions@.len() == cs.len()
            &&& forall|i: int|
                0 <= i < cs.len() ==> condition_normalized(
                    Ok::<AchievementCondition, CatalogError>(#[trigger] n.curation.conditions@[i]),
                    cs[i],
                )
            &&& n.steam_app_id == e.steam_app_id
            &&& n.deprecated == e.deprecated
            &&& n.completed == e.completed
            &&& n.source == e.source
            &&& n.curation.warnings == e.curation.warnings
            &&& n.curation.planner_notes == e.curation.planner_notes
            &&& n.curation.known_limitations == e.curation.known_limitations
            &&& n.curation.rule_confidence == e.curation.rule_confidence
        },
        Err(CatalogError::Parse(m)) => {
            ||| id.len() == 0 && m@ == empty_message("achievement.id"@)
            ||| id.len() > 0 && tags_result(views(e.curation.tags@)) == Err::<Seq<Seq<char>>, Seq<char>>(m@)
            ||| id.len() > 0 && tags_result(views(e.curation.tags@)) is Ok && exists|i: int|
                0 <= i < cs.len() && (forall|j: int| 0 <= j < i ==> condition_ok(#[trigger] cs[j]))
                    && !condition_ok(cs[i]) && condition_normalized(
                    Err::<AchievementCondition, CatalogError>(CatalogError::Parse(m)),
                    #[trigger] cs[i],
                )
        },
    }
}

proof fn lemma_condition_ok(r: Result<AchievementCondition, CatalogError>, c: AchievementCondition)
    requires
        condition_normalized(r, c),
    ensures
        r is Ok <==> condition_ok(c),
{
}

/// Normalises one catalog entry.
pub fn normalize_entry(entry: AchievementCatalogEntry) -> (r: Result<
    AchievementCatalogEntry,
    CatalogError,
>)
    ensures
        entry_normalized(r, entry),
{
    let ghost e = entry;
    let AchievementCatalogEntry {
        id,
        steam_app_id,
        steam_api_name,
        local_key,
        deprecated,
        source,
        curation,
        completed,
    } = entry;
    let AchievementCurationFields {
        tags,
        conditions,
        warnings,
        planner_notes,
        known_limitations,
        rule_confidence,
    } = curation;
    let id = normalize_required_text("achievement.id", id.as_str())?;
    let ghost tv = views(tags@);
    let mut normalized_tags: Vec<String> = Vec::new();
    let ghost mut slugs: Seq<Seq<char>> = Seq::empty();
    let mut i: usize = 0;
    proof {
        assert(tv.take(0) =~= Seq::<Seq<char>>::empty());
        assert(views(normalized_tags@) =~= dedupe(slugs));
    }
    while i < tags.len()
        invariant
            i <= tags@.len(),
            tv == views(tags@),
            tags_result(tv.take(i as int)) == Ok::<Seq<Seq<char>>, Seq<char>>(slugs),
            views(normalized_tags@) == dedupe(slugs),
            e.curation.tags == tags,
            e == entry,
            trim_seq(e.id@) == id@,
            id@.len() > 0,
        decreases tags@.len() - i,
    {
        proof {
            assert(tv.take(i + 1).drop_last() =~= tv.take(i as int));
            assert(tv.take(i + 1).last() == tags@[i as int]@);
        }
        let t = match normalize_required_slug("achievement.curation.tags[]", tags[i].as_str()) {
            Ok(t) => t,
            Err(err) => {
                proof {
                    assert(tv[i as int] == tags@[i as int]@);
                    lemma_tags_result_err(tv, i as int);
                    assert(tags_result(tv) == Err::<Seq<Seq<char>>, Seq<char>>(err_view::<String>(Err(err))));
                }
                return Err(err);
            },
        };
        proof {
            crate::gather::lemma_dedupe_push(slugs, t@);
            slugs = slugs.push(t@);
        }
        crate::gather::push_unique(&mut normalized_tags, t);
        i = i + 1;
    }
    proof {
        assert(tv.take(i as int) =~= tv);
    }
    let ghost cs = conditions@;
    let mut rest = conditions;
    let total: usize = rest.len();
    let mut normalized: Vec<AchievementCondition> = Vec::new();
    let mut k: usize = 0;
    proof {
        assert(cs.skip(0) =~= cs);
    }
    while rest.len() > 0
        invariant
            k <= cs.len(),
            rest@ == cs.skip(k as int),
            cs.len() == total,
            rest@.len() == cs.len() - k,
            normalized@.len() == k,
            forall|j: int|
                0 <= j < k ==> condition_normalized(
                    Ok::<AchievementCondition, CatalogError>(#[trigger] normalized@[j]),
                    cs[j],
                ),
            forall|j: int| 0 <= j < k ==> condition_ok(#[trigger] cs[j]),
            cs == e.curation.conditions@,
            e == entry,
            trim_seq(e.id@) == id@,
            id@.len() > 0,
            tags_result(views(e.curation.tags@)) is Ok,
        decreases rest@.len(),
    {
        let c = rest.remove(0);
        proof {
            assert(c == cs[k as int]);
            assert(rest@ =~= cs.skip(k + 1));
        }
        let ghost cc = c;
        match normalize_condition(c) {
            Ok(n) => {
                proof {
                    lemma_condition_ok(Ok(n), cc);
                }
                normalized.push(n);
            },
            Err(err) => {
                proof {
                    lemma_condition_ok(Err(err), cc);
                    assert(!condition_ok(cs[k as int]));
                    assert(forall|j: int| 0 <= j < k ==> condition_ok(#[trigger] cs[j]));
                    assert(exists|i: int|
                        0 <= i < cs.len() && (forall|j: int| 0 <= j < i ==> condition_ok(#[trigger] cs[j]))
                            && !condition_ok(cs[i]) && condition_normalized(
                            Err::<AchievementCondition, CatalogError>(err),
                            #[trigger] cs[i],
                        )) by {
                        assert(condition_normalized(Err::<AchievementCondition, CatalogError>(err), cs[k as int]));
                    }
                }
                return Err(err);
            },
        }
        k = k + 1;
    }
    Ok(
        AchievementCatalogEntry {
            id,
            steam_app_id,
            steam_api_name: normalize_optional_identifier(steam_api_name),
            local_key: normalize_optional_identifier(local_key),
            deprecated,
            source,
            curation: AchievementCurationFields {
                tags: normalized_tags,
                conditions: normalized,
                warnings,
                planner_notes,
                known_limitations,
                rule_confidence,
            },
            completed,
        },
    )
}

proof fn lemma_tags_result_err(tv: Seq<Seq<char>>, i: int)
    requires
        0 <= i < tv.len(),
        tags_result(tv.take(i)) is Ok,
        spec_slug("achievement.curation.tags[]"@, tv[i]) is Err,
    ensures
        tags_result(tv) == Err::<Seq<Seq<char>>, Seq<char>>(
            spec_slug("achievement.curation.tags[]"@, tv[i])->Err_0,
        ),
{
    assert(tv.take(i + 1).drop_last() =~= tv.take(i));
    lemma_tags_err_stays(tv, i + 1);
}

proof fn lemma_tags_err_stays(tv: Seq<Seq<char>>, n: int)
    requires
        0 <= n <= tv.len(),
        tags_result(tv.take(n)) is Err,
    ensures
        tags_result(tv) == tags_result(tv.take(n)),
    decreases tv.len() - n,
{
    if n < tv.len() {
        assert(tv.take(n + 1).drop_last() =~= tv.take(n));
        lemma_tags_err_stays(tv, n + 1);
    } else {
        assert(tv.take(n) =~= tv);
    }
}


/// The Steam application id of Stellaris.
pub const STELLARIS_APP_ID: u32 = 281990;

/// The difficulty codes a catalog may use.
pub open spec fn supported_difficulty(d: Seq<char>) -> bool {
    ||| d == "VE"@
    ||| d == "E"@
    ||| d == "M"@
    ||| d == "H"@
    ||| d == "VH"@
    ||| d == "I"@
    ||| d == "UC"@
}

/// Whether `d` is one of the supported difficulty codes.
pub fn is_supported_difficulty(d: &str) -> (r: bool)
    ensures
        r == supported_difficulty(d@),
{
    str_eq(d, "VE") || str_eq(d, "E") || str_eq(d, "M") || str_eq(d, "H") || str_eq(d, "VH")
        || str_eq(d, "I") || str_eq(d, "UC")
}

/// Whether `v` holds a string equal to `s`.
pub fn contains_string(v: &[String], s: &str) -> (r: bool)
    ensures
        r == views(v@).contains(s@),
{
    let mut i: usize = 0;
    while i < v.len()
        invariant
            i <= v@.len(),
            forall|j: int| 0 <= j < i ==> v@[j]@ != s@,
        decreases v@.len() - i,
    {
        if str_eq(v[i].as_str(), s) {
            proof {
                assert(views(v@)[i as int] == s@);
            }
            return true;
        }
        i = i + 1;
    }
    proof {
        assert forall|j: int| 0 <= j < views(v@).len() implies views(v@)[j] != s@ by {
            assert(views(v@)[j] == v@[j]@);
        }
    }
    false
}

/// The entry names a difficulty that is not supported.
pub open spec fn difficulty_refused(e: AchievementCatalogEntry) -> bool {
    match e.source.difficulty {
        Some(d) => !supported_difficulty(d@),
        None => false,
    }
}

/// Some tag of the entry is empty once trimmed.
pub open spec fn has_blank_tag(e: AchievementCatalogEntry) -> bool {
    exists|i: int| 0 <= i < e.curation.tags@.len() && trim_seq(#[trigger] e.curation.tags@[i]@).len() == 0
}

/// The entry passes the checks that come before its id is recorded.
pub open spec fn entry_recorded(e: AchievementCatalogEntry, seen: Seq<Seq<char>>) -> bool {
    &&& trim_seq(e.id@).len() > 0
    &&& trim_seq(e.source.name@).len() > 0
    &&& e.steam_app_id == STELLARIS_APP_ID
    &&& !seen.contains(e.id@)
}

/// Why the entry is refused, given the ids seen before it, or `None`.
pub open spec fn entry_problem(e: AchievementCatalogEntry, seen: Seq<Seq<char>>) -> Option<Seq<char>> {
    let id = e.id@;
    if trim_seq(id).len() == 0 {
        Some(empty_message("achievement.id"@))
    } else if trim_seq(e.source.name@).len() == 0 {
        Some(empty_message("achievement.source.name"@))
    } else if e.steam_app_id != STELLARIS_APP_ID {
        Some("achievement "@ + id + " has unsupported steam_app_id "@ + decimal(e.steam_app_id as nat))
    } else if seen.contains(id) {
        Some("duplicate achievement id in catalog: "@ + id)
    } else if difficulty_refused(e) {
        Some("achievement "@ + id + " has unsupported difficulty "@ + e.source.difficulty->Some_0@)
    } else if has_blank_tag(e) {
        Some(empty_message("achievement.curation.tags[]"@))
    } else {
        None
    }
}

/// Checks one entry of a catalog against the ids seen before it, and
/// records its id once the id is known to be new.
pub fn validate_entry(entry: &AchievementCatalogEntry, ids: &mut Vec<String>) -> (r: Result<(), CatalogError>)
    ensures
        match entry_problem(*entry, views(old(ids)@)) {
            Some(m) => r is Err && err_view(r) == m,
            None => r is Ok,
        },
        views(final(ids)@) == if entry_recorded(*entry, views(old(ids)@)) {
            views(old(ids)@).push(entry.id@)
        } else {
            views(old(ids)@)
        },
{
    require_non_empty("achievement.id", entry.id.as_str())?;
    require_non_empty("achievement.source.name", entry.source.name.as_str())?;
    if entry.steam_app_id != STELLARIS_APP_ID {
        let n = decimal_string(entry.steam_app_id as usize);
        let m = cat3("achievement ", entry.id.as_str(), " has unsupported steam_app_id ");
        let m = cat3(m.as_str(), n.as_str(), "");
        proof {
            reveal_strlit("");
            assert(m@ =~= entry_problem(*entry, views(old(ids)@))->Some_0);
        }
        return Err(CatalogError::Parse(m));
    }
    if contains_string(ids.as_slice(), entry.id.as_str()) {
        let m = cat3("duplicate achievement id in catalog: ", entry.id.as_str(), "");
        proof {
            reveal_strlit("");
            assert(m@ =~= entry_problem(*entry, views(old(ids)@))->Some_0);
        }
        return Err(CatalogError::Parse(m));
    }
    let ghost before = views(ids@);
    ids.push(entry.id.clone());
    proof {
        assert(views(ids@) =~= before.push(entry.id@));
    }
    match &entry.source.difficulty {
        Some(d) => {
            if !is_supported_difficulty(d.as_str()) {
                let m = cat3("achievement ", entry.id.as_str(), " has unsupported difficulty ");
                let m = cat3(m.as_str(), d.as_str(), "");
                proof {
                    reveal_strlit("");
                    assert(m@ =~= entry_problem(*entry, before)->Some_0);
                }
                return Err(CatalogError::Parse(m));
            }
        },
        None => {},
    }
    let mut i: usize = 0;
    while i < entry.curation.tags.len()
        invariant
            i <= entry.curation.tags@.len(),
            forall|j: int| 0 <= j < i ==> trim_seq(#[trigger] entry.curation.tags@[j]@).len() > 0,
            before == views(old(ids)@),
            views(ids@) == before.push(entry.id@),
            entry_recorded(*entry, before),
            !difficulty_refused(*entry),
        decreases entry.curation.tags@.len() - i,
    {
        require_non_empty("achievement.curation.tags[]", entry.curation.tags[i].as_str())?;
        i = i + 1;
    }
    Ok(())
}


/// `s` splits at the dots `i` and `j` into three non-empty runs of digits.
pub open spec fn semver_split(s: Seq<char>, i: int, j: int) -> bool {
    &&& 0 < i
    &&& i + 1 < j
    &&& j + 1 < s.len()
    &&& s[i] == '.'
    &&& s[j] == '.'
    &&& all_digits(s.subrange(0, i))
    &&& all_digits(s.subrange(i + 1, j))
    &&& all_digits(s.subrange(j + 1, s.len() as int))
}

/// A catalog version of the form MAJOR.MINOR.PATCH, each part digits.
pub open spec fn semver_catalog_version(s: Seq<char>) -> bool {
    exists|i: int, j: int| semver_split(s, i, j)
}

proof fn lemma_split_non_digit(s: Seq<char>, i: int, j: int, m: int)
    requires
        semver_split(s, i, j),
        0 <= m < s.len(),
        !is_digit(s[m]),
    ensures
        m == i || m == j,
{
    if m < i {
        assert(s.subrange(0, i)[m] == s[m]);
    } else if i < m < j {
        assert(s.subrange(i + 1, j)[m - i - 1] == s[m]);
    } else if m > j {
        assert(s.subrange(j + 1, s.len() as int)[m - j - 1] == s[m]);
    }
}

/// Whether `value` has the form MAJOR.MINOR.PATCH with only digits in each
/// part.
pub fn is_semver_catalog_version(value: &str) -> (r: bool)
    ensures
        r == semver_catalog_version(value@),
{
    let cs = chars_of(value);
    let ghost s = value@;
    let n: usize = cs.len();
    let mut dots: usize = 0;
    let mut first: usize = 0;
    let mut second: usize = 0;
    let mut k: usize = 0;
    while k < n
        invariant
            cs@ == s,
            s == value@,
            n == s.len(),
            k <= n,
            dots <= 2,
            forall|m: int| 0 <= m < k && !is_digit(#[trigger] s[m]) ==> s[m] == '.',
            forall|m: int|
                0 <= m < k && #[trigger] s[m] == '.' ==> (dots >= 1 && m == first) || (dots >= 2 && m
                    == second),
            dots >= 1 ==> first < k && s[first as int] == '.',
            dots >= 2 ==> first < second && second < k && s[second as int] == '.',
        decreases n - k,
    {
        let c = cs[k];
        if c == '.' {
            if dots == 0 {
                first = k;
            } else if dots == 1 {
                second = k;
            } else {
                proof {
                    assert forall|i: int, j: int| !semver_split(s, i, j) by {
                        if semver_split(s, i, j) {
                            lemma_split_non_digit(s, i, j, first as int);
                            lemma_split_non_digit(s, i, j, second as int);
                            lemma_split_non_digit(s, i, j, k as int);
                        }
                    }
                }
                return false;
            }
            dots = dots + 1;
        } else if !('0' <= c && c <= '9') {
            proof {
                assert forall|i: int, j: int| !semver_split(s, i, j) by {
                    if semver_split(s, i, j) {
                        lemma_split_non_digit(s, i, j, k as int);
                    }
                }
            }
            return false;
        }
        k = k + 1;
    }
    if dots == 2 && first > 0 && second > first + 1 && second + 1 < n {
        proof {
            let a = s.subrange(0, first as int);
            let b = s.subrange(first + 1, second as int);
            let c = s.subrange(second + 1, s.len() as int);
            assert forall|m: int| 0 <= m < a.len() implies is_digit(#[trigger] a[m]) by {
                assert(a[m] == s[m]);
            }
            assert forall|m: int| 0 <= m < b.len() implies is_digit(#[trigger] b[m]) by {
                assert(b[m] == s[first + 1 + m]);
            }
            assert forall|m: int| 0 <= m < c.len() implies is_digit(#[trigger] c[m]) by {
                assert(c[m] == s[second + 1 + m]);
            }
            assert(semver_split(s, first as int, second as int));
        }
        true
    } else {
        proof {
            assert forall|i: int, j: int| !semver_split(s, i, j) by {
                if semver_split(s, i, j) {
                    assert(s[i] == '.');
                    assert(s[j] == '.');
                }
            }
        }
        false
    }
}


/// Why the entries are refused, checking them in order against the ids
/// of the entries before them, or `None`.
pub open spec fn entries_problem(es: Seq<AchievementCatalogEntry>, seen: Seq<Seq<char>>) -> Option<Seq<char>>
    decreases es.len(),
{
    if es.len() == 0 {
        None
    } else {
        match entry_problem(es[0], seen) {
            Some(m) => Some(m),
            None => entries_problem(es.drop_first(), seen.push(es[0].id@)),
        }
    }
}

/// Why the catalog is refused, or `None`.
pub open spec fn catalog_problem(c: AchievementCatalog) -> Option<Seq<char>> {
    let v = c.catalog_version@;
    if trim_seq(v).len() == 0 {
        Some(empty_message("catalog_version"@))
    } else if !semver_catalog_version(v) {
        Some("catalog_version must use MAJOR.MINOR.PATCH digits: "@ + v)
    } else if c.snapshot_kind@ != "full"@ {
        Some(
            "unsupported snapshot_kind "@ + c.snapshot_kind@
                + "; only full catalog snapshots can be imported"@,
        )
    } else if trim_seq(c.updated_at@).len() == 0 {
        Some(empty_message("updated_at"@))
    } else if c.achievements@.len() == 0 {
        Some("catalog must contain at least one achievement"@)
    } else {
        entries_problem(c.achievements@, Seq::empty())
    }
}

/// Checks a catalog: its version, kind and date, and each entry in turn.
pub fn validate_catalog(catalog: &AchievementCatalog) -> (r: Result<(), CatalogError>)
    ensures
        match catalog_problem(*catalog) {
            Some(m) => r is Err && err_view(r) == m,
            None => r is Ok,
        },
{
    require_non_empty("catalog_version", catalog.catalog_version.as_str())?;
    if !is_semver_catalog_version(catalog.catalog_version.as_str()) {
        proof {
            reveal_strlit("");
        }
        let m = cat3(
            "catalog_version must use MAJOR.MINOR.PATCH digits: ",
            catalog.catalog_version.as_str(),
            "",
        );
        proof {
            assert(m@ =~= catalog_problem(*catalog)->Some_0);
        }
        return Err(CatalogError::Parse(m));
    }
    if !str_eq(catalog.snapshot_kind.as_str(), "full") {
        let m = cat3(
            "unsupported snapshot_kind ",
            catalog.snapshot_kind.as_str(),
            "; only full catalog snapshots can be imported",
        );
        return Err(CatalogError::Parse(m));
    }
    require_non_empty("updated_at", catalog.updated_at.as_str())?;
    if catalog.achievements.len() == 0 {
        return Err(CatalogError::Parse(String::from_str("catalog must contain at least one achievement")));
    }
    let ghost es = catalog.achievements@;
    let mut ids: Vec<String> = Vec::new();
    let mut i: usize = 0;
    proof {
        assert(es.skip(0) =~= es);
        assert(views(ids@) =~= Seq::<Seq<char>>::empty());
    }
    while i < catalog.achievements.len()
        invariant
            es == catalog.achievements@,
            i <= es.len(),
            entries_problem(es, Seq::empty()) == entries_problem(es.skip(i as int), views(ids@)),
            catalog_problem(*catalog) == entries_problem(es, Seq::empty()),
        decreases es.len() - i,
    {
        let ghost seen = views(ids@);
        proof {
            assert(es.skip(i as int)[0] == es[i as int]);
            assert(es.skip(i as int).drop_first() =~= es.skip(i + 1));
        }
        validate_entry(&catalog.achievements[i], &mut ids)?;
        i = i + 1;
    }
    proof {
        assert(es.skip(i as int).len() == 0);
    }
    Ok(())
}

/// The normalisation of the entry succeeds.
pub open spec fn entry_ok(e: AchievementCatalogEntry) -> bool {
    &&& trim_seq(e.id@).len() > 0
    &&& tags_result(views(e.curation.tags@)) is Ok
    &&& forall|i: int| 0 <= i < e.curation.conditions@.len() ==> condition_ok(#[trigger] e.curation.conditions@[i])
}

proof fn lemma_entry_ok(r: Result<AchievementCatalogEntry, CatalogError>, e: AchievementCatalogEntry)
    requires
        entry_normalized(r, e),
    ensures
        r is Ok <==> entry_ok(e),
{
    match r {
        Ok(n) => {
            assert forall|i: int| 0 <= i < e.curation.conditions@.len() implies condition_ok(
                #[trigger] e.curation.conditions@[i],
            ) by {
                lemma_condition_ok(
                    Ok::<AchievementCondition, CatalogError>(n.curation.conditions@[i]),
                    e.curation.conditions@[i],
                );
            }
        },
        Err(_) => {},
    }
}

/// `r` is the normalised catalog `c`: kind trimmed, each entry normalised,
/// the rest unchanged; or the first error, checking the kind and then the
/// entries in order.
pub open spec fn catalog_normalized(r: Result<AchievementCatalog, CatalogError>, c: AchievementCatalog) -> bool {
    let es = c.achievements@;
    match r {
        Ok(n) => {
            &&& trim_seq(c.snapshot_kind@).len() > 0
            &&& n.snapshot_kind@ == trim_seq(c.snapshot_kind@)
            &&& n.catalog_version == c.catalog_version
            &&& n.stellaris_version == c.stellaris_version
            &&& n.source_url == c.source_url
            &&& n.source_hash == c.source_hash
            &&& n.updated_at == c.updated_at
            &&& n.achievements@.len() == es.len()
            &&& forall|i: int|
                0 <= i < es.len() ==> entry_normalized(
                    Ok::<AchievementCatalogEntry, CatalogError>(#[trigger] n.achievements@[i]),
                    es[i],
                )
        },
        Err(CatalogError::Parse(m)) => {
            ||| trim_seq(c.snapshot_kind@).len() == 0 && m@ == empty_message("snapshot_kind"@)
            ||| trim_seq(c.snapshot_kind@).len() > 0 && exists|i: int|
                0 <= i < es.len() && (forall|j: int| 0 <= j < i ==> entry_ok(#[trigger] es[j]))
                    && !entry_ok(es[i]) && entry_normalized(
                    Err::<AchievementCatalogEntry, CatalogError>(CatalogError::Parse(m)),
                    #[trigger] es[i],
                )
        },
    }
}

/// Normalises a catalog: its snapshot kind and every entry.
pub fn normalize_catalog(catalog: AchievementCatalog) -> (r: Result<AchievementCatalog, CatalogError>)
    ensures
        catalog_normalized(r, catalog),
{
    let ghost c = catalog;
    let AchievementCatalog {
        catalog_version,
        snapshot_kind,
        stellaris_version,
        source_url,
        source_hash,
        updated_at,
        achievements,
    } = catalog;
    let snapshot_kind = normalize_required_text("snapshot_kind", snapshot_kind.as_str())?;
    let ghost es = achievements@;
    let mut rest = achievements;
    let total: usize = rest.len();
    let mut normalized: Vec<AchievementCatalogEntry> = Vec::new();
    let mut k: usize = 0;
    proof {
        assert(es.skip(0) =~= es);
    }
    while rest.len() > 0
        invariant
            k <= es.len(),
            rest@ == es.skip(k as int),
            rest@.len() == es.len() - k,
            es.len() == total,
            normalized@.len() == k,
            forall|j: int|
                0 <= j < k ==> entry_normalized(
                    Ok::<AchievementCatalogEntry, CatalogError>(#[trigger] normalized@[j]),
                    es[j],
                ),
            forall|j: int| 0 <= j < k ==> entry_ok(#[trigger] es[j]),
            es == c.achievements@,
            c == catalog,
            trim_seq(c.snapshot_kind@) == snapshot_kind@,
            snapshot_kind@.len() > 0,
        decreases rest@.len(),
    {
        let e = rest.remove(0);
        proof {
            assert(e == es[k as int]);
            assert(rest@ =~= es.skip(k + 1));
        }
        let ghost ee = e;
        match normalize_entry(e) {
            Ok(n) => {
                proof {
                    lemma_entry_ok(Ok(n), ee);
                }
                normalized.push(n);
            },
            Err(err) => {
                proof {
                    lemma_entry_ok(Err(err), ee);
                    assert(exists|i: int|
                        0 <= i < es.len() && (forall|j: int| 0 <= j < i ==> entry_ok(#[trigger] es[j]))
                            && !entry_ok(es[i]) && entry_normalized(
                            Err::<AchievementCatalogEntry, CatalogError>(err),
                            #[trigger] es[i],
                        )) by {
                        assert(entry_normalized(Err::<AchievementCatalogEntry, CatalogError>(err), es[k as int]));
                    }
                }
                return Err(err);
            },
        }
        k = k + 1;
    }
    Ok(
        AchievementCatalog {
            catalog_version,
            snapshot_kind,
            stellaris_version,
            source_url,
            source_hash,
            updated_at,
            achievements: normalized,
        },
    )
}

/// A catalog as it is imported: normalised, then checked; the first error
/// of either step.
pub open spec fn catalog_prepared(r: Result<AchievementCatalog, CatalogError>, c: AchievementCatalog) -> bool {
    exists|n: Result<AchievementCatalog, CatalogError>|
        #![trigger catalog_normalized(n, c)]
        catalog_normalized(n, c) && match n {
            Err(e) => r == Err::<AchievementCatalog, CatalogError>(e),
            Ok(nc) => match catalog_problem(nc) {
                Some(m) => r is Err && err_view(r) == m,
                None => r == Ok::<AchievementCatalog, CatalogError>(nc),
            },
        }
}

/// Normalises a catalog and checks the result, as an import does.
pub fn prepare_catalog(catalog: AchievementCatalog) -> (r: Result<AchievementCatalog, CatalogError>)
    ensures
        catalog_prepared(r, catalog),
{
    let ghost c = catalog;
    let n = normalize_catalog(catalog);
    let ghost gn = n;
    match n {
        Err(e) => {
            proof {
                assert(catalog_normalized(gn, c));
            }
            Err(e)
        },
        Ok(nc) => {
            match validate_catalog(&nc) {
                Err(e) => {
                    proof {
                        assert(catalog_normalized(gn, c));
                    }
                    Err(e)
                },
                Ok(()) => {
                    proof {
                        assert(catalog_normalized(gn, c));
                    }
                    Ok(nc)
                },
            }
        },
    }
}


// ── Importing a snapshot ────────────────────────────────────────────────

/// The ids of `existing` that `active` does not hold, in order.
pub open spec fn missing_ids(existing: Seq<Seq<char>>, active: Seq<Seq<char>>) -> Seq<Seq<char>>
    decreases existing.len(),
{
    if existing.len() == 0 {
        Seq::empty()
    } else {
        let rest = missing_ids(existing.drop_last(), active);
        if active.contains(existing.last()) {
            rest
        } else {
            rest.push(existing.last())
        }
    }
}

/// Every id of `existing` that the imported snapshot `active` lacks is
/// deprecated, and no other: a full snapshot replaces the catalog.
pub proof fn lemma_missing_ids(existing: Seq<Seq<char>>, active: Seq<Seq<char>>, x: Seq<char>)
    ensures
        missing_ids(existing, active).contains(x) <==> (existing.contains(x) && !active.contains(x)),
    decreases existing.len(),
{
    if existing.len() > 0 {
        let e = existing.drop_last();
        let y = existing.last();
        let rest = missing_ids(e, active);
        lemma_missing_ids(e, active, x);
        assert(existing =~= e.push(y));
        assert(existing.contains(x) <==> (e.contains(x) || x == y)) by {
            if existing.contains(x) && x != y {
                let i = choose|i: int| 0 <= i < existing.len() && existing[i] == x;
                assert(i < e.len());
                assert(e[i] == x);
            }
            if e.contains(x) {
                let i = choose|i: int| 0 <= i < e.len() && e[i] == x;
                assert(existing[i] == x);
            }
            if x == y {
                assert(existing[existing.len() - 1] == x);
            }
        }
        if !active.contains(y) {
            assert(rest.push(y).contains(x) <==> (rest.contains(x) || x == y)) by {
                if rest.push(y).contains(x) && x != y {
                    let i = choose|i: int| 0 <= i < rest.push(y).len() && rest.push(y)[i] == x;
                    assert(i < rest.len());
                    assert(rest[i] == x);
                }
                if rest.contains(x) {
                    let i = choose|i: int| 0 <= i < rest.len() && rest[i] == x;
                    assert(rest.push(y)[i] == x);
                }
                if x == y {
                    assert(rest.push(y)[rest.len() as int] == x);
                }
            }
        }
    }
}

/// The achievements to mark deprecated after importing a full snapshot:
/// those stored (`existing`) that the snapshot (`active`) does not list.
pub fn ids_to_deprecate(existing: &[String], active: &[String]) -> (r: Vec<String>)
    ensures
        views(r@) == missing_ids(views(existing@), views(active@)),
{
    let ghost ev = views(existing@);
    let mut out: Vec<String> = Vec::new();
    let mut i: usize = 0;
    while i < existing.len()
        invariant
            i <= existing@.len(),
            ev == views(existing@),
            views(out@) == missing_ids(ev.take(i as int), views(active@)),
        decreases existing@.len() - i,
    {
        proof {
            assert(ev.take(i + 1).drop_last() =~= ev.take(i as int));
            assert(ev.take(i + 1).last() == existing@[i as int]@);
        }
        let listed = contains_string(active, existing[i].as_str());
        if !listed {
            let ghost before = views(out@);
            out.push(existing[i].clone());
            proof {
                assert(views(out@) =~= before.push(existing@[i as int]@));
            }
        }
        i = i + 1;
    }
    proof {
        assert(ev.take(i as int) =~= ev);
    }
    out
}

/// The id a catalog row is reported under: its trimmed id, unless that
/// is empty.
pub open spec fn row_id(e: AchievementCatalogEntry) -> Seq<char> {
    if trim_seq(e.id@).len() > 0 {
        trim_seq(e.id@)
    } else {
        e.id@
    }
}

/// A result with its issue text as plain characters.
pub open spec fn issue_view(r: Result<AchievementCatalogEntry, String>) -> Result<AchievementCatalogEntry, Seq<char>> {
    match r {
        Ok(n) => Ok(n),
        Err(m) => Err(m@),
    }
}

/// What checking one stored row gives against the ids `before` of the rows
/// before it: the normalised entry, recorded among the ids, or the issue
/// `catalog row <id> has invalid catalog data: <reason>`.
pub open spec fn row_checked(
    entry: AchievementCatalogEntry,
    before: Seq<Seq<char>>,
    out: Result<AchievementCatalogEntry, Seq<char>>,
    after: Seq<Seq<char>>,
) -> bool {
    match out {
        Ok(n) => {
            &&& entry_normalized(Ok::<AchievementCatalogEntry, CatalogError>(n), entry)
            &&& entry_problem(n, before) is None
            &&& after == before.push(n.id@)
        },
        Err(m) => {
            ||| (!entry_ok(entry) && after == before && exists|err: CatalogError|
                entry_normalized(Err::<AchievementCatalogEntry, CatalogError>(err), entry) && m
                    == "catalog row "@ + row_id(entry) + " has invalid catalog data: "@ + err_view::<
                    AchievementCatalogEntry,
                >(Err(err)))
            ||| (entry_ok(entry) && exists|n: AchievementCatalogEntry|
                entry_normalized(Ok::<AchievementCatalogEntry, CatalogError>(n), entry) && (
                entry_problem(n, before) matches Some(p) && m == "catalog row "@ + row_id(entry)
                    + " has invalid catalog data: "@ + p) && after == (if entry_recorded(n, before) {
                    before.push(n.id@)
                } else {
                    before
                }))
        },
    }
}

/// A stored catalog row as the database read gives it.
#[derive(Debug)]
pub enum CatalogRowInput {
    /// The id column could not be read; the reader's message.
    BadId(String),
    /// A column or a JSON field of the row could not be read: the row's id,
    /// what could not be read (such as `source_json`), and the message.
    BadColumn(String, String, String),
    /// The row read as an entry.
    Decoded(AchievementCatalogEntry),
}

/// One step of sorting rows: the outcome of `row` against the ids `before`.
pub open spec fn row_step(
    row: CatalogRowInput,
    before: Seq<Seq<char>>,
    out: Result<AchievementCatalogEntry, Seq<char>>,
    after: Seq<Seq<char>>,
) -> bool {
    match row {
        CatalogRowInput::BadId(m) => out == Err::<AchievementCatalogEntry, Seq<char>>(
            "catalog row with unknown achievement id has invalid id column: "@ + m@,
        ) && after == before,
        CatalogRowInput::BadColumn(id, what, m) => out == Err::<AchievementCatalogEntry, Seq<char>>(
            "catalog row "@ + id@ + " has invalid "@ + what@ + ": "@ + m@,
        ) && after == before,
        CatalogRowInput::Decoded(e) => row_checked(e, before, out, after),
    }
}

/// The rows' outcomes in order, with the ids recorded before each row
/// (`ids[0]` empty).
pub open spec fn rows_trace(
    rows: Seq<CatalogRowInput>,
    outs: Seq<Result<AchievementCatalogEntry, Seq<char>>>,
    ids: Seq<Seq<Seq<char>>>,
) -> bool {
    &&& outs.len() == rows.len()
    &&& ids.len() == rows.len() + 1
    &&& ids[0] == Seq::<Seq<char>>::empty()
    &&& forall|i: int| 0 <= i < rows.len() ==> row_step(#[trigger] rows[i], ids[i], outs[i], ids[i + 1])
}

/// The entries among the outcomes, in order.
pub open spec fn ok_outcomes(outs: Seq<Result<AchievementCatalogEntry, Seq<char>>>) -> Seq<AchievementCatalogEntry>
    decreases outs.len(),
{
    if outs.len() == 0 {
        Seq::empty()
    } else {
        match outs.last() {
            Ok(n) => ok_outcomes(outs.drop_last()).push(n),
            Err(_) => ok_outcomes(outs.drop_last()),
        }
    }
}

/// The issues among the outcomes, in order.
pub open spec fn issue_outcomes(outs: Seq<Result<AchievementCatalogEntry, Seq<char>>>) -> Seq<Seq<char>>
    decreases outs.len(),
{
    if outs.len() == 0 {
        Seq::empty()
    } else {
        match outs.last() {
            Ok(_) => issue_outcomes(outs.drop_last()),
            Err(m) => issue_outcomes(outs.drop_last()).push(m),
        }
    }
}

/// Sorts stored rows into the entries to use and the issues to report, in
/// order: a row that could not be read gives its issue; a decoded row is
/// checked against the ids of the entries before it (see
/// [`check_catalog_row`]).
pub fn sort_catalog_rows(rows: Vec<CatalogRowInput>) -> (r: (Vec<AchievementCatalogEntry>, Vec<String>))
    ensures
        exists|outs: Seq<Result<AchievementCatalogEntry, Seq<char>>>, ids: Seq<Seq<Seq<char>>>|
            #[trigger] rows_trace(rows@, outs, ids) && r.0@ == ok_outcomes(outs) && views(r.1@)
                == issue_outcomes(outs),
{
    let ghost orig = rows@;
    assert(orig.len() <= usize::MAX) by {
        assert(orig.len() == rows.len());
    }
    let mut rest = rows;
    let mut entries: Vec<AchievementCatalogEntry> = Vec::new();
    let mut issues: Vec<String> = Vec::new();
    let mut ids: Vec<String> = Vec::new();
    let ghost mut outs: Seq<Result<AchievementCatalogEntry, Seq<char>>> = Seq::empty();
    let ghost mut idss: Seq<Seq<Seq<char>>> = seq![Seq::<Seq<char>>::empty()];
    let mut k: usize = 0;
    proof {
        assert(orig.skip(0) =~= orig);
        assert(views(ids@) =~= Seq::<Seq<char>>::empty());
        assert(views(issues@) =~= Seq::<Seq<char>>::empty());
    }
    while rest.len() > 0
        invariant
            k <= orig.len(),
            orig.len() <= usize::MAX,
            rest@ == orig.skip(k as int),
            outs.len() == k,
            idss.len() == k + 1,
            idss[0] == Seq::<Seq<char>>::empty(),
            idss[k as int] == views(ids@),
            forall|i: int| 0 <= i < k ==> row_step(#[trigger] orig[i], idss[i], outs[i], idss[i + 1]),
            entries@ == ok_outcomes(outs),
            views(issues@) == issue_outcomes(outs),
        decreases rest@.len(),
    {
        let row = rest.remove(0);
        proof {
            assert(row == orig[k as int]);
            assert(rest@ =~= orig.skip(k + 1));
        }
        let ghost before = views(ids@);
        let ghost out: Result<AchievementCatalogEntry, Seq<char>>;
        match row {
            CatalogRowInput::BadId(m) => {
                let t = cat3("catalog row with unknown achievement id has invalid id column: ", m.as_str(), "");
                proof {
                    reveal_strlit("");
                    assert(t@ =~= "catalog row with unknown achievement id has invalid id column: "@ + m@);
                    out = Err(t@);
                }
                issues.push(t);
            },
            CatalogRowInput::BadColumn(id, what, m) => {
                let t = cat5("catalog row ", id.as_str(), " has invalid ", what.as_str(), ": ");
                let t = cat3(t.as_str(), m.as_str(), "");
                proof {
                    reveal_strlit("");
                    assert(t@ =~= "catalog row "@ + id@ + " has invalid "@ + what@ + ": "@ + m@);
                    out = Err(t@);
                }
                issues.push(t);
            },
            CatalogRowInput::Decoded(e) => {
                let res = check_catalog_row(e, &mut ids);
                proof {
                    out = issue_view(res);
                }
                match res {
                    Ok(n) => entries.push(n),
                    Err(m) => issues.push(m),
                }
            },
        }
        proof {
            let outs2 = outs.push(out);
            let idss2 = idss.push(views(ids@));
            assert(outs2.drop_last() =~= outs);
            assert(row_step(orig[k as int], idss2[k as int], outs2[k as int], idss2[k + 1]));
            assert forall|i: int| 0 <= i < k + 1 implies row_step(#[trigger] orig[i], idss2[i], outs2[i], idss2[i + 1]) by {
                if i < k {
                    assert(idss2[i] == idss[i] && idss2[i + 1] == idss[i + 1] && outs2[i] == outs[i]);
                }
            }
            outs = outs2;
            idss = idss2;
        }
        k = k + 1;
    }
    proof {
        assert(k == orig.len());
        assert(rows_trace(orig, outs, idss));
    }
    (entries, issues)
}

/// A stored catalog row, normalised and checked against the ids of the
/// rows before it: the normalised entry, or the issue to report
/// (`catalog row <id> has invalid catalog data: <reason>`).
pub fn check_catalog_row(entry: AchievementCatalogEntry, ids: &mut Vec<String>) -> (r: Result<
    AchievementCatalogEntry,
    String,
>)
    ensures
        row_checked(entry, views(old(ids)@), issue_view(r), views(final(ids)@)),
{
    let ghost e = entry;
    let raw_id = entry.id.clone();
    let id_chars = chars_of(raw_id.as_str());
    let trimmed = trim_chars(id_chars.as_slice());
    let shown: String = if trimmed.len() > 0 {
        string_of(trimmed.as_slice())
    } else {
        raw_id
    };
    proof {
        assert(shown@ == row_id(e));
    }
    let normalized = normalize_entry(entry);
    match normalized {
        Err(err) => {
            proof {
                lemma_entry_ok(Err::<AchievementCatalogEntry, CatalogError>(err), e);
            }
            let reason = match &err {
                CatalogError::Parse(m) => m.clone(),
            };
            let m = cat3("catalog row ", shown.as_str(), " has invalid catalog data: ");
            let m = cat3(m.as_str(), reason.as_str(), "");
            proof {
                reveal_strlit("");
                assert(m@ =~= "catalog row "@ + row_id(e) + " has invalid catalog data: "@ + err_view::<
                    AchievementCatalogEntry,
                >(Err(err)));
            }
            Err(m)
        },
        Ok(n) => {
            proof {
                lemma_entry_ok(Ok::<AchievementCatalogEntry, CatalogError>(n), e);
            }
            let ghost before = views(ids@);
            match validate_entry(&n, ids) {
                Ok(()) => Ok(n),
                Err(err) => {
                    let reason = match &err {
                        CatalogError::Parse(m) => m.clone(),
                    };
                    let m = cat3("catalog row ", shown.as_str(), " has invalid catalog data: ");
                    let m = cat3(m.as_str(), reason.as_str(), "");
                    proof {
                        reveal_strlit("");
                        assert(m@ =~= "catalog row "@ + row_id(e) + " has invalid catalog data: "@
                            + entry_problem(n, before)->Some_0);
                    }
                    Err(m)
                },
            }
        },
    }
}

} // verus!
