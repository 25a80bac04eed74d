//! Deciding whether a downloaded catalog replaces the local one.
use vstd::prelude::*;
use crate::install::{char_from, lemma_char_from, spec_parse_u32, split_from};
use crate::numbers::{all_digits, digits_value, is_digit};
use crate::text::{cat3, chars_of, slice_chars, string_of};

verus! {

/// A `major.minor.patch` version: exactly three dot-separated `u32`s.
pub open spec fn spec_semver(v: Seq<char>) -> Option<(u32, u32, u32)> {
    let parts = split_from(v, '.', 0);
    if parts.len() != 3 {
        None
    } else {
        match (spec_parse_u32(parts[0]), spec_parse_u32(parts[1]), spec_parse_u32(parts[2])) {
            (Some(a), Some(b), Some(c)) => Some((a, b, c)),
            _ => None,
        }
    }
}

/// `(a, b, c)` comes after `(x, y, z)` in version order.
pub open spec fn version_gt(n: (u32, u32, u32), o: (u32, u32, u32)) -> bool {
    n.0 > o.0 || (n.0 == o.0 && (n.1 > o.1 || (n.1 == o.1 && n.2 > o.2)))
}

/// `new` is strictly newer than `old`; false unless both are versions.
pub open spec fn spec_is_newer_version(old: Seq<char>, new: Seq<char>) -> bool {
    match (spec_semver(old), spec_semver(new)) {
        (Some(o), Some(n)) => version_gt(n, o),
        _ => false,
    }
}

fn dot_parts(v: &str) -> (r: Vec<String>)
    ensures
        crate::text::views(r@) == split_from(v@, '.', 0),
{
    let vc = chars_of(v);
    let ghost tv = vc@;
    let mut out: Vec<String> = Vec::new();
    let ghost mut pieces: Seq<Seq<char>> = Seq::empty();
    let mut i: usize = 0;
    proof {
        assert(crate::text::views(out@) =~= pieces);
        assert(split_from(tv, '.', 0) =~= pieces + split_from(tv, '.', 0));
    }
    loop
        invariant
            i <= tv.len(),
            tv == vc@,
            tv == v@,
            crate::text::views(out@) == pieces,
            split_from(tv, '.', 0) == pieces + split_from(tv, '.', i as int),
        decreases tv.len() - i,
    {
        let mut j: usize = i;
        while j < vc.len() && vc[j] != '.'
            invariant
                i <= j <= tv.len(),
                tv == vc@,
                crate::install::char_from(tv, '.', i as int) == crate::install::char_from(
                    tv,
                    '.',
                    j as int,
                ),
            decreases tv.len() - j,
        {
            j = j + 1;
        }
        proof {
            lemma_char_from(tv, '.', i as int);
        }
        let piece = slice_chars(vc.as_slice(), i, j);
        let ghost pv = piece@;
        let ghost before = crate::text::views(out@);
        out.push(string_of(piece.as_slice()));
        proof {
            assert(crate::text::views(out@) =~= before.push(pv));
            assert(pv == tv.subrange(i as int, j as int));
        }
        if j >= vc.len() {
            proof {
                assert(split_from(tv, '.', i as int) =~= seq![pv]);
                pieces = pieces.push(pv);
                assert(split_from(tv, '.', 0) =~= pieces);
            }
            return out;
        }
        proof {
            assert(split_from(tv, '.', i as int) =~= seq![pv] + split_from(tv, '.', j + 1));
            assert(pieces + split_from(tv, '.', i as int) =~= pieces.push(pv) + split_from(
                tv,
                '.',
                j + 1,
            ));
            pieces = pieces.push(pv);
        }
        i = j + 1;
    }
}

fn parse_semver(v: &str) -> (r: Option<(u32, u32, u32)>)
    ensures
        r == spec_semver(v@),
{
    let parts = dot_parts(v);
    if parts.len() != 3 {
        return None;
    }
    proof {
        assert(parts@[0]@ == split_from(v@, '.', 0)[0]);
        assert(parts@[1]@ == split_from(v@, '.', 0)[1]);
        assert(parts@[2]@ == split_from(v@, '.', 0)[2]);
    }
    let a = crate::install::parse_u32(parts[0].as_str());
    let b = crate::install::parse_u32(parts[1].as_str());
    let c = crate::install::parse_u32(parts[2].as_str());
    match (a, b, c) {
        (Some(a), Some(b), Some(c)) => Some((a, b, c)),
        _ => None,
    }
}

/// Whether `new` is a strictly newer `major.minor.patch` version than `old`.
pub fn is_newer_version(old: &str, new: &str) -> (r: bool)
    ensures
        r == spec_is_newer_version(old@, new@),
{
    match (parse_semver(old), parse_semver(new)) {
        (Some(o), Some(n)) => n.0 > o.0 || (n.0 == o.0 && (n.1 > o.1 || (n.1 == o.1 && n.2 > o.2))),
        _ => false,
    }
}

/// Why a catalog sync failed.
#[derive(Debug)]
pub enum CatalogSyncError {
    Http(String),
    Parse(String),
    Database(String),
}

/// What a catalog sync did.
#[derive(Debug)]
pub struct CatalogSyncResult {
    pub updated: bool,
    pub old_version: Option<String>,
    pub new_version: String,
    pub message: String,
}

/// What to do with a downloaded catalog.
#[derive(Debug)]
pub enum CatalogSyncPlan {
    /// Keep the local catalog: the download is not newer.
    UpToDate(CatalogSyncResult),
    /// Import the download; report this once the import succeeded.
    Import(CatalogSyncResult),
}

/// Decides on a downloaded catalog of version `new_version`, given the
/// version of the local catalog (`None` when there is none): a catalog
/// replaces the local one only when it is strictly newer; downgrades and
/// the same version are refused.
pub fn plan_catalog_sync(old_version: Option<&str>, new_version: &str) -> (r: CatalogSyncPlan)
    ensures
        match r {
            CatalogSyncPlan::UpToDate(res) => {
                &&& old_version matches Some(o) && !spec_is_newer_version(o@, new_version@)
                &&& !res.updated
                &&& res.old_version matches Some(ov) && ov@ == old_version->0@
                &&& res.new_version@ == new_version@
                &&& res.message@ == "Catalog is up to date (v"@ + new_version@ + ")"@
            },
            CatalogSyncPlan::Import(res) => {
                &&& (old_version matches Some(o) ==> spec_is_newer_version(o@, new_version@))
                &&& res.updated
                &&& crate::clausewitz::opt_str_view(res.old_version) == match old_version {
                    Some(o) => Some(o@),
                    None => None,
                }
                &&& res.new_version@ == new_version@
                &&& res.message@ == "Catalog updated to v"@ + new_version@
            },
        },
{
    if let Some(old) = old_version {
        if !is_newer_version(old, new_version) {
            return CatalogSyncPlan::UpToDate(
                CatalogSyncResult {
                    updated: false,
                    old_version: Some(old.to_owned()),
                    new_version: new_version.to_owned(),
                    message: cat3("Catalog is up to date (v", new_version, ")"),
                },
            );
        }
    }
    let message = cat3("Catalog updated to v", new_version, "");
    proof {
        reveal_strlit("");
        assert(message@ =~= "Catalog updated to v"@ + new_version@);
    }
    CatalogSyncPlan::Import(
        CatalogSyncResult {
            updated: true,
            old_version: match old_version {
                Some(o) => Some(o.to_owned()),
                None => None,
            },
            new_version: new_version.to_owned(),
            message,
        },
    )
}


/// "Newer" is a strict order on versions: no version is newer than itself,
/// of two versions at most one is newer than the other, and it is
/// transitive; anything that is not a version is never newer nor older.
pub proof fn lemma_newer_version_is_strict_order(a: Seq<char>, b: Seq<char>, c: Seq<char>)
    ensures
        !spec_is_newer_version(a, a),
        spec_is_newer_version(a, b) ==> !spec_is_newer_version(b, a),
        spec_is_newer_version(a, b) && spec_is_newer_version(b, c) ==> spec_is_newer_version(a, c),
        spec_semver(a) is None ==> !spec_is_newer_version(a, b) && !spec_is_newer_version(b, a),
{
}

/// Versions are ordered by major number first, then minor, then patch: a
/// higher major is newer and a lower one older whatever follows; with equal
/// majors a higher minor is newer and a lower one older whatever the
/// patches; with equal major and minor the patch decides.
pub proof fn lemma_newer_version_order(old: Seq<char>, new: Seq<char>)
    ensures
        (spec_semver(old), spec_semver(new)) matches (Some(o), Some(n)) ==> {
            &&& (n.0 > o.0 ==> spec_is_newer_version(old, new))
            &&& (n.0 < o.0 ==> !spec_is_newer_version(old, new))
            &&& (n.0 == o.0 && n.1 > o.1 ==> spec_is_newer_version(old, new))
            &&& (n.0 == o.0 && n.1 < o.1 ==> !spec_is_newer_version(old, new))
            &&& (n.0 == o.0 && n.1 == o.1 ==> (spec_is_newer_version(old, new) <==> n.2 > o.2))
        },
        spec_semver(old) is None || spec_semver(new) is None ==> !spec_is_newer_version(old, new),
{
}

proof fn lemma_char_from_at(s: Seq<char>, c: char, i: int, n: int)
    requires
        0 <= i <= n <= s.len(),
        forall|k: int| i <= k < n ==> s[k] != c,
        n == s.len() || s[n] == c,
    ensures
        char_from(s, c, i) == n,
    decreases n - i,
{
    if i < n {
        lemma_char_from_at(s, c, i + 1, n);
    }
}

proof fn lemma_split_shift(x: Seq<char>, y: Seq<char>, c: char, i: int)
    requires
        x.len() <= i <= x.len() + y.len(),
    ensures
        split_from(x + y, c, i) == split_from(y, c, i - x.len()),
    decreases x.len() + y.len() - i,
{
    let s = x + y;
    let n = x.len() as int;
    lemma_char_from(s, c, i);
    lemma_char_from(y, c, i - n);
    let j = char_from(y, c, i - n) + n;
    assert forall|k: int| i <= k < j implies s[k] != c by {
        assert(s[k] == y[k - n]);
        lemma_char_from_before(y, c, i - n, k - n);
    }
    if j < s.len() {
        assert(s[j] == y[j - n]);
    }
    lemma_char_from_at(s, c, i, j);
    if j >= s.len() {
        assert(s.subrange(i, s.len() as int) =~= y.subrange(i - n, y.len() as int));
    } else {
        assert(s.subrange(i, j) =~= y.subrange(i - n, j - n));
        lemma_split_shift(x, y, c, j + 1);
    }
}

proof fn lemma_char_from_before(s: Seq<char>, c: char, i: int, k: int)
    requires
        0 <= i <= k < char_from(s, c, i),
        i <= s.len(),
    ensures
        s[k] != c,
    decreases s.len() - i,
{
    if i < s.len() && s[i] != c && k > i {
        lemma_char_from_before(s, c, i + 1, k);
    }
}

proof fn lemma_digits_have_no_dot(w: Seq<char>)
    requires
        all_digits(w),
    ensures
        forall|k: int| 0 <= k < w.len() ==> w[k] != '.',
{
    assert forall|k: int| 0 <= k < w.len() implies w[k] != '.' by {
        assert(is_digit(w[k]));
    }
}

proof fn lemma_split_digits_then(w: Seq<char>, r: Seq<char>)
    requires
        all_digits(w),
    ensures
        split_from(w.push('.') + r, '.', 0) == seq![w] + split_from(r, '.', 0),
{
    let s = w.push('.') + r;
    lemma_digits_have_no_dot(w);
    assert forall|k: int| 0 <= k < w.len() implies s[k] != '.' by {
        assert(s[k] == w[k]);
    }
    assert(s[w.len() as int] == '.');
    lemma_char_from_at(s, '.', 0, w.len() as int);
    assert(s.subrange(0, w.len() as int) =~= w);
    lemma_split_shift(w.push('.'), r, '.', (w.len() + 1) as int);
}

proof fn lemma_split_digits(w: Seq<char>)
    requires
        all_digits(w),
    ensures
        split_from(w, '.', 0) == seq![w],
{
    lemma_digits_have_no_dot(w);
    lemma_char_from_at(w, '.', 0, w.len() as int);
    assert(w.subrange(0, w.len() as int) =~= w);
}

/// A version `a.b.c` written with three runs of digits reads as the three
/// numbers in that order: major `a`, minor `b`, patch `c`.
pub proof fn lemma_semver_reads_parts(a: Seq<char>, b: Seq<char>, c: Seq<char>)
    requires
        a.len() > 0 && all_digits(a) && digits_value(a) <= u32::MAX,
        b.len() > 0 && all_digits(b) && digits_value(b) <= u32::MAX,
        c.len() > 0 && all_digits(c) && digits_value(c) <= u32::MAX,
    ensures
        spec_semver(a + "."@ + b + "."@ + c) == Some(
            (digits_value(a) as u32, digits_value(b) as u32, digits_value(c) as u32),
        ),
{
    reveal_strlit(".");
    let v = a + "."@ + b + "."@ + c;
    assert(v =~= a.push('.') + (b.push('.') + c));
    lemma_split_digits_then(a, b.push('.') + c);
    lemma_split_digits_then(b, c);
    lemma_split_digits(c);
    let parts = split_from(v, '.', 0);
    assert(parts =~= seq![a, b, c]);
    assert(is_digit(a[0]) && is_digit(b[0]) && is_digit(c[0]));
}

} // verus!
