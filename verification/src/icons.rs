//! The achievement icon cache: icons are PNG files named after the
//! achievement id in an `icons` folder of the app's data directory.
use vstd::prelude::*;
use crate::paths::{join_path, joined_path};
use crate::text::{chars_of, contains_seq, ends_with_seq, str_contains, string_of, views};

verus! {

/// Unicode alphanumeric (`char::is_alphanumeric`: alphabetic or numeric).
pub uninterp spec fn alphanumeric(c: char) -> bool;

/// `char::is_alphanumeric`. The contract names the result and claims
/// nothing else.
#[verifier::external_body]
fn char_is_alphanumeric(c: char) -> (r: bool)
    ensures
        r == alphanumeric(c),
{
    c.is_alphanumeric()
}

/// A character allowed in an icon file name.
pub open spec fn allowed_id_char(c: char) -> bool {
    alphanumeric(c) || c == '_' || c == '-' || c == '.'
}

/// An achievement id is safe as a file name: not empty, no `/`, `\`, `..`
/// or NUL, and only alphanumerics, `_`, `-` and `.`.
pub open spec fn safe_id(id: Seq<char>) -> bool {
    &&& id.len() > 0
    &&& !id.contains('/')
    &&& !id.contains('\\')
    &&& !contains_seq(id, ".."@)
    &&& !id.contains('\0')
    &&& forall|i: int| 0 <= i < id.len() ==> allowed_id_char(#[trigger] id[i])
}

fn has_char(s: &Vec<char>, c: char) -> (r: bool)
    ensures
        r == s@.contains(c),
{
    let mut i: usize = 0;
    while i < s.len()
        invariant
            i <= s@.len(),
            forall|k: int| 0 <= k < i ==> s@[k] != c,
        decreases s@.len() - i,
    {
        if s[i] == c {
            assert(s@[i as int] == c);
            return true;
        }
        i = i + 1;
    }
    false
}

/// `id` is safe as a file name, where `alnum[i]` tells whether `id[i]` is
/// alphanumeric.
pub open spec fn safe_with_classes(id: Seq<char>, alnum: Seq<bool>) -> bool {
    &&& id.len() > 0
    &&& !id.contains('/')
    &&& !id.contains('\\')
    &&& !contains_seq(id, ".."@)
    &&& !id.contains('\0')
    &&& forall|i: int|
        0 <= i < id.len() ==> (#[trigger] alnum[i] || id[i] == '_' || id[i] == '-' || id[i] == '.')
}

/// The id itself when it is safe as a file name component, else `None`;
/// `alnum` holds, for each character of `id`, whether it is alphanumeric.
pub fn sanitize_with_classes(id: &str, alnum: &[bool]) -> (r: Option<String>)
    requires
        alnum@.len() == id@.len(),
    ensures
        match r {
            Some(s) => s@ == id@ && safe_with_classes(id@, alnum@),
            None => !safe_with_classes(id@, alnum@),
        },
{
    let ic = chars_of(id);
    if ic.len() == 0 {
        return None;
    }
    if has_char(&ic, '/') || has_char(&ic, '\\') || str_contains(id, "..") || has_char(&ic, '\0') {
        return None;
    }
    let mut i: usize = 0;
    while i < ic.len()
        invariant
            i <= ic@.len(),
            ic@ == id@,
            alnum@.len() == id@.len(),
            forall|k: int| 0 <= k < i ==> (#[trigger] alnum@[k] || ic@[k] == '_' || ic@[k] == '-' || ic@[k] == '.'),
        decreases ic@.len() - i,
    {
        let c = ic[i];
        if !(alnum[i] || c == '_' || c == '-' || c == '.') {
            assert(!(alnum@[i as int] || id@[i as int] == '_' || id@[i as int] == '-' || id@[i as int] == '.'));
            return None;
        }
        i = i + 1;
    }
    Some(id.to_owned())
}

/// The id itself when it is safe as a file name component, else `None`.
pub fn sanitize_id(id: &str) -> (r: Option<String>)
    ensures
        match r {
            Some(s) => s@ == id@ && safe_id(id@),
            None => !safe_id(id@),
        },
{
    let ic = chars_of(id);
    let mut alnum: Vec<bool> = Vec::new();
    let mut i: usize = 0;
    while i < ic.len()
        invariant
            i <= ic@.len(),
            ic@ == id@,
            alnum@.len() == i,
            forall|k: int| 0 <= k < i ==> #[trigger] alnum@[k] == alphanumeric(id@[k]),
        decreases ic@.len() - i,
    {
        alnum.push(char_is_alphanumeric(ic[i]));
        i = i + 1;
    }
    let r = sanitize_with_classes(id, alnum.as_slice());
    proof {
        assert(safe_with_classes(id@, alnum@) == safe_id(id@)) by {
            assert forall|k: int| 0 <= k < id@.len() implies (alnum@[k] || id@[k] == '_' || id@[k] == '-'
                || id@[k] == '.') == allowed_id_char(#[trigger] id@[k]) by {
                assert(alnum@[k] == alphanumeric(id@[k]));
            }
        }
    }
    r
}

/// The icon cache rooted in an app data directory.
#[derive(Debug)]
pub struct IconCache {
    pub cache_dir: String,
}

impl IconCache {
    /// The cache in the `icons` folder of `app_data_dir`.
    pub fn new(app_data_dir: &str) -> (r: Self)
        ensures
            r.cache_dir@ == joined_path(app_data_dir@, "icons"@),
    {
        IconCache { cache_dir: join_path(app_data_dir, "icons") }
    }

    /// Where the icon of `achievement_id` is kept: `<id>.png` in the cache
    /// folder; `None` for an id that is not safe as a file name.
    pub fn icon_path(&self, achievement_id: &str) -> (r: Option<String>)
        ensures
            match r {
                Some(p) => safe_id(achievement_id@) && p@ == joined_path(
                    self.cache_dir@,
                    achievement_id@ + ".png"@,
                ),
                None => !safe_id(achievement_id@),
            },
    {
        let safe = match sanitize_id(achievement_id) {
            Some(s) => s,
            None => return None,
        };
        let name = crate::text::cat3(safe.as_str(), ".png", "");
        proof {
            reveal_strlit("");
            assert(name@ =~= achievement_id@ + ".png"@);
        }
        Some(join_path(self.cache_dir.as_str(), name.as_str()))
    }
}

/// The ids of the cached icons, from the file names in the cache folder:
/// each name ending with `.png`, without it, in order.
pub open spec fn ids_of_names(names: Seq<Seq<char>>) -> Seq<Seq<char>>
    decreases names.len(),
{
    if names.len() == 0 {
        Seq::empty()
    } else {
        let rest = ids_of_names(names.drop_last());
        let n = names.last();
        if ends_with_seq(n, ".png"@) {
            rest.push(n.take(n.len() - ".png"@.len()))
        } else {
            rest
        }
    }
}

/// The achievement ids among the file names of the cache folder.
pub fn cached_ids_from_names(names: &[String]) -> (r: Vec<String>)
    ensures
        views(r@) == ids_of_names(views(names@)),
{
    let ghost nv = views(names@);
    let suffix = chars_of(".png");
    let mut out: Vec<String> = Vec::new();
    let mut i: usize = 0;
    proof {
        assert(views(out@) =~= ids_of_names(nv.take(0)));
    }
    while i < names.len()
        invariant
            i <= names@.len(),
            nv == views(names@),
            suffix@ == ".png"@,
            views(out@) == ids_of_names(nv.take(i as int)),
        decreases names@.len() - i,
    {
        proof {
            assert(nv.take(i + 1).drop_last() =~= nv.take(i as int));
            assert(nv.take(i + 1).last() == names@[i as int]@);
        }
        let nc = chars_of(names[i].as_str());
        if crate::text::chars_ends_with(nc.as_slice(), suffix.as_slice()) {
            let id = crate::text::slice_chars(nc.as_slice(), 0, nc.len() - suffix.len());
            let ghost before = views(out@);
            out.push(string_of(id.as_slice()));
            proof {
                assert(views(out@) =~= before.push(id@));
            }
        }
        i = i + 1;
    }
    proof {
        assert(nv.take(i as int) =~= nv);
    }
    out
}

/// What an icon sync did.
#[derive(Debug)]
pub struct IconSyncResult {
    pub synced: u32,
    pub failed: u32,
    pub total: u32,
    pub message: String,
}

/// Icons come from the Steam client, which this build does not talk to: the
/// sync always reports that it needs Windows with Steam running.
pub fn sync_icons_from_steam(cache: &IconCache, steam_api_names: &[(String, String)]) -> (r: Result<
    IconSyncResult,
    String,
>)
    ensures
        r matches Err(e) && e@ == "Icon sync from Steam requires Windows with Steam client running"@,
{
    Err("Icon sync from Steam requires Windows with Steam client running".to_owned())
}


/// An icon stored for an id (as `<id>.png`) is listed under that id again:
/// the names of the cache folder give back the ids they were stored for.
pub proof fn lemma_cached_id_round_trip(names: Seq<Seq<char>>, id: Seq<char>)
    ensures
        ids_of_names(names.push(id + ".png"@)) == ids_of_names(names).push(id),
{
    let n = id + ".png"@;
    assert(names.push(n).drop_last() =~= names);
    assert(n.skip(n.len() - ".png"@.len()) =~= ".png"@);
    assert(ends_with_seq(n, ".png"@));
    assert(n.take(n.len() - ".png"@.len()) =~= id);
}

} // verus!
