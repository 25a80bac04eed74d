//! Where the game and its documents may be installed.
use vstd::prelude::*;
use crate::text::{chars_of, string_of, trim_seq, views};

verus! {

/// `base` joined with `part` as `Path::join` joins them on this platform.
pub uninterp spec fn joined_path(base: Seq<char>, part: Seq<char>) -> Seq<char>;

/// Whether two paths name the same path as `Path`'s equality sees it (by
/// components).
pub uninterp spec fn same_path(a: Seq<char>, b: Seq<char>) -> bool;

/// `Path::new(base).join(part)` as text. Both are UTF-8, so the text is
/// exact. The contract names the result and claims nothing else.
#[verifier::external_body]
pub(crate) fn join_path(base: &str, part: &str) -> (r: String)
    ensures
        r@ == joined_path(base@, part@),
{
    std::path::Path::new(base).join(part).to_string_lossy().into_owned()
}

/// `Path::new(a) == Path::new(b)`. Equal texts are equal paths; the contract
/// claims nothing else.
#[verifier::external_body]
pub(crate) fn paths_equal(a: &str, b: &str) -> (r: bool)
    ensures
        r == same_path(a@, b@),
        a@ == b@ ==> r,
{
    std::path::Path::new(a) == std::path::Path::new(b)
}

/// The first of each group of `ps` that name the same path, in order.
pub open spec fn dedupe_paths_spec(ps: Seq<Seq<char>>) -> Seq<Seq<char>>
    decreases ps.len(),
{
    if ps.len() == 0 {
        Seq::empty()
    } else {
        let d = dedupe_paths_spec(ps.drop_last());
        if exists|i: int| 0 <= i < d.len() && same_path(#[trigger] d[i], ps.last()) {
            d
        } else {
            d.push(ps.last())
        }
    }
}

/// No two of `ps` are the same text, nor name the same path (the earlier
/// against the later).
pub open spec fn no_repeats(ps: Seq<Seq<char>>) -> bool {
    forall|a: int, b: int|
        0 <= a < b < ps.len() ==> #[trigger] ps[a] != #[trigger] ps[b] && !same_path(ps[a], ps[b])
}

/// Every path of `ps` is kept in `r` as it is, or stands there for a path
/// of `r` that names it.
pub open spec fn covers(r: Seq<Seq<char>>, ps: Seq<Seq<char>>) -> bool {
    forall|k: int|
        0 <= k < ps.len() ==> exists|j: int|
            0 <= j < r.len() && (r[j] == #[trigger] ps[k] || same_path(r[j], ps[k]))
}

/// Every path of `r` is one of `ps`, as it is.
pub open spec fn drawn_from(r: Seq<Seq<char>>, ps: Seq<Seq<char>>) -> bool {
    forall|j: int| 0 <= j < r.len() ==> ps.contains(#[trigger] r[j])
}

/// Drops every path that names the same path as an earlier one.
pub fn dedupe_paths(paths: Vec<String>) -> (r: Vec<String>)
    ensures
        views(r@) == dedupe_paths_spec(views(paths@)),
        no_repeats(views(r@)),
        covers(views(r@), views(paths@)),
        drawn_from(views(r@), views(paths@)),
{
    let ghost pv = views(paths@);
    let mut unique: Vec<String> = Vec::new();
    let mut i: usize = 0;
    proof {
        assert(views(unique@) =~= dedupe_paths_spec(pv.take(0)));
    }
    while i < paths.len()
        invariant
            i <= paths@.len(),
            pv == views(paths@),
            views(unique@) == dedupe_paths_spec(pv.take(i as int)),
            no_repeats(views(unique@)),
            covers(views(unique@), pv.take(i as int)),
            drawn_from(views(unique@), pv.take(i as int)),
        decreases paths@.len() - i,
    {
        let path = &paths[i];
        proof {
            assert(pv.take(i + 1).drop_last() =~= pv.take(i as int));
            assert(pv.take(i + 1).last() == path@);
        }
        let ghost uv = views(unique@);
        let mut j: usize = 0;
        let mut seen = false;
        while j < unique.len()
            invariant
                j <= unique@.len(),
                uv == views(unique@),
                seen == exists|k: int| 0 <= k < j && same_path(#[trigger] uv[k], path@),
                forall|k: int| 0 <= k < j && #[trigger] uv[k] == path@ ==> same_path(uv[k], path@),
            decreases unique@.len() - j,
        {
            if paths_equal(unique[j].as_str(), path.as_str()) {
                assert(same_path(uv[j as int], path@));
                seen = true;
            }
            j = j + 1;
        }
        let ghost next = pv.take(i + 1);
        if !seen {
            unique.push(path.clone());
            proof {
                let u = views(unique@);
                assert(u =~= uv.push(path@));
                assert forall|a: int, b: int| 0 <= a < b < u.len() implies #[trigger] u[a] != #[trigger] u[b]
                    && !same_path(u[a], u[b]) by {
                    if b == uv.len() {
                        assert(u[a] == uv[a]);
                    } else {
                        assert(u[a] == uv[a] && u[b] == uv[b]);
                    }
                }
                assert forall|k: int| 0 <= k < next.len() implies exists|m: int|
                    0 <= m < u.len() && (u[m] == #[trigger] next[k] || same_path(u[m], next[k])) by {
                    if k == i {
                        assert(u[uv.len() as int] == next[k]);
                    } else {
                        assert(next[k] == pv.take(i as int)[k]);
                        let m = choose|m: int|
                            0 <= m < uv.len() && (uv[m] == pv.take(i as int)[k] || same_path(
                                uv[m],
                                pv.take(i as int)[k],
                            ));
                        assert(u[m] == uv[m]);
                    }
                }
                assert forall|m: int| 0 <= m < u.len() implies next.contains(#[trigger] u[m]) by {
                    if m == uv.len() {
                        assert(next[i as int] == u[m]);
                    } else {
                        assert(pv.take(i as int).contains(uv[m]));
                        let k = choose|k: int| 0 <= k < i && pv.take(i as int)[k] == uv[m];
                        assert(next[k] == u[m]);
                    }
                }
            }
        } else {
            proof {
                let u = views(unique@);
                assert(u == uv);
                assert forall|k: int| 0 <= k < next.len() implies exists|m: int|
                    0 <= m < u.len() && (u[m] == #[trigger] next[k] || same_path(u[m], next[k])) by {
                    if k == i {
                        let m = choose|m: int| 0 <= m < uv.len() && same_path(#[trigger] uv[m], path@);
                        assert(same_path(u[m], next[k]));
                    } else {
                        assert(next[k] == pv.take(i as int)[k]);
                        let m = choose|m: int|
                            0 <= m < uv.len() && (uv[m] == pv.take(i as int)[k] || same_path(
                                uv[m],
                                pv.take(i as int)[k],
                            ));
                        assert(u[m] == uv[m]);
                    }
                }
                assert forall|m: int| 0 <= m < u.len() implies next.contains(#[trigger] u[m]) by {
                    assert(pv.take(i as int).contains(uv[m]));
                    let k = choose|k: int| 0 <= k < i && pv.take(i as int)[k] == uv[m];
                    assert(next[k] == u[m]);
                }
            }
        }
        i = i + 1;
    }
    proof {
        assert(pv.take(i as int) =~= pv);
    }
    unique
}

/// The candidates in order: the explicit path, the non-blank values of the
/// environment variables consulted, then the defaults, repeats dropped.
pub open spec fn candidate_paths_spec(
    explicit: Option<Seq<char>>,
    env_values: Seq<Seq<char>>,
    defaults: Seq<Seq<char>>,
) -> Seq<Seq<char>> {
    dedupe_paths_spec(
        (match explicit {
            Some(p) => seq![p],
            None => Seq::empty(),
        }) + non_blank(env_values) + defaults,
    )
}

/// The values that are not blank once trimmed.
pub open spec fn non_blank(vs: Seq<Seq<char>>) -> Seq<Seq<char>>
    decreases vs.len(),
{
    if vs.len() == 0 {
        Seq::empty()
    } else if trim_seq(vs.last()).len() > 0 {
        non_blank(vs.drop_last()).push(vs.last())
    } else {
        non_blank(vs.drop_last())
    }
}

/// Candidate locations: `explicit`, then the values of the consulted
/// environment variables that are set (in order), then `defaults`.
pub fn candidate_paths(explicit: Option<String>, env_values: Vec<String>, defaults: Vec<String>) -> (r:
    Vec<String>)
    ensures
        views(r@) == candidate_paths_spec(
            crate::clausewitz::opt_str_view(explicit),
            views(env_values@),
            views(defaults@),
        ),
{
    let mut candidates: Vec<String> = Vec::new();
    let ghost head = match &explicit {
        Some(p) => seq![p@],
        None => Seq::<Seq<char>>::empty(),
    };
    match explicit {
        Some(p) => candidates.push(p),
        None => {},
    }
    proof {
        assert(views(candidates@) =~= head);
    }
    let ghost ev = views(env_values@);
    let mut i: usize = 0;
    proof {
        assert(ev.take(0) =~= Seq::<Seq<char>>::empty());
        assert(views(candidates@) =~= head + non_blank(ev.take(0)));
    }
    while i < env_values.len()
        invariant
            i <= env_values@.len(),
            ev == views(env_values@),
            views(candidates@) == head + non_blank(ev.take(i as int)),
        decreases env_values@.len() - i,
    {
        let value = &env_values[i];
        proof {
            assert(ev.take(i + 1).drop_last() =~= ev.take(i as int));
            assert(ev.take(i + 1).last() == value@);
        }
        let vc = chars_of(value.as_str());
        let t = crate::text::trim_chars(vc.as_slice());
        let ghost before = views(candidates@);
        if t.len() > 0 {
            candidates.push(value.clone());
            proof {
                assert(views(candidates@) =~= before.push(value@));
            }
        }
        i = i + 1;
    }
    proof {
        assert(ev.take(i as int) =~= ev);
    }
    let mut k: usize = 0;
    let ghost mid = views(candidates@);
    while k < defaults.len()
        invariant
            k <= defaults@.len(),
            views(candidates@) == mid + views(defaults@).take(k as int),
        decreases defaults@.len() - k,
    {
        let ghost before = views(candidates@);
        let c = defaults[k].clone();
        candidates.push(c);
        proof {
            assert(views(candidates@) =~= before.push(c@));
            assert(views(candidates@) =~= mid + views(defaults@).take(k + 1));
        }
        k = k + 1;
    }
    proof {
        assert(views(defaults@).take(k as int) =~= views(defaults@));
    }
    dedupe_paths(candidates)
}

pub open spec fn install_defaults() -> Seq<Seq<char>> {
    seq![
        "C:\\Program Files (x86)\\Steam\\steamapps\\common\\Stellaris"@,
        "/mnt/c/Program Files (x86)/Steam/steamapps/common/Stellaris"@,
        "C:\\Games\\Steam\\steamapps\\common\\Stellaris"@,
        "/mnt/c/Games/Steam/steamapps/common/Stellaris"@,
        "C:\\[GAMES]\\[Steam]\\steamapps\\common\\Stellaris"@,
        "/mnt/c/[GAMES]/[Steam]/steamapps/common/Stellaris"@,
    ]
}

/// Where the game may be installed: `explicit`, then the values of
/// `STELLARIS_INSTALL_PATH` and `PARADOX_STELLARIS_INSTALL_PATH` that are
/// set (`env_values`, in that order), then the usual Steam locations.
pub fn install_candidates(explicit: Option<String>, env_values: Vec<String>) -> (r: Vec<String>)
    ensures
        views(r@) == candidate_paths_spec(
            crate::clausewitz::opt_str_view(explicit),
            views(env_values@),
            install_defaults(),
        ),
{
    let mut defaults: Vec<String> = Vec::new();
    defaults.push("C:\\Program Files (x86)\\Steam\\steamapps\\common\\Stellaris".to_owned());
    defaults.push("/mnt/c/Program Files (x86)/Steam/steamapps/common/Stellaris".to_owned());
    defaults.push("C:\\Games\\Steam\\steamapps\\common\\Stellaris".to_owned());
    defaults.push("/mnt/c/Games/Steam/steamapps/common/Stellaris".to_owned());
    defaults.push("C:\\[GAMES]\\[Steam]\\steamapps\\common\\Stellaris".to_owned());
    defaults.push("/mnt/c/[GAMES]/[Steam]/steamapps/common/Stellaris".to_owned());
    proof {
        assert(views(defaults@) =~= install_defaults());
    }
    candidate_paths(explicit, env_values, defaults)
}

// ── Documents ───────────────────────────────────────────────────────────

/// The character with ASCII upper case lowered.
pub open spec fn ascii_lower_char(c: char) -> char {
    if 'A' <= c && c <= 'Z' {
        ((c as u32) + 32) as char
    } else {
        c
    }
}

pub open spec fn backslash_to_slash(c: char) -> char {
    if c == '\\' {
        '/'
    } else {
        c
    }
}

/// The WSL mount of a Windows path `X:\rest`: `/mnt/x/rest` with `\`
/// turned into `/`.
pub open spec fn spec_wsl_mount(p: Seq<char>) -> Option<Seq<char>> {
    if p.len() >= 3 && (p[0] as u32) < 128 && p[1] == ':' && p[2] == '\\' {
        Some(
            "/mnt/"@ + seq![ascii_lower_char(p[0])] + "/"@ + p.skip(3).map_values(
                |c: char| backslash_to_slash(c),
            ),
        )
    } else {
        None
    }
}

/// Translates a Windows path such as `C:\Users\A` to its WSL mount
/// `/mnt/c/Users/A`; `None` for a path without a drive prefix.
pub fn windows_path_to_wsl_mount(path: &str) -> (r: Option<String>)
    ensures
        crate::clausewitz::opt_str_view(r) == spec_wsl_mount(path@),
{
    let pc = chars_of(path);
    if pc.len() < 3 || (pc[0] as u32) >= 128 || pc[1] != ':' || pc[2] != '\\' {
        return None;
    }
    let c0 = pc[0];
    let drive: char = if 'A' <= c0 && c0 <= 'Z' {
        ((c0 as u8) + 32) as char
    } else {
        c0
    };
    proof {
        assert(drive == ascii_lower_char(c0));
    }
    let mut out: Vec<char> = Vec::new();
    crate::text::push_str_chars(&mut out, "/mnt/");
    out.push(drive);
    crate::text::push_str_chars(&mut out, "/");
    let ghost prefix = out@;
    let mut i: usize = 3;
    while i < pc.len()
        invariant
            3 <= i <= pc@.len(),
            out@ == prefix + pc@.subrange(3, i as int).map_values(|c: char| backslash_to_slash(c)),
        decreases pc@.len() - i,
    {
        let c = pc[i];
        out.push(if c == '\\' { '/' } else { c });
        proof {
            assert(pc@.subrange(3, i + 1).map_values(|c: char| backslash_to_slash(c)) =~= pc@.subrange(
                3,
                i as int,
            ).map_values(|c: char| backslash_to_slash(c)).push(backslash_to_slash(c)));
        }
        i = i + 1;
    }
    proof {
        assert(pc@.subrange(3, i as int) =~= path@.skip(3));
        assert(out@ =~= "/mnt/"@ + seq![ascii_lower_char(path@[0])] + "/"@ + path@.skip(3).map_values(
            |c: char| backslash_to_slash(c),
        ));
    }
    Some(string_of(out.as_slice()))
}

/// `root/Documents/Paradox Interactive/Stellaris`.
pub open spec fn documents_root(root: Seq<char>) -> Seq<char> {
    joined_path(joined_path(joined_path(root, "Documents"@), "Paradox Interactive"@), "Stellaris"@)
}

fn push_documents_root(defaults: &mut Vec<String>, root: &str)
    ensures
        views(final(defaults)@) == views(old(defaults)@).push(documents_root(root@)),
{
    let a = join_path(root, "Documents");
    let b = join_path(a.as_str(), "Paradox Interactive");
    let c = join_path(b.as_str(), "Stellaris");
    let ghost before = views(defaults@);
    defaults.push(c);
    proof {
        assert(views(defaults@) =~= before.push(documents_root(root@)));
    }
}

/// The user folders the documents may be under, in order: the profile and
/// its WSL mount, OneDrive and its WSL mount, then `C:\Users\<user>`,
/// `/mnt/c/Users/<user>` and their `OneDrive` folders.
pub open spec fn documents_roots(
    username: Option<Seq<char>>,
    userprofile: Option<Seq<char>>,
    onedrive: Option<Seq<char>>,
) -> Seq<Seq<char>> {
    (match userprofile {
        Some(p) => seq![p] + match spec_wsl_mount(p) {
            Some(w) => seq![w],
            None => Seq::empty(),
        },
        None => Seq::empty(),
    }) + (match onedrive {
        Some(o) => seq![o] + match spec_wsl_mount(o) {
            Some(w) => seq![w],
            None => Seq::empty(),
        },
        None => Seq::empty(),
    }) + match username {
        Some(u) => seq![
            "C:\\Users\\"@ + u,
            "/mnt/c/Users/"@ + u,
            "C:\\Users\\"@ + u + "\\OneDrive"@,
            "/mnt/c/Users/"@ + u + "/OneDrive"@,
        ],
        None => Seq::empty(),
    }
}

pub open spec fn opt_ref_view(o: Option<&str>) -> Option<Seq<char>> {
    match o {
        Some(s) => Some(s@),
        None => None,
    }
}

/// The default places of the game's documents folder: each user folder of
/// [`documents_roots`] joined with `Documents/Paradox Interactive/Stellaris`,
/// repeats dropped.
pub fn documents_default_candidates(
    username: Option<&str>,
    userprofile: Option<&str>,
    onedrive: Option<&str>,
) -> (r: Vec<String>)
    ensures
        views(r@) == dedupe_paths_spec(
            documents_roots(
                opt_ref_view(username),
                opt_ref_view(userprofile),
                opt_ref_view(onedrive),
            ).map_values(|root: Seq<char>| documents_root(root)),
        ),
{
    let mut roots: Vec<String> = Vec::new();
    if let Some(profile) = userprofile {
        roots.push(profile.to_owned());
        if let Some(wsl) = windows_path_to_wsl_mount(profile) {
            roots.push(wsl);
        }
    }
    if let Some(root) = onedrive {
        roots.push(root.to_owned());
        if let Some(wsl) = windows_path_to_wsl_mount(root) {
            roots.push(wsl);
        }
    }
    if let Some(user) = username {
        roots.push(crate::text::cat3("C:\\Users\\", user, ""));
        roots.push(crate::text::cat3("/mnt/c/Users/", user, ""));
        roots.push(crate::text::cat3("C:\\Users\\", user, "\\OneDrive"));
        roots.push(crate::text::cat3("/mnt/c/Users/", user, "/OneDrive"));
    }
    proof {
        reveal_strlit("");
        assert(views(roots@) =~= documents_roots(
            opt_ref_view(username),
            opt_ref_view(userprofile),
            opt_ref_view(onedrive),
        ));
    }
    let ghost rv = views(roots@);
    let mut defaults: Vec<String> = Vec::new();
    let mut i: usize = 0;
    while i < roots.len()
        invariant
            i <= roots@.len(),
            rv == views(roots@),
            views(defaults@) == rv.take(i as int).map_values(|root: Seq<char>| documents_root(root)),
        decreases roots@.len() - i,
    {
        push_documents_root(&mut defaults, roots[i].as_str());
        proof {
            assert(rv.take(i + 1).map_values(|root: Seq<char>| documents_root(root)) =~= rv.take(
                i as int,
            ).map_values(|root: Seq<char>| documents_root(root)).push(documents_root(rv[i as int])));
        }
        i = i + 1;
    }
    proof {
        assert(rv.take(i as int) =~= rv);
    }
    dedupe_paths(defaults)
}

/// The kind of one component of a path, as `std::path::Component` tells
/// them apart.
#[derive(Clone, Copy, Debug, PartialEq, Eq, Structural)]
pub enum PartKind {
    Prefix,
    RootDir,
    CurDir,
    ParentDir,
    Normal,
}

/// Components as kinds and texts.
pub open spec fn parts_view(ps: Seq<(PartKind, String)>) -> Seq<(PartKind, Seq<char>)> {
    ps.map_values(|p: (PartKind, String)| (p.0, p.1@))
}

/// The components of `path` as `Path::components` splits it on this
/// platform: each one's kind and its text (`Component::as_os_str`).
pub uninterp spec fn path_components(path: Seq<char>) -> Seq<(PartKind, Seq<char>)>;

/// `Path::new(path).components()`, each component converted to its kind and
/// its text. The contract names the result and claims nothing else.
#[verifier::external_body]
fn components_of(path: &str) -> (r: Vec<(PartKind, String)>)
    ensures
        parts_view(r@) == path_components(path@),
{
    let mut out = Vec::new();
    for c in std::path::Path::new(path).components() {
        let kind = match c {
            std::path::Component::Prefix(_) => PartKind::Prefix,
            std::path::Component::RootDir => PartKind::RootDir,
            std::path::Component::CurDir => PartKind::CurDir,
            std::path::Component::ParentDir => PartKind::ParentDir,
            std::path::Component::Normal(_) => PartKind::Normal,
        };
        out.push((kind, c.as_os_str().to_string_lossy().into_owned()));
    }
    out
}

/// The components that remain once `.` is dropped and `..` removes the
/// component before it; `..` does nothing where no named component is left
/// to remove (at the root, or at the start of a relative path).
pub open spec fn kept_parts(ps: Seq<(PartKind, Seq<char>)>) -> Seq<(PartKind, Seq<char>)>
    decreases ps.len(),
{
    if ps.len() == 0 {
        Seq::empty()
    } else {
        let kept = kept_parts(ps.drop_last());
        match ps.last().0 {
            PartKind::CurDir => kept,
            PartKind::ParentDir => if kept.len() > 0 && kept.last().0 == PartKind::Normal {
                kept.drop_last()
            } else {
                kept
            },
            _ => kept.push(ps.last()),
        }
    }
}

/// The path built by joining the texts of `ps` in order onto an empty path.
pub open spec fn rebuilt(ps: Seq<(PartKind, Seq<char>)>) -> Seq<char>
    decreases ps.len(),
{
    if ps.len() == 0 {
        Seq::empty()
    } else {
        joined_path(rebuilt(ps.drop_last()), ps.last().1)
    }
}

/// `s` with every `\` written as `/`.
pub open spec fn forward_slashes(s: Seq<char>) -> Seq<char> {
    s.map_values(|c: char| if c == '\\' { '/' } else { c })
}

/// A path with `.` dropped and `..` applied, written with `/`: the form in
/// which runs and saves are stored.
pub open spec fn spec_normalize_path(path: Seq<char>) -> Seq<char> {
    forward_slashes(rebuilt(kept_parts(path_components(path))))
}

/// No component is `.` or `..`.
pub open spec fn no_dot_parts(ps: Seq<(PartKind, Seq<char>)>) -> bool {
    forall|i: int|
        0 <= i < ps.len() ==> (#[trigger] ps[i]).0 != PartKind::CurDir && ps[i].0 != PartKind::ParentDir
}

/// Normalised components hold no `.` or `..`, and normalising them again
/// changes nothing.
pub proof fn lemma_kept_parts_normal(ps: Seq<(PartKind, Seq<char>)>)
    ensures
        no_dot_parts(kept_parts(ps)),
        kept_parts(kept_parts(ps)) == kept_parts(ps),
    decreases ps.len(),
{
    if ps.len() > 0 {
        lemma_kept_parts_normal(ps.drop_last());
        let k = kept_parts(ps.drop_last());
        assert(no_dot_parts(kept_parts(ps))) by {
            let r = kept_parts(ps);
            assert forall|i: int| 0 <= i < r.len() implies (#[trigger] r[i]).0 != PartKind::CurDir
                && r[i].0 != PartKind::ParentDir by {
                if i < k.len() {
                    assert(r[i] == k[i]);
                }
            }
        }
    }
    lemma_kept_parts_fixed(kept_parts(ps));
}

/// Components without `.` or `..` are kept as they are.
pub proof fn lemma_kept_parts_fixed(qs: Seq<(PartKind, Seq<char>)>)
    requires
        no_dot_parts(qs),
    ensures
        kept_parts(qs) == qs,
    decreases qs.len(),
{
    if qs.len() > 0 {
        let q0 = qs.drop_last();
        assert forall|i: int| 0 <= i < q0.len() implies (#[trigger] q0[i]).0 != PartKind::CurDir
            && q0[i].0 != PartKind::ParentDir by {
            assert(q0[i] == qs[i]);
        }
        lemma_kept_parts_fixed(q0);
        assert(qs.last() == qs[qs.len() - 1]);
        assert(q0.push(qs.last()) =~= qs);
    } else {
        assert(kept_parts(qs) =~= qs);
    }
}

/// The components that remain once `.` is dropped and `..` is applied
/// (see [`kept_parts`]).
pub fn kept_components(parts: &[(PartKind, String)]) -> (r: Vec<(PartKind, String)>)
    ensures
        parts_view(r@) == kept_parts(parts_view(parts@)),
{
    let ghost pv = parts_view(parts@);
    let mut kept: Vec<(PartKind, String)> = Vec::new();
    let mut i: usize = 0;
    proof {
        assert(parts_view(kept@) =~= kept_parts(pv.take(0)));
    }
    while i < parts.len()
        invariant
            i <= parts@.len(),
            pv == parts_view(parts@),
            parts_view(kept@) == kept_parts(pv.take(i as int)),
        decreases parts@.len() - i,
    {
        proof {
            assert(pv.take(i + 1).drop_last() =~= pv.take(i as int));
            assert(pv.take(i + 1).last() == pv[i as int]);
        }
        let ghost before = parts_view(kept@);
        let kind = parts[i].0;
        match kind {
            PartKind::CurDir => {},
            PartKind::ParentDir => {
                if kept.len() > 0 && kept[kept.len() - 1].0 == PartKind::Normal {
                    kept.pop();
                    proof {
                        assert(parts_view(kept@) =~= before.drop_last());
                    }
                }
            },
            _ => {
                let text = parts[i].1.clone();
                kept.push((kind, text));
                proof {
                    assert(parts_view(kept@) =~= before.push(pv[i as int]));
                }
            },
        }
        i = i + 1;
    }
    proof {
        assert(pv.take(i as int) =~= pv);
    }
    kept
}

/// `text` with every `\` written as `/`.
pub fn forward_slash_text(text: &str) -> (r: String)
    ensures
        r@ == forward_slashes(text@),
{
    let cs = chars_of(text);
    let mut out: Vec<char> = Vec::new();
    let mut k: usize = 0;
    while k < cs.len()
        invariant
            k <= cs@.len(),
            out@ == forward_slashes(cs@.take(k as int)),
        decreases cs@.len() - k,
    {
        let c = cs[k];
        out.push(if c == '\\' { '/' } else { c });
        proof {
            assert(out@ =~= forward_slashes(cs@.take(k + 1)));
        }
        k = k + 1;
    }
    proof {
        assert(cs@.take(k as int) =~= cs@);
    }
    string_of(out.as_slice())
}

/// Normalises a path: drops `.`, applies `..`, and writes `/` for `\`.
pub fn normalize_path(path: &str) -> (r: String)
    ensures
        r@ == spec_normalize_path(path@),
{
    let parts = components_of(path);
    let kept = kept_components(parts.as_slice());
    let ghost kv = parts_view(kept@);
    let mut acc = String::new();
    let mut j: usize = 0;
    proof {
        assert(kv.take(0) =~= Seq::<(PartKind, Seq<char>)>::empty());
    }
    while j < kept.len()
        invariant
            j <= kept@.len(),
            kv == parts_view(kept@),
            acc@ == rebuilt(kv.take(j as int)),
        decreases kept@.len() - j,
    {
        proof {
            assert(kv.take(j + 1).drop_last() =~= kv.take(j as int));
            assert(kv.take(j + 1).last() == kv[j as int]);
        }
        acc = join_path(acc.as_str(), kept[j].1.as_str());
        j = j + 1;
    }
    proof {
        assert(kv.take(j as int) =~= kv);
    }
    forward_slash_text(acc.as_str())
}

} // verus!
