//! Whether a save can still earn achievements, judged conservatively from
//! the save's own flags and the mods enabled locally.
use vstd::prelude::*;
use crate::model::{ChecksumScope, LauncherModSummary};
use crate::numbers::{decimal, decimal_string};
use crate::save::SaveSummary;
use crate::text::{cat3, views};

verus! {

/// The conclusion about a save's achievement eligibility.
#[derive(Debug, Clone, Copy, Default, PartialEq, Eq, Structural)]
pub enum EligibilityConclusion {
    LikelyEligible,
    LikelyIneligible,
    #[default]
    Unknown,
}

/// How far enabled mods put the game checksum at risk.
#[derive(Debug, Clone, Copy, Default, PartialEq, Eq, Structural)]
pub enum ModChecksumRisk {
    NoRisk,
    #[default]
    Unknown,
    /// An enabled mod overlaps checksum-scoped game paths. Nothing detects
    /// this yet: mod contents are not inventoried.
    ChecksumScoped,
}

/// The eligibility of a save, with the reasons and warnings behind it.
#[derive(Debug, Default)]
pub struct SaveEligibility {
    pub conclusion: EligibilityConclusion,
    pub cheated_on_save: Option<bool>,
    pub ironman: Option<bool>,
    pub mod_risk: ModChecksumRisk,
    pub reasons: Vec<String>,
    pub warnings: Vec<String>,
}

pub open spec fn has_entries(n: Option<nat>) -> bool {
    match n {
        Some(k) => k > 0,
        None => false,
    }
}

/// The checksum risk of the enabled mods, given how many the launcher and
/// `dlc_load.json` list (`None` when a source is unavailable): no risk only
/// when both sources are known and empty.
pub open spec fn spec_mod_risk(launcher: Option<nat>, dlc_load: Option<nat>) -> ModChecksumRisk {
    if has_entries(launcher) || has_entries(dlc_load) {
        ModChecksumRisk::Unknown
    } else if launcher == Some(0nat) && dlc_load == Some(0nat) {
        ModChecksumRisk::NoRisk
    } else {
        ModChecksumRisk::Unknown
    }
}

/// Likely ineligible when the save reports cheating or a mod touches
/// checksummed files; likely eligible when it reports no cheating and no
/// mod is enabled; unknown otherwise.
pub open spec fn spec_conclude(cheated: Option<bool>, risk: ModChecksumRisk) -> EligibilityConclusion {
    if cheated == Some(true) || risk == ModChecksumRisk::ChecksumScoped {
        EligibilityConclusion::LikelyIneligible
    } else if cheated == Some(false) && risk == ModChecksumRisk::NoRisk {
        EligibilityConclusion::LikelyEligible
    } else {
        EligibilityConclusion::Unknown
    }
}

pub open spec fn opt_len<T>(o: Option<&[T]>) -> Option<nat> {
    match o {
        Some(s) => Some(s@.len()),
        None => None,
    }
}

/// The checksum risk of the enabled mods.
pub fn classify_mod_risk(
    launcher_enabled_mods: Option<&[LauncherModSummary]>,
    dlc_load_enabled_mods: Option<&[String]>,
    checksum_scopes: &[ChecksumScope],
) -> (r: ModChecksumRisk)
    ensures
        r == spec_mod_risk(opt_len(launcher_enabled_mods), opt_len(dlc_load_enabled_mods)),
{
    let launcher_has = match launcher_enabled_mods {
        Some(m) => m.len() > 0,
        None => false,
    };
    let dlc_has = match dlc_load_enabled_mods {
        Some(m) => m.len() > 0,
        None => false,
    };
    if launcher_has || dlc_has {
        return ModChecksumRisk::Unknown;
    }
    match (launcher_enabled_mods, dlc_load_enabled_mods) {
        (Some(_), Some(_)) => ModChecksumRisk::NoRisk,
        _ => ModChecksumRisk::Unknown,
    }
}

/// The conclusion from the cheat flag and the mod risk.
pub fn conclude(cheated_on_save: Option<bool>, mod_risk: &ModChecksumRisk) -> (r: EligibilityConclusion)
    ensures
        r == spec_conclude(cheated_on_save, *mod_risk),
{
    if cheated_on_save == Some(true) || *mod_risk == ModChecksumRisk::ChecksumScoped {
        return EligibilityConclusion::LikelyIneligible;
    }
    if cheated_on_save == Some(false) && *mod_risk == ModChecksumRisk::NoRisk {
        return EligibilityConclusion::LikelyEligible;
    }
    EligibilityConclusion::Unknown
}

/// What the cheat flag adds: `(reasons, warnings)`.
pub open spec fn cheat_notes(cheated: Option<bool>) -> (Seq<Seq<char>>, Seq<Seq<char>>) {
    match cheated {
        Some(true) => (seq!["Save reports cheated_on_save=yes."@], Seq::empty()),
        Some(false) => (seq!["Save reports cheated_on_save=no."@], Seq::empty()),
        None => (Seq::empty(), seq!["Save did not expose a cheated_on_save flag."@]),
    }
}

/// What the ironman flag adds: `(reasons, warnings)`.
pub open spec fn ironman_notes(ironman: Option<bool>) -> (Seq<Seq<char>>, Seq<Seq<char>>) {
    match ironman {
        Some(true) => (seq!["Save reports ironman=yes."@], Seq::empty()),
        Some(false) => (
            Seq::empty(),
            seq!["Save reports ironman=no; this is metadata, not a global achievement blocker."@],
        ),
        None => (Seq::empty(), seq!["Save did not expose an ironman flag."@]),
    }
}

pub open spec fn max_nat(a: nat, b: nat) -> nat {
    if a >= b {
        a
    } else {
        b
    }
}

pub open spec fn or_zero(n: Option<nat>) -> nat {
    match n {
        Some(k) => k,
        None => 0,
    }
}

/// What the mod risk adds: `(reasons, warnings)`.
pub open spec fn mod_notes(risk: ModChecksumRisk, launcher: Option<nat>, dlc_load: Option<nat>) -> (
    Seq<Seq<char>>,
    Seq<Seq<char>>,
) {
    match risk {
        ModChecksumRisk::NoRisk => (seq!["No enabled launcher mods were detected."@], Seq::empty()),
        ModChecksumRisk::Unknown => {
            let count = max_nat(or_zero(launcher), or_zero(dlc_load));
            if count > 0 {
                (
                    Seq::empty(),
                    seq![
                        decimal(count)
                            + " enabled launcher mod(s) detected; checksum impact is unvalidated."@,
                    ],
                )
            } else if launcher is None && dlc_load is None {
                (Seq::empty(), seq!["Launcher mod state is unavailable."@])
            } else {
                (
                    Seq::empty(),
                    seq![
                        "Launcher mod state is incomplete or ambiguous; checksum impact is unknown."@,
                    ],
                )
            }
        },
        ModChecksumRisk::ChecksumScoped => (
            Seq::empty(),
            seq!["At least one enabled mod appears to overlap checksum-scoped game paths."@],
        ),
    }
}

fn push_text(v: &mut Vec<String>, s: &str)
    ensures
        views(final(v)@) == views(old(v)@).push(s@),
{
    let ghost before = views(v@);
    v.push(s.to_owned());
    proof {
        assert(views(v@) =~= before.push(s@));
    }
}

/// Notes the cheat flag.
pub fn record_cheat_signal(cheated_on_save: Option<bool>, reasons: &mut Vec<String>, warnings: &mut Vec<String>)
    ensures
        views(final(reasons)@) == views(old(reasons)@) + cheat_notes(cheated_on_save).0,
        views(final(warnings)@) == views(old(warnings)@) + cheat_notes(cheated_on_save).1,
{
    let ghost r0 = views(reasons@);
    let ghost w0 = views(warnings@);
    match cheated_on_save {
        Some(true) => push_text(reasons, "Save reports cheated_on_save=yes."),
        Some(false) => push_text(reasons, "Save reports cheated_on_save=no."),
        None => push_text(warnings, "Save did not expose a cheated_on_save flag."),
    }
    proof {
        assert(views(reasons@) =~= r0 + cheat_notes(cheated_on_save).0);
        assert(views(warnings@) =~= w0 + cheat_notes(cheated_on_save).1);
    }
}

/// Notes the ironman flag.
pub fn record_ironman_signal(ironman: Option<bool>, reasons: &mut Vec<String>, warnings: &mut Vec<String>)
    ensures
        views(final(reasons)@) == views(old(reasons)@) + ironman_notes(ironman).0,
        views(final(warnings)@) == views(old(warnings)@) + ironman_notes(ironman).1,
{
    let ghost r0 = views(reasons@);
    let ghost w0 = views(warnings@);
    match ironman {
        Some(true) => push_text(reasons, "Save reports ironman=yes."),
        Some(false) => push_text(
            warnings,
            "Save reports ironman=no; this is metadata, not a global achievement blocker.",
        ),
        None => push_text(warnings, "Save did not expose an ironman flag."),
    }
    proof {
        assert(views(reasons@) =~= r0 + ironman_notes(ironman).0);
        assert(views(warnings@) =~= w0 + ironman_notes(ironman).1);
    }
}

/// Notes the mod risk.
pub fn record_mod_signal(
    mod_risk: &ModChecksumRisk,
    launcher_enabled_mods: Option<&[LauncherModSummary]>,
    dlc_load_enabled_mods: Option<&[String]>,
    reasons: &mut Vec<String>,
    warnings: &mut Vec<String>,
)
    ensures
        views(final(reasons)@) == views(old(reasons)@) + mod_notes(
            *mod_risk,
            opt_len(launcher_enabled_mods),
            opt_len(dlc_load_enabled_mods),
        ).0,
        views(final(warnings)@) == views(old(warnings)@) + mod_notes(
            *mod_risk,
            opt_len(launcher_enabled_mods),
            opt_len(dlc_load_enabled_mods),
        ).1,
{
    let ghost r0 = views(reasons@);
    let ghost w0 = views(warnings@);
    let ghost notes = mod_notes(
        *mod_risk,
        opt_len(launcher_enabled_mods),
        opt_len(dlc_load_enabled_mods),
    );
    match mod_risk {
        ModChecksumRisk::NoRisk => push_text(reasons, "No enabled launcher mods were detected."),
        ModChecksumRisk::Unknown => {
            let launcher_count: usize = match launcher_enabled_mods {
                Some(m) => m.len(),
                None => 0,
            };
            let dlc_load_count: usize = match dlc_load_enabled_mods {
                Some(m) => m.len(),
                None => 0,
            };
            let count = if launcher_count >= dlc_load_count {
                launcher_count
            } else {
                dlc_load_count
            };
            if count > 0 {
                let n = decimal_string(count);
                let ghost before = views(warnings@);
                let m = cat3(
                    n.as_str(),
                    " enabled launcher mod(s) detected; checksum impact is unvalidated.",
                    "",
                );
                proof {
                    reveal_strlit("");
                    assert(m@ =~= decimal(count as nat)
                        + " enabled launcher mod(s) detected; checksum impact is unvalidated."@);
                }
                push_text(warnings, m.as_str());
            } else if launcher_enabled_mods.is_none() && dlc_load_enabled_mods.is_none() {
                push_text(warnings, "Launcher mod state is unavailable.");
            } else {
                push_text(
                    warnings,
                    "Launcher mod state is incomplete or ambiguous; checksum impact is unknown.",
                );
            }
        },
        ModChecksumRisk::ChecksumScoped => push_text(
            warnings,
            "At least one enabled mod appears to overlap checksum-scoped game paths.",
        ),
    }
    proof {
        assert(views(reasons@) =~= r0 + notes.0);
        assert(views(warnings@) =~= w0 + notes.1);
    }
}

/// The eligibility of `save` given the locally enabled mods: the conclusion
/// of [`spec_conclude`] with the notes of the cheat flag, the ironman flag
/// and the mod risk, in that order.
pub fn compute_save_eligibility(
    save: &SaveSummary,
    launcher_enabled_mods: Option<&[LauncherModSummary]>,
    dlc_load_enabled_mods: Option<&[String]>,
    checksum_scopes: &[ChecksumScope],
) -> (r: SaveEligibility)
    ensures
        r.mod_risk == spec_mod_risk(opt_len(launcher_enabled_mods), opt_len(dlc_load_enabled_mods)),
        r.conclusion == spec_conclude(save.cheated_on_save, r.mod_risk),
        r.cheated_on_save == save.cheated_on_save,
        r.ironman == save.ironman,
        views(r.reasons@) == cheat_notes(save.cheated_on_save).0 + ironman_notes(save.ironman).0
            + mod_notes(r.mod_risk, opt_len(launcher_enabled_mods), opt_len(dlc_load_enabled_mods)).0,
        views(r.warnings@) == cheat_notes(save.cheated_on_save).1 + ironman_notes(save.ironman).1
            + mod_notes(r.mod_risk, opt_len(launcher_enabled_mods), opt_len(dlc_load_enabled_mods)).1,
{
    let mod_risk = classify_mod_risk(launcher_enabled_mods, dlc_load_enabled_mods, checksum_scopes);
    let mut reasons: Vec<String> = Vec::new();
    let mut warnings: Vec<String> = Vec::new();
    proof {
        assert(views(reasons@) =~= Seq::<Seq<char>>::empty());
        assert(views(warnings@) =~= Seq::<Seq<char>>::empty());
    }
    record_cheat_signal(save.cheated_on_save, &mut reasons, &mut warnings);
    record_ironman_signal(save.ironman, &mut reasons, &mut warnings);
    record_mod_signal(
        &mod_risk,
        launcher_enabled_mods,
        dlc_load_enabled_mods,
        &mut reasons,
        &mut warnings,
    );
    let conclusion = conclude(save.cheated_on_save, &mod_risk);
    SaveEligibility {
        conclusion,
        cheated_on_save: save.cheated_on_save,
        ironman: save.ironman,
        mod_risk,
        reasons,
        warnings,
    }
}

/// The eligibility laws: a save that reports cheating is likely ineligible
/// and nothing else makes it so today; a save is likely eligible exactly
/// when it reports no cheating and both mod sources are known to be empty.
/// The ironman flag plays no part in the conclusion.
pub proof fn lemma_eligibility_laws(cheated: Option<bool>, launcher: Option<nat>, dlc_load: Option<nat>)
    ensures
        (spec_conclude(cheated, spec_mod_risk(launcher, dlc_load))
            == EligibilityConclusion::LikelyIneligible) <==> cheated == Some(true),
        (spec_conclude(cheated, spec_mod_risk(launcher, dlc_load))
            == EligibilityConclusion::LikelyEligible) <==> (cheated == Some(false) && launcher
            == Some(0nat) && dlc_load == Some(0nat)),
{
}


/// `r` is the eligibility of `save` given how many mods the launcher and
/// `dlc_load.json` enable (`None` when a source is unavailable).
pub open spec fn eligibility_of(r: SaveEligibility, save: SaveSummary, launcher: Option<nat>, dlc_load: Option<nat>) -> bool {
    &&& r.mod_risk == spec_mod_risk(launcher, dlc_load)
    &&& r.conclusion == spec_conclude(save.cheated_on_save, r.mod_risk)
    &&& r.cheated_on_save == save.cheated_on_save
    &&& r.ironman == save.ironman
    &&& views(r.reasons@) == cheat_notes(save.cheated_on_save).0 + ironman_notes(save.ironman).0 + mod_notes(
        r.mod_risk,
        launcher,
        dlc_load,
    ).0
    &&& views(r.warnings@) == cheat_notes(save.cheated_on_save).1 + ironman_notes(save.ironman).1 + mod_notes(
        r.mod_risk,
        launcher,
        dlc_load,
    ).1
}

/// The launcher's mod list counts only when reading the launcher raised
/// no issue.
pub open spec fn usable_launcher_count(mods: Option<&[LauncherModSummary]>, has_issues: bool) -> Option<nat> {
    if has_issues {
        None
    } else {
        opt_len(mods)
    }
}

/// The eligibility of each run's latest save (`None` for a run whose save
/// was not parsed), given the mods the launcher enables (ignored when the
/// launcher could not be read cleanly) and those `dlc_load.json` enables.
pub fn runs_eligibility(
    saves: &[Option<SaveSummary>],
    launcher_enabled_mods: Option<&[LauncherModSummary]>,
    launcher_has_issues: bool,
    dlc_load_enabled_mods: Option<&[String]>,
    checksum_scopes: &[ChecksumScope],
) -> (r: Vec<Option<SaveEligibility>>)
    ensures
        r@.len() == saves@.len(),
        forall|i: int|
            0 <= i < r@.len() ==> match saves@[i] {
                None => (#[trigger] r@[i]) is None,
                Some(s) => r@[i] matches Some(e) && eligibility_of(
                    e,
                    s,
                    usable_launcher_count(launcher_enabled_mods, launcher_has_issues),
                    opt_len(dlc_load_enabled_mods),
                ),
            },
{
    let launcher: Option<&[LauncherModSummary]> = if launcher_has_issues {
        None
    } else {
        launcher_enabled_mods
    };
    let mut out: Vec<Option<SaveEligibility>> = Vec::new();
    let mut i: usize = 0;
    while i < saves.len()
        invariant
            i <= saves@.len(),
            out@.len() == i,
            opt_len(launcher) == usable_launcher_count(launcher_enabled_mods, launcher_has_issues),
            forall|k: int|
                0 <= k < i ==> match saves@[k] {
                    None => (#[trigger] out@[k]) is None,
                    Some(s) => out@[k] matches Some(e) && eligibility_of(
                        e,
                        s,
                        usable_launcher_count(launcher_enabled_mods, launcher_has_issues),
                        opt_len(dlc_load_enabled_mods),
                    ),
                },
        decreases saves@.len() - i,
    {
        match &saves[i] {
            None => out.push(None),
            Some(s) => {
                let e = compute_save_eligibility(s, launcher, dlc_load_enabled_mods, checksum_scopes);
                out.push(Some(e));
            },
        }
        i = i + 1;
    }
    out
}

} // verus!
