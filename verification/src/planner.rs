//! The achievement planner: each curated condition of a catalog achievement
//! is checked against the high-confidence facts parsed from a run, and the
//! outcomes decide whether the achievement is possible, incompatible,
//! impossible or unknown for that run.
use vstd::prelude::*;
use crate::addresses::{fact_address, spec_fact_address};
use crate::model::{
    AchievementCatalogEntry, AchievementCondition, ConditionEvaluation,
    PlannerAchievementEvaluation, RunAchievementUserStatus, RunFactSummary,
};
use crate::text::{cat3, cat5, eq_ignore_ascii_case, str_eq, views};
use crate::values::{
    FactValue, SFact, clone_fact, display, display_value, fact_values_equal, fact_view,
    facts_view, lemma_facts_view, opt_fact_view, values_equal,
};

verus! {

// ── Fact lookup ─────────────────────────────────────────────────────────

/// A fact as `(dimension, key, value)`.
pub open spec fn fact_row(f: RunFactSummary) -> (Seq<char>, Seq<char>, SFact) {
    (f.dimension@, f.key@, fact_view(f.value))
}

/// The high-confidence facts, in order.
pub open spec fn high_rows(fs: Seq<RunFactSummary>) -> Seq<(Seq<char>, Seq<char>, SFact)>
    decreases fs.len(),
{
    if fs.len() == 0 {
        Seq::empty()
    } else if fs.last().confidence@ == "high"@ {
        high_rows(fs.drop_last()).push(fact_row(fs.last()))
    } else {
        high_rows(fs.drop_last())
    }
}

/// The value of the last row stored under `(d, k)`: a later fact replaces
/// an earlier one with the same address.
pub open spec fn last_value(rows: Seq<(Seq<char>, Seq<char>, SFact)>, d: Seq<char>, k: Seq<char>) -> Option<SFact>
    decreases rows.len(),
{
    if rows.len() == 0 {
        None
    } else if rows.last().0 == d && rows.last().1 == k {
        Some(rows.last().2)
    } else {
        last_value(rows.drop_last(), d, k)
    }
}

/// The fact that answers a catalog dimension, if one is known.
pub open spec fn find_fact(rows: Seq<(Seq<char>, Seq<char>, SFact)>, catalog_dimension: Seq<char>) -> Option<SFact> {
    match spec_fact_address(catalog_dimension) {
        Some(a) => last_value(rows, a.0, a.1),
        None => None,
    }
}

/// The high-confidence facts of a run, by address.
pub struct FactLookup {
    rows: Vec<(String, String, FactValue)>,
}

impl FactLookup {
    /// The facts held, as `(dimension, key, value)` in order.
    pub closed spec fn rows_view(self) -> Seq<(Seq<char>, Seq<char>, SFact)> {
        self.rows@.map_values(|r: (String, String, FactValue)| (r.0@, r.1@, fact_view(r.2)))
    }

    /// Keeps the facts of high confidence.
    pub fn new(facts: &[RunFactSummary]) -> (r: Self)
        ensures
            r.rows_view() == high_rows(facts@),
    {
        let mut rows: Vec<(String, String, FactValue)> = Vec::new();
        let mut i: usize = 0;
        while i < facts.len()
            invariant
                i <= facts@.len(),
                rows@.map_values(|r: (String, String, FactValue)| (r.0@, r.1@, fact_view(r.2)))
                    == high_rows(facts@.take(i as int)),
            decreases facts@.len() - i,
        {
            let ghost before = rows@;
            let f = &facts[i];
            proof {
                assert(facts@.take(i + 1).drop_last() =~= facts@.take(i as int));
                assert(facts@.take(i + 1).last() == facts@[i as int]);
            }
            if str_eq(f.confidence.as_str(), "high") {
                rows.push((f.dimension.clone(), f.key.clone(), clone_fact(&f.value)));
                proof {
                    assert(rows@.map_values(
                        |r: (String, String, FactValue)| (r.0@, r.1@, fact_view(r.2)),
                    ) =~= before.map_values(
                        |r: (String, String, FactValue)| (r.0@, r.1@, fact_view(r.2)),
                    ).push(fact_row(*f)));
                }
            }
            i = i + 1;
        }
        proof {
            assert(facts@.take(i as int) =~= facts@);
        }
        FactLookup { rows }
    }

    /// A copy of the fact that answers `catalog_dimension`.
    pub fn find(&self, catalog_dimension: &str) -> (r: Option<FactValue>)
        ensures
            opt_fact_view(r) == find_fact(self.rows_view(), catalog_dimension@),
    {
        let (dimension, key) = match fact_address(catalog_dimension) {
            Some(a) => a,
            None => return None,
        };
        let ghost rv = self.rows_view();
        let mut i: usize = self.rows.len();
        proof {
            assert(rv.take(i as int) =~= rv);
        }
        while i > 0
            invariant
                i <= self.rows@.len(),
                rv == self.rows_view(),
                rv.len() == self.rows@.len(),
                spec_fact_address(catalog_dimension@) == Some((dimension@, key@)),
                last_value(rv, dimension@, key@) == last_value(rv.take(i as int), dimension@, key@),
            decreases i,
        {
            i = i - 1;
            proof {
                assert(rv.take(i + 1).drop_last() =~= rv.take(i as int));
                assert(rv.take(i + 1).last() == rv[i as int]);
            }
            let row = &self.rows[i];
            proof {
                assert(rv[i as int] == (row.0@, row.1@, fact_view(row.2)));
            }
            if str_eq(row.0.as_str(), dimension) && str_eq(row.1.as_str(), key) {
                return Some(clone_fact(&row.2));
            }
        }
        proof {
            assert(rv.take(0) =~= Seq::<(Seq<char>, Seq<char>, SFact)>::empty());
        }
        None
    }
}

// ── Operators ───────────────────────────────────────────────────────────

/// The numeric comparisons a condition can ask for.
#[derive(Clone, Copy)]
pub enum NumericTest {
    AtLeast,
    GreaterThan,
    LessThan,
}

/// Whether the fact's number passes `test` against the required number,
/// both given by their order keys.
pub open spec fn numeric_holds(test: NumericTest, fact: u64, required: u64) -> bool {
    match test {
        NumericTest::AtLeast => fact >= required,
        NumericTest::GreaterThan => fact > required,
        NumericTest::LessThan => fact < required,
    }
}

/// The outcome of a numeric comparison and its reason.
pub open spec fn numeric_outcome(test: NumericTest, f: SFact, c: SFact) -> (Option<bool>, Seq<char>) {
    match (f, c) {
        (SFact::Number(_, ft, fk), SFact::Number(_, _, ck)) => (
            Some(numeric_holds(test, fk, ck)),
            "Parsed numeric value is "@ + ft + "."@,
        ),
        _ => (
            None,
            "Cannot compare non-numeric values: parsed "@ + display(f) + ", required "@ + display(c)
                + "."@,
        ),
    }
}

/// Some item of the list equals `c` in the sense of [`values_equal`].
pub open spec fn list_contains(items: Seq<SFact>, c: SFact) -> bool {
    exists|i: int| 0 <= i < items.len() && values_equal(#[trigger] items[i], c)
}

/// The outcome of applying `op` to a fact value and a condition value, with
/// the reason shown to the user.
pub open spec fn operator_outcome(op: Seq<char>, f: SFact, c: SFact) -> (Option<bool>, Seq<char>) {
    if op == "equals"@ {
        (Some(values_equal(f, c)), "Parsed value is "@ + display(f) + "."@)
    } else if op == "contains"@ {
        match f {
            SFact::List(items) => (
                Some(list_contains(items, c)),
                "Parsed values are "@ + display(f) + "."@,
            ),
            _ => (
                None,
                "Parsed value "@ + display(f) + " is not a list, so 'contains' cannot be evaluated."@,
            ),
        }
    } else if op == "at_least"@ {
        numeric_outcome(NumericTest::AtLeast, f, c)
    } else if op == "greater_than"@ {
        numeric_outcome(NumericTest::GreaterThan, f, c)
    } else if op == "less_than"@ {
        numeric_outcome(NumericTest::LessThan, f, c)
    } else if op == "not_equals"@ {
        if values_equal(f, c) {
            (Some(false), "Parsed value "@ + display(f) + " unexpectedly equals condition."@)
        } else {
            (Some(true), "Parsed value is "@ + display(f) + "."@)
        }
    } else {
        (None, "Unsupported condition operator '"@ + op + "'."@)
    }
}

/// Compares the numbers of two values.
pub fn compare_numbers(fact_value: &FactValue, condition_value: &FactValue, test: NumericTest) -> (r: (
    Option<bool>,
    String,
))
    ensures
        (r.0, r.1@) == numeric_outcome(test, fact_view(*fact_value), fact_view(*condition_value)),
{
    match (fact_value, condition_value) {
        (FactValue::Number(f), FactValue::Number(c)) => {
            let holds = match test {
                NumericTest::AtLeast => f.order_key >= c.order_key,
                NumericTest::GreaterThan => f.order_key > c.order_key,
                NumericTest::LessThan => f.order_key < c.order_key,
            };
            (Some(holds), cat3("Parsed numeric value is ", f.float_text.as_str(), "."))
        },
        _ => {
            let fd = display_value(fact_value);
            let cd = display_value(condition_value);
            let reason = cat5(
                "Cannot compare non-numeric values: parsed ",
                fd.as_str(),
                ", required ",
                cd.as_str(),
                ".",
            );
            (None, reason)
        },
    }
}

fn any_equal(items: &Vec<FactValue>, c: &FactValue) -> (r: bool)
    ensures
        r == list_contains(facts_view(items@), fact_view(*c)),
{
    let ghost iv = facts_view(items@);
    proof {
        lemma_facts_view(items@);
    }
    let mut i: usize = 0;
    while i < items.len()
        invariant
            i <= items@.len(),
            iv == facts_view(items@),
            iv.len() == items@.len(),
            forall|k: int| 0 <= k < items@.len() ==> #[trigger] iv[k] == fact_view(items@[k]),
            forall|k: int| 0 <= k < i ==> !values_equal(#[trigger] iv[k], fact_view(*c)),
        decreases items@.len() - i,
    {
        if fact_values_equal(&items[i], c) {
            assert(values_equal(iv[i as int], fact_view(*c)));
            return true;
        }
        i = i + 1;
    }
    false
}

/// Applies a condition operator to a fact value and a condition value.
pub fn evaluate_operator(operator: &str, fact_value: &FactValue, condition_value: &FactValue) -> (r: (
    Option<bool>,
    String,
))
    ensures
        (r.0, r.1@) == operator_outcome(
            operator@,
            fact_view(*fact_value),
            fact_view(*condition_value),
        ),
{
    if str_eq(operator, "equals") {
        let eq = fact_values_equal(fact_value, condition_value);
        let d = display_value(fact_value);
        (Some(eq), cat3("Parsed value is ", d.as_str(), "."))
    } else if str_eq(operator, "contains") {
        match fact_value {
            FactValue::List(items) => {
                let found = any_equal(items, condition_value);
                let d = display_value(fact_value);
                (Some(found), cat3("Parsed values are ", d.as_str(), "."))
            },
            _ => {
                let d = display_value(fact_value);
                (
                    None,
                    cat3(
                        "Parsed value ",
                        d.as_str(),
                        " is not a list, so 'contains' cannot be evaluated.",
                    ),
                )
            },
        }
    } else if str_eq(operator, "at_least") {
        compare_numbers(fact_value, condition_value, NumericTest::AtLeast)
    } else if str_eq(operator, "greater_than") {
        compare_numbers(fact_value, condition_value, NumericTest::GreaterThan)
    } else if str_eq(operator, "less_than") {
        compare_numbers(fact_value, condition_value, NumericTest::LessThan)
    } else if str_eq(operator, "not_equals") {
        let eq = fact_values_equal(fact_value, condition_value);
        let d = display_value(fact_value);
        if eq {
            (Some(false), cat3("Parsed value ", d.as_str(), " unexpectedly equals condition."))
        } else {
            (Some(true), cat3("Parsed value is ", d.as_str(), "."))
        }
    } else {
        (None, cat3("Unsupported condition operator '", operator, "'."))
    }
}

// ── Conditions ──────────────────────────────────────────────────────────

/// Whether the condition held and why, against the facts `rows`.
pub open spec fn condition_outcome(c: AchievementCondition, rows: Seq<(Seq<char>, Seq<char>, SFact)>) -> (
    Option<bool>,
    Seq<char>,
) {
    match find_fact(rows, c.dimension@) {
        Some(v) => operator_outcome(c.operator@, v, fact_view(c.value)),
        None => (
            None,
            "No high-confidence parsed fact currently maps to catalog dimension '"@ + c.dimension@
                + "'."@,
        ),
    }
}

/// `e` is the evaluation of the condition `c` against the facts `rows`.
pub open spec fn evaluated(
    e: ConditionEvaluation,
    c: AchievementCondition,
    rows: Seq<(Seq<char>, Seq<char>, SFact)>,
) -> bool {
    &&& e.dimension@ == c.dimension@
    &&& e.operator@ == c.operator@
    &&& fact_view(e.condition_value) == fact_view(c.value)
    &&& opt_fact_view(e.fact_value) == find_fact(rows, c.dimension@)
    &&& e.passed == condition_outcome(c, rows).0
    &&& e.reason@ == condition_outcome(c, rows).1
    &&& e.severity@ == c.severity@
    &&& e.timing@ == c.timing@
    &&& e.mutability@ == c.mutability@
    &&& e.children@.len() == 0
}

/// Checks one condition against the run's facts.
pub fn evaluate_condition(condition: &AchievementCondition, fact_lookup: &FactLookup) -> (r:
    ConditionEvaluation)
    ensures
        evaluated(r, *condition, fact_lookup.rows_view()),
{
    let fact_value = fact_lookup.find(condition.dimension.as_str());
    let (passed, reason) = match &fact_value {
        Some(value) => evaluate_operator(condition.operator.as_str(), value, &condition.value),
        None => (
            None,
            cat3(
                "No high-confidence parsed fact currently maps to catalog dimension '",
                condition.dimension.as_str(),
                "'.",
            ),
        ),
    };
    ConditionEvaluation {
        dimension: condition.dimension.clone(),
        operator: condition.operator.clone(),
        condition_value: clone_fact(&condition.value),
        fact_value,
        passed,
        severity: condition.severity.clone(),
        timing: condition.timing.clone(),
        mutability: condition.mutability.clone(),
        reason,
        children: Vec::new(),
    }
}

// ── Status ──────────────────────────────────────────────────────────────

/// A failed hard condition that can no longer change: an immutable, locked
/// or event-limited requirement set at setup, at the end or by an event.
pub open spec fn impossible_blocker(c: ConditionEvaluation) -> bool {
    &&& c.severity@ == "hard"@
    &&& (c.mutability@ == "immutable"@ || c.mutability@ == "rng_locked"@ || c.mutability@
        == "event_limited"@)
    &&& (c.timing@ == "setup"@ || c.timing@ == "terminal"@ || c.timing@ == "event_limited"@)
}

/// A condition that failed and blocks the achievement for good.
pub open spec fn blocks(c: ConditionEvaluation) -> bool {
    c.passed == Some(false) && impossible_blocker(c)
}

/// Whether a failed condition blocks the achievement for good.
pub fn is_impossible_blocker(condition: &ConditionEvaluation) -> (r: bool)
    ensures
        r == impossible_blocker(*condition),
{
    let m = condition.mutability.as_str();
    let t = condition.timing.as_str();
    str_eq(condition.severity.as_str(), "hard") && (str_eq(m, "immutable") || str_eq(
        m,
        "rng_locked",
    ) || str_eq(m, "event_limited")) && (str_eq(t, "setup") || str_eq(t, "terminal") || str_eq(
        t,
        "event_limited",
    ))
}

/// The reason a non-blocking condition adds: nothing when it passed.
pub open spec fn condition_message(c: ConditionEvaluation) -> Seq<Seq<char>> {
    match c.passed {
        Some(true) => Seq::empty(),
        Some(false) => if c.severity@ == "hard"@ {
            seq![c.dimension@ + " hard requirement is not currently satisfied: "@ + c.reason@]
        } else {
            seq![c.dimension@ + " requirement is not currently satisfied: "@ + c.reason@]
        },
        None => seq![c.dimension@ + " is unknown: "@ + c.reason@],
    }
}

/// The reason a blocking condition adds.
pub open spec fn blocker_message(c: ConditionEvaluation) -> Seq<char> {
    c.dimension@ + " requirement failed and is treated as immutable hard blocker: "@ + c.reason@
}

/// The state of a scan of conditions in order: stopped at a blocker with
/// the reasons so far, or still open.
pub enum Scan {
    Blocked(Seq<Seq<char>>),
    Open { reasons: Seq<Seq<char>>, unknown: bool, incompatible: bool },
}

/// Scans conditions in order, stopping at the first blocker.
pub open spec fn scan(cs: Seq<ConditionEvaluation>) -> Scan
    decreases cs.len(),
{
    if cs.len() == 0 {
        Scan::Open { reasons: Seq::empty(), unknown: false, incompatible: false }
    } else {
        match scan(cs.drop_last()) {
            Scan::Blocked(rs) => Scan::Blocked(rs),
            Scan::Open { reasons, unknown, incompatible } => {
                let c = cs.last();
                if blocks(c) {
                    Scan::Blocked(reasons.push(blocker_message(c)))
                } else {
                    Scan::Open {
                        reasons: reasons + condition_message(c),
                        unknown: unknown || c.passed is None,
                        incompatible: incompatible || c.passed == Some(false),
                    }
                }
            },
        }
    }
}

pub open spec fn no_conditions_message() -> Seq<char> {
    "Catalog entry has no curated conditions yet, so no hard blocker is known."@
}

pub open spec fn all_satisfied_message() -> Seq<char> {
    "All currently supported curated conditions are satisfied."@
}

/// The status the conditions give: `Possible` without conditions,
/// `Impossible` at a blocker, else `Unknown` when one is unknown, else
/// `Incompatible` when one failed, else `Possible`.
pub open spec fn computed_status(cs: Seq<ConditionEvaluation>) -> Seq<char> {
    if cs.len() == 0 {
        "Possible"@
    } else {
        match scan(cs) {
            Scan::Blocked(_) => "Impossible"@,
            Scan::Open { unknown, incompatible, .. } => if unknown {
                "Unknown"@
            } else if incompatible {
                "Incompatible"@
            } else {
                "Possible"@
            },
        }
    }
}

/// The reasons that go with [`computed_status`].
pub open spec fn status_reasons(cs: Seq<ConditionEvaluation>) -> Seq<Seq<char>> {
    if cs.len() == 0 {
        seq![no_conditions_message()]
    } else {
        match scan(cs) {
            Scan::Blocked(rs) => rs,
            Scan::Open { reasons, unknown, incompatible } => if unknown || incompatible {
                reasons
            } else {
                reasons.push(all_satisfied_message())
            },
        }
    }
}

fn condition_message_exec(c: &ConditionEvaluation) -> (r: Option<String>)
    requires
        !blocks(*c),
    ensures
        match r {
            Some(m) => condition_message(*c) == seq![m@],
            None => condition_message(*c) == Seq::<Seq<char>>::empty(),
        },
{
    match c.passed {
        Some(true) => None,
        Some(false) => if str_eq(c.severity.as_str(), "hard") {
            Some(
                cat3(
                    c.dimension.as_str(),
                    " hard requirement is not currently satisfied: ",
                    c.reason.as_str(),
                ),
            )
        } else {
            Some(
                cat3(
                    c.dimension.as_str(),
                    " requirement is not currently satisfied: ",
                    c.reason.as_str(),
                ),
            )
        },
        None => Some(cat3(c.dimension.as_str(), " is unknown: ", c.reason.as_str())),
    }
}

/// The status the conditions give; the reasons are appended to `reasons`.
pub fn compute_status(conditions: &[ConditionEvaluation], reasons: &mut Vec<String>) -> (r: String)
    ensures
        r@ == computed_status(conditions@),
        views(final(reasons)@) == views(old(reasons)@) + status_reasons(conditions@),
{
    let ghost start = views(reasons@);
    if conditions.len() == 0 {
        reasons.push(
            "Catalog entry has no curated conditions yet, so no hard blocker is known.".to_owned(),
        );
        proof {
            assert(views(reasons@) =~= start + status_reasons(conditions@));
        }
        return "Possible".to_owned();
    }
    let mut has_unknown = false;
    let mut has_incompatibility = false;
    let ghost mut acc: Seq<Seq<char>> = Seq::empty();
    let mut i: usize = 0;
    proof {
        assert(conditions@.take(0) =~= Seq::<ConditionEvaluation>::empty());
        assert(views(reasons@) =~= start + acc);
    }
    while i < conditions.len()
        invariant
            i <= conditions@.len(),
            scan(conditions@.take(i as int)) == (Scan::Open {
                reasons: acc,
                unknown: has_unknown,
                incompatible: has_incompatibility,
            }),
            views(reasons@) == start + acc,
            start == views(old(reasons)@),
        decreases conditions@.len() - i,
    {
        let c = &conditions[i];
        let ghost before = views(reasons@);
        proof {
            assert(conditions@.take(i + 1).drop_last() =~= conditions@.take(i as int));
            assert(conditions@.take(i + 1).last() == *c);
        }
        if c.passed == Some(false) && is_impossible_blocker(c) {
            reasons.push(
                cat3(
                    c.dimension.as_str(),
                    " requirement failed and is treated as immutable hard blocker: ",
                    c.reason.as_str(),
                ),
            );
            proof {
                assert(views(reasons@) =~= before.push(blocker_message(*c)));
                assert(blocks(*c));
                assert(scan(conditions@.take(i + 1)) == Scan::Blocked(
                    acc.push(blocker_message(*c)),
                ));
                lemma_scan_blocked_stays(conditions@, i as int + 1);
                assert(status_reasons(conditions@) == acc.push(blocker_message(*c)));
                assert(views(reasons@) =~= start + acc.push(blocker_message(*c)));
            }
            return "Impossible".to_owned();
        }
        match c.passed {
            None => {
                has_unknown = true;
            },
            Some(false) => {
                has_incompatibility = true;
            },
            Some(true) => {},
        }
        if let Some(m) = condition_message_exec(c) {
            reasons.push(m);
            proof {
                assert(views(reasons@) =~= before.push(m@));
            }
        }
        proof {
            acc = acc + condition_message(*c);
            assert(views(reasons@) =~= start + acc);
        }
        i = i + 1;
    }
    proof {
        assert(conditions@.take(i as int) =~= conditions@);
    }
    if has_unknown {
        "Unknown".to_owned()
    } else if has_incompatibility {
        "Incompatible".to_owned()
    } else {
        let ghost before = views(reasons@);
        reasons.push("All currently supported curated conditions are satisfied.".to_owned());
        proof {
            assert(views(reasons@) =~= before.push(all_satisfied_message()));
            assert(views(reasons@) =~= start + status_reasons(conditions@));
        }
        "Possible".to_owned()
    }
}

/// Once the scan of a prefix is blocked, the scan of any longer prefix is
/// blocked with the same reasons.
proof fn lemma_scan_blocked_stays(cs: Seq<ConditionEvaluation>, n: int)
    requires
        0 <= n <= cs.len(),
        scan(cs.take(n)) is Blocked,
    ensures
        scan(cs) == scan(cs.take(n)),
    decreases cs.len() - n,
{
    if n < cs.len() {
        assert(cs.take(n + 1).drop_last() =~= cs.take(n));
        lemma_scan_blocked_stays(cs, n + 1);
    } else {
        assert(cs.take(n) =~= cs);
    }
}

// ── Achievements ────────────────────────────────────────────────────────

pub open spec fn opt_str(o: Option<&str>) -> Option<Seq<char>> {
    match o {
        Some(s) => Some(s@),
        None => None,
    }
}

pub open spec fn completed_message() -> Seq<char> {
    "Achievement is marked completed by Steam state or local override."@
}

/// `e` is the planner's verdict on achievement `a`, given the facts `rows`,
/// whether `a` is completed, and the user's status for it.
pub open spec fn evaluation_of(
    e: PlannerAchievementEvaluation,
    a: AchievementCatalogEntry,
    rows: Seq<(Seq<char>, Seq<char>, SFact)>,
    completed: bool,
    user_status: Option<Seq<char>>,
) -> bool {
    let conds = a.curation.conditions@;
    let computed = computed_status(e.conditions@);
    &&& e.achievement == a
    &&& e.conditions@.len() == conds.len()
    &&& forall|i: int| 0 <= i < conds.len() ==> evaluated(#[trigger] e.conditions@[i], conds[i], rows)
    &&& views(e.warnings@) == views(a.curation.warnings@)
    &&& e.computed_status@ == computed
    &&& e.planned == (user_status == Some("planned"@))
    &&& e.ignored == (user_status == Some("ignored"@))
    &&& e.status@ == (if completed {
        "Completed"@
    } else if e.planned {
        "Planned"@
    } else {
        computed
    })
    &&& views(e.reasons@) == (if completed {
        seq![completed_message()] + status_reasons(e.conditions@)
    } else if e.planned {
        seq!["Achievement is planned for this run; compatibility is "@ + computed + "."@]
            + status_reasons(e.conditions@)
    } else {
        status_reasons(e.conditions@)
    })
}

fn copy_strings(v: &Vec<String>) -> (r: Vec<String>)
    ensures
        views(r@) == views(v@),
{
    let mut out: Vec<String> = Vec::new();
    let mut i: usize = 0;
    while i < v.len()
        invariant
            i <= v@.len(),
            views(out@) == views(v@).take(i as int),
        decreases v@.len() - i,
    {
        let ghost before = views(out@);
        let c = v[i].clone();
        out.push(c);
        proof {
            assert(views(out@) =~= before.push(c@));
            assert(views(out@) =~= views(v@).take(i + 1));
        }
        i = i + 1;
    }
    proof {
        assert(views(v@).take(i as int) =~= views(v@));
    }
    out
}

/// The planner's verdict on one achievement: completion first, then the
/// user's plan, then what its conditions give.
pub fn evaluate_achievement(
    achievement: AchievementCatalogEntry,
    fact_lookup: &FactLookup,
    completed: bool,
    user_status: Option<&str>,
) -> (r: PlannerAchievementEvaluation)
    ensures
        evaluation_of(r, achievement, fact_lookup.rows_view(), completed, opt_str(user_status)),
{
    let ghost a = achievement;
    let mut conditions: Vec<ConditionEvaluation> = Vec::new();
    let mut i: usize = 0;
    while i < achievement.curation.conditions.len()
        invariant
            i <= achievement.curation.conditions@.len(),
            achievement == a,
            conditions@.len() == i,
            forall|k: int|
                0 <= k < i ==> evaluated(
                    #[trigger] conditions@[k],
                    a.curation.conditions@[k],
                    fact_lookup.rows_view(),
                ),
        decreases achievement.curation.conditions@.len() - i,
    {
        let e = evaluate_condition(&achievement.curation.conditions[i], fact_lookup);
        conditions.push(e);
        i = i + 1;
    }
    let warnings = copy_strings(&achievement.curation.warnings);
    let mut reasons: Vec<String> = Vec::new();
    let computed_status = compute_status(conditions.as_slice(), &mut reasons);
    proof {
        assert(views(reasons@) =~= status_reasons(conditions@));
    }
    let planned = match user_status {
        Some(s) => str_eq(s, "planned"),
        None => false,
    };
    let ignored = match user_status {
        Some(s) => str_eq(s, "ignored"),
        None => false,
    };
    let ghost before = views(reasons@);
    let status = if completed {
        reasons.insert(
            0,
            "Achievement is marked completed by Steam state or local override.".to_owned(),
        );
        proof {
            assert(views(reasons@) =~= seq![completed_message()] + before);
        }
        "Completed".to_owned()
    } else if planned {
        let m = cat3(
            "Achievement is planned for this run; compatibility is ",
            computed_status.as_str(),
            ".",
        );
        let ghost mv = m@;
        reasons.insert(0, m);
        proof {
            assert(views(reasons@) =~= seq![mv] + before);
        }
        "Planned".to_owned()
    } else {
        computed_status.clone()
    };
    PlannerAchievementEvaluation {
        achievement,
        status,
        computed_status,
        planned,
        ignored,
        reasons,
        warnings,
        conditions,
    }
}

/// The status the user last set for achievement `id`.
pub open spec fn last_status(us: Seq<RunAchievementUserStatus>, id: Seq<char>) -> Option<Seq<char>>
    decreases us.len(),
{
    if us.len() == 0 {
        None
    } else if us.last().achievement_id@ == id {
        Some(us.last().user_status@)
    } else {
        last_status(us.drop_last(), id)
    }
}

fn find_user_status<'a>(user_statuses: &'a [RunAchievementUserStatus], id: &str) -> (r: Option<&'a str>)
    ensures
        opt_str(r) == last_status(user_statuses@, id@),
{
    let mut i: usize = user_statuses.len();
    proof {
        assert(user_statuses@.take(i as int) =~= user_statuses@);
    }
    while i > 0
        invariant
            i <= user_statuses@.len(),
            last_status(user_statuses@, id@) == last_status(user_statuses@.take(i as int), id@),
        decreases i,
    {
        i = i - 1;
        proof {
            assert(user_statuses@.take(i + 1).drop_last() =~= user_statuses@.take(i as int));
            assert(user_statuses@.take(i + 1).last() == user_statuses@[i as int]);
        }
        if str_eq(user_statuses[i].achievement_id.as_str(), id) {
            return Some(user_statuses[i].user_status.as_str());
        }
    }
    proof {
        assert(user_statuses@.take(0) =~= Seq::<RunAchievementUserStatus>::empty());
    }
    None
}

fn contains_string(items: &[String], s: &str) -> (r: bool)
    ensures
        r == views(items@).contains(s@),
{
    let mut i: usize = 0;
    while i < items.len()
        invariant
            i <= items@.len(),
            forall|k: int| 0 <= k < i ==> #[trigger] items@[k]@ != s@,
        decreases items@.len() - i,
    {
        if str_eq(items[i].as_str(), s) {
            assert(views(items@)[i as int] == s@);
            return true;
        }
        i = i + 1;
    }
    proof {
        assert forall|k: int| 0 <= k < views(items@).len() implies views(items@)[k] != s@ by {
            assert(views(items@)[k] == items@[k]@);
        }
    }
    false
}

/// What `evaluate_planner_achievements` returns: one evaluation per
/// achievement, in order, over the high-confidence rows of `facts`.
pub open spec fn planner_results(
    r: Seq<PlannerAchievementEvaluation>,
    achievements: Seq<AchievementCatalogEntry>,
    facts: Seq<RunFactSummary>,
    completed: Seq<Seq<char>>,
    statuses: Seq<RunAchievementUserStatus>,
) -> bool {
    &&& r.len() == achievements.len()
    &&& forall|i: int|
        0 <= i < achievements.len() ==> evaluation_of(
            #[trigger] r[i],
            achievements[i],
            high_rows(facts),
            completed.contains(achievements[i].id@),
            last_status(statuses, achievements[i].id@),
        )
}

/// The planner's verdicts on the achievements, in order, for a run with
/// facts `facts`, the completed achievements `completed_achievement_ids` and
/// the user's statuses `user_statuses` (the last one set for an achievement
/// counts).
pub fn evaluate_planner_achievements(
    achievements: Vec<AchievementCatalogEntry>,
    facts: &[RunFactSummary],
    completed_achievement_ids: &[String],
    user_statuses: &[RunAchievementUserStatus],
) -> (r: Vec<PlannerAchievementEvaluation>)
    ensures
        planner_results(
            r@,
            achievements@,
            facts@,
            views(completed_achievement_ids@),
            user_statuses@,
        ),
{
    let fact_lookup = FactLookup::new(facts);
    let ghost orig = achievements@;
    let mut rest = achievements;
    let total: usize = rest.len();
    assert(orig.len() == total);
    let mut out: Vec<PlannerAchievementEvaluation> = Vec::new();
    let mut i: usize = 0;
    proof {
        assert(orig.skip(0) =~= orig);
    }
    while rest.len() > 0
        invariant
            i <= orig.len(),
            rest@.len() == orig.len() - i,
            orig.len() <= usize::MAX,
            rest@ == orig.skip(i as int),
            out@.len() == i,
            fact_lookup.rows_view() == high_rows(facts@),
            forall|k: int|
                0 <= k < i ==> evaluation_of(
                    #[trigger] out@[k],
                    orig[k],
                    high_rows(facts@),
                    views(completed_achievement_ids@).contains(orig[k].id@),
                    last_status(user_statuses@, orig[k].id@),
                ),
        decreases rest@.len(),
    {
        let achievement = rest.remove(0);
        proof {
            assert(achievement == orig[i as int]);
            assert(rest@ =~= orig.skip(i + 1));
        }
        let completed = contains_string(completed_achievement_ids, achievement.id.as_str());
        let user_status = find_user_status(user_statuses, achievement.id.as_str());
        let e = evaluate_achievement(achievement, &fact_lookup, completed, user_status);
        out.push(e);
        i = i + 1;
    }
    out
}

// ── Laws ────────────────────────────────────────────────────────────────

/// What a scan found: blocked exactly when some condition blocks, and
/// otherwise unknown / incompatible exactly when some condition is unknown /
/// failed.
proof fn lemma_scan(cs: Seq<ConditionEvaluation>)
    ensures
        (scan(cs) is Blocked) == (exists|i: int| 0 <= i < cs.len() && #[trigger] blocks(cs[i])),
        match scan(cs) {
            Scan::Open { unknown, incompatible, .. } => {
                &&& unknown == (exists|i: int| 0 <= i < cs.len() && (#[trigger] cs[i]).passed is None)
                &&& incompatible == (exists|i: int|
                    0 <= i < cs.len() && (#[trigger] cs[i]).passed == Some(false))
            },
            Scan::Blocked(_) => true,
        },
    decreases cs.len(),
{
    if cs.len() > 0 {
        let p = cs.drop_last();
        lemma_scan(p);
        assert forall|i: int| 0 <= i < p.len() implies #[trigger] p[i] == cs[i] by {}
        if exists|i: int| 0 <= i < p.len() && #[trigger] blocks(p[i]) {
            let i = choose|i: int| 0 <= i < p.len() && #[trigger] blocks(p[i]);
            assert(blocks(cs[i]));
        }
        if blocks(cs.last()) {
            assert(blocks(cs[cs.len() - 1]));
        }
        match scan(p) {
            Scan::Open { unknown, incompatible, .. } => {
                if unknown {
                    let i = choose|i: int| 0 <= i < p.len() && (#[trigger] p[i]).passed is None;
                    assert(cs[i].passed is None);
                }
                if incompatible {
                    let i = choose|i: int| 0 <= i < p.len() && (#[trigger] p[i]).passed == Some(false);
                    assert(cs[i].passed == Some(false));
                }
                if cs.last().passed is None {
                    assert(cs[cs.len() - 1].passed is None);
                }
                if cs.last().passed == Some(false) {
                    assert(cs[cs.len() - 1].passed == Some(false));
                }
                assert forall|i: int| 0 <= i < cs.len() && i != cs.len() - 1 implies cs[i] == p[i] by {}
            },
            Scan::Blocked(_) => {},
        }
    }
}

/// The status laws of the planner: a condition that failed for good makes
/// the achievement impossible; otherwise an unknown condition makes it
/// unknown, else a failed condition incompatible, else it is possible.
pub proof fn lemma_status_laws(cs: Seq<ConditionEvaluation>)
    ensures
        (exists|i: int| 0 <= i < cs.len() && #[trigger] blocks(cs[i])) ==> computed_status(cs)
            == "Impossible"@,
        (forall|i: int| 0 <= i < cs.len() ==> !#[trigger] blocks(cs[i])) ==> {
            &&& (exists|i: int| 0 <= i < cs.len() && (#[trigger] cs[i]).passed is None)
                ==> computed_status(cs) == "Unknown"@
            &&& ((forall|i: int| 0 <= i < cs.len() ==> (#[trigger] cs[i]).passed is Some)
                && exists|i: int| 0 <= i < cs.len() && (#[trigger] cs[i]).passed == Some(false))
                ==> computed_status(cs) == "Incompatible"@
            &&& (forall|i: int| 0 <= i < cs.len() ==> (#[trigger] cs[i]).passed == Some(true))
                ==> computed_status(cs) == "Possible"@
        },
{
    lemma_scan(cs);
    if cs.len() > 0 {
        if forall|i: int| 0 <= i < cs.len() ==> (#[trigger] cs[i]).passed == Some(true) {
            if exists|i: int| 0 <= i < cs.len() && (#[trigger] cs[i]).passed is None {
                let i = choose|i: int| 0 <= i < cs.len() && (#[trigger] cs[i]).passed is None;
                assert(cs[i].passed == Some(true));
            }
            if exists|i: int| 0 <= i < cs.len() && (#[trigger] cs[i]).passed == Some(false) {
                let i = choose|i: int| 0 <= i < cs.len() && (#[trigger] cs[i]).passed == Some(false);
                assert(cs[i].passed == Some(true));
            }
        }
        if forall|i: int| 0 <= i < cs.len() ==> (#[trigger] cs[i]).passed is Some {
            if exists|i: int| 0 <= i < cs.len() && (#[trigger] cs[i]).passed is None {
                let i = choose|i: int| 0 <= i < cs.len() && (#[trigger] cs[i]).passed is None;
                assert(cs[i].passed is Some);
            }
        }
    }
}

/// Facts whose confidence is not "high" do not bear on the planner: adding
/// them to the facts leaves the rows it reads, and so every evaluation that
/// `evaluate_planner_achievements` may return, unchanged.
pub proof fn lemma_low_confidence_facts_ignored(facts: Seq<RunFactSummary>, extra: Seq<RunFactSummary>)
    requires
        forall|i: int| 0 <= i < extra.len() ==> (#[trigger] extra[i]).confidence@ != "high"@,
    ensures
        high_rows(facts + extra) == high_rows(facts),
        forall|e: PlannerAchievementEvaluation, a: AchievementCatalogEntry, c: bool, u: Option<Seq<char>>|
            #[trigger] evaluation_of(e, a, high_rows(facts + extra), c, u) == evaluation_of(
                e,
                a,
                high_rows(facts),
                c,
                u,
            ),
    decreases extra.len(),
{
    if extra.len() == 0 {
        assert(facts + extra =~= facts);
    } else {
        let shorter = extra.drop_last();
        assert forall|i: int| 0 <= i < shorter.len() implies (#[trigger] shorter[i]).confidence@ != "high"@ by {
            assert(shorter[i] == extra[i]);
        }
        lemma_low_confidence_facts_ignored(facts, shorter);
        assert((facts + extra).drop_last() =~= facts + shorter);
        assert((facts + extra).last() == extra[extra.len() - 1]);
    }
}

/// A condition's evaluation as plain values: every field.
pub open spec fn cond_view(c: ConditionEvaluation) -> (
    Seq<char>,
    Seq<char>,
    SFact,
    Option<SFact>,
    Option<bool>,
    Seq<char>,
    Seq<char>,
    Seq<char>,
    Seq<char>,
    nat,
) {
    (
        c.dimension@,
        c.operator@,
        fact_view(c.condition_value),
        opt_fact_view(c.fact_value),
        c.passed,
        c.severity@,
        c.timing@,
        c.mutability@,
        c.reason@,
        c.children@.len(),
    )
}

/// An achievement's evaluation as plain values: every field.
pub open spec fn evaluation_view(e: PlannerAchievementEvaluation) -> (
    AchievementCatalogEntry,
    Seq<char>,
    Seq<char>,
    bool,
    bool,
    Seq<Seq<char>>,
    Seq<Seq<char>>,
    Seq<(Seq<char>, Seq<char>, SFact, Option<SFact>, Option<bool>, Seq<char>, Seq<char>, Seq<char>, Seq<char>, nat)>,
) {
    (
        e.achievement,
        e.status@,
        e.computed_status@,
        e.planned,
        e.ignored,
        views(e.reasons@),
        views(e.warnings@),
        e.conditions@.map_values(|c: ConditionEvaluation| cond_view(c)),
    )
}

proof fn lemma_scan_by_views(a: Seq<ConditionEvaluation>, b: Seq<ConditionEvaluation>)
    requires
        a.len() == b.len(),
        forall|i: int| 0 <= i < a.len() ==> cond_view(#[trigger] a[i]) == cond_view(b[i]),
    ensures
        scan(a) == scan(b),
    decreases a.len(),
{
    if a.len() > 0 {
        let a0 = a.drop_last();
        let b0 = b.drop_last();
        assert forall|i: int| 0 <= i < a0.len() implies cond_view(#[trigger] a0[i]) == cond_view(b0[i]) by {
            assert(a0[i] == a[i] && b0[i] == b[i]);
        }
        lemma_scan_by_views(a0, b0);
        assert(cond_view(a.last()) == cond_view(b.last()));
    }
}

/// The planner's evaluation of an achievement is determined: two
/// evaluations of one achievement over the same rows, completion and user
/// status agree in every field.
pub proof fn lemma_evaluation_determined(
    e1: PlannerAchievementEvaluation,
    e2: PlannerAchievementEvaluation,
    a: AchievementCatalogEntry,
    rows: Seq<(Seq<char>, Seq<char>, SFact)>,
    completed: bool,
    user_status: Option<Seq<char>>,
)
    requires
        evaluation_of(e1, a, rows, completed, user_status),
        evaluation_of(e2, a, rows, completed, user_status),
    ensures
        evaluation_view(e1) == evaluation_view(e2),
{
    let c1 = e1.conditions@;
    let c2 = e2.conditions@;
    assert forall|i: int| 0 <= i < c1.len() implies cond_view(#[trigger] c1[i]) == cond_view(c2[i]) by {
        assert(evaluated(c1[i], a.curation.conditions@[i], rows));
        assert(evaluated(c2[i], a.curation.conditions@[i], rows));
    }
    lemma_scan_by_views(c1, c2);
    assert(c1.map_values(|c: ConditionEvaluation| cond_view(c)) =~= c2.map_values(
        |c: ConditionEvaluation| cond_view(c),
    ));
}

/// Facts whose confidence is not "high" leave the planner's results
/// unchanged: the evaluations over `facts` and over `facts` followed by
/// such facts agree, achievement by achievement, in every field.
pub proof fn lemma_low_confidence_results_equal(
    achievements: Seq<AchievementCatalogEntry>,
    facts: Seq<RunFactSummary>,
    extra: Seq<RunFactSummary>,
    completed: Seq<Seq<char>>,
    statuses: Seq<RunAchievementUserStatus>,
    r1: Seq<PlannerAchievementEvaluation>,
    r2: Seq<PlannerAchievementEvaluation>,
)
    requires
        forall|i: int| 0 <= i < extra.len() ==> (#[trigger] extra[i]).confidence@ != "high"@,
        planner_results(r1, achievements, facts, completed, statuses),
        planner_results(r2, achievements, facts + extra, completed, statuses),
    ensures
        r1.len() == r2.len(),
        forall|i: int| 0 <= i < r1.len() ==> evaluation_view(#[trigger] r1[i]) == evaluation_view(r2[i]),
{
    lemma_low_confidence_facts_ignored(facts, extra);
    assert forall|i: int| 0 <= i < r1.len() implies evaluation_view(#[trigger] r1[i]) == evaluation_view(r2[i]) by {
        let a = achievements[i];
        let c = completed.contains(a.id@);
        let u = last_status(statuses, a.id@);
        assert(evaluation_of(r1[i], a, high_rows(facts), c, u));
        assert(evaluation_of(r2[i], a, high_rows(facts + extra), c, u));
        lemma_evaluation_determined(r1[i], r2[i], a, high_rows(facts), c, u);
    }
}

/// The operators relate as their names say: `equals` holds of a value and
/// itself and does not depend on the order of its two values, ignoring the
/// case of texts; `not_equals` is its negation; on numbers `greater_than`
/// is `less_than` with the values swapped, and `at_least` is
/// `greater_than` or the same number; numeric operators give no verdict
/// unless both values are numbers; `contains` holds of a list that holds
/// the value; any other operator gives no verdict.
pub proof fn lemma_operator_laws(op: Seq<char>, f: SFact, c: SFact)
    ensures
        operator_outcome("equals"@, f, f).0 == Some(true),
        operator_outcome("equals"@, f, c).0 == operator_outcome("equals"@, c, f).0,
        operator_outcome("equals"@, f, c).0 is Some,
        operator_outcome("not_equals"@, f, c).0 == Some(!(operator_outcome("equals"@, f, c).0 == Some(true))),
        (f, c) matches (SFact::Text(a), SFact::Text(b)) ==> (operator_outcome("equals"@, f, c).0 == Some(true)
            <==> eq_ignore_ascii_case(a, b)),
        (f, c) matches (SFact::Number(_, _, x), SFact::Number(_, _, y)) ==> {
            &&& operator_outcome("greater_than"@, f, c).0 == Some(x > y)
            &&& operator_outcome("greater_than"@, f, c).0 == operator_outcome("less_than"@, c, f).0
            &&& operator_outcome("at_least"@, f, c).0 == Some(
                operator_outcome("greater_than"@, f, c).0 == Some(true) || x == y,
            )
        },
        !(f is Number && c is Number) ==> {
            &&& operator_outcome("at_least"@, f, c).0 is None
            &&& operator_outcome("greater_than"@, f, c).0 is None
            &&& operator_outcome("less_than"@, f, c).0 is None
        },
        f matches SFact::List(items) && items.contains(c) ==> operator_outcome("contains"@, f, c).0 == Some(true),
        !(f is List) ==> operator_outcome("contains"@, f, c).0 is None,
        op != "equals"@ && op != "not_equals"@ && op != "contains"@ && op != "at_least"@ && op
            != "greater_than"@ && op != "less_than"@ ==> operator_outcome(op, f, c).0 is None,
{
    reveal_strlit("equals");
    reveal_strlit("not_equals");
    reveal_strlit("contains");
    reveal_strlit("at_least");
    reveal_strlit("greater_than");
    reveal_strlit("less_than");
    assert("not_equals"@.len() != "equals"@.len());
    assert("contains"@.len() != "equals"@.len());
    assert("at_least"@.len() != "equals"@.len());
    assert("greater_than"@.len() != "equals"@.len());
    assert("less_than"@.len() != "equals"@.len());
    assert("not_equals"@.len() != "contains"@.len());
    assert("at_least"@[0] != "contains"@[0]);
    assert("greater_than"@.len() != "contains"@.len());
    assert("less_than"@.len() != "contains"@.len());
    assert("greater_than"@.len() != "at_least"@.len());
    assert("less_than"@.len() != "at_least"@.len());
    assert("not_equals"@.len() != "at_least"@.len());
    assert("less_than"@.len() != "greater_than"@.len());
    assert("not_equals"@.len() != "greater_than"@.len());
    assert("not_equals"@[0] != "less_than"@[0]);
    if let SFact::Text(a) = f {
        assert(eq_ignore_ascii_case(a, a));
        if let SFact::Text(b) = c {
            if eq_ignore_ascii_case(a, b) {
                assert(eq_ignore_ascii_case(b, a));
            }
            if eq_ignore_ascii_case(b, a) {
                assert(eq_ignore_ascii_case(a, b));
            }
        }
    }
    if let SFact::List(items) = f {
        if items.contains(c) {
            let i = choose|i: int| 0 <= i < items.len() && items[i] == c;
            assert(values_equal(items[i], c)) by {
                if let SFact::Text(a) = c {
                    assert(eq_ignore_ascii_case(a, a));
                }
            }
        }
    }
}

proof fn lemma_blocker_blocks_scan(cs: Seq<ConditionEvaluation>, i: int)
    requires
        0 <= i < cs.len(),
        blocks(cs[i]),
    ensures
        scan(cs) is Blocked,
    decreases cs.len(),
{
    if i < cs.len() - 1 {
        assert(cs.drop_last()[i] == cs[i]);
        lemma_blocker_blocks_scan(cs.drop_last(), i);
    }
}

proof fn lemma_blocked_scan_has_blocker(cs: Seq<ConditionEvaluation>)
    ensures
        scan(cs) is Blocked ==> exists|i: int| 0 <= i < cs.len() && #[trigger] blocks(cs[i]),
    decreases cs.len(),
{
    if cs.len() > 0 {
        lemma_blocked_scan_has_blocker(cs.drop_last());
        if scan(cs.drop_last()) is Blocked {
            let i = choose|i: int| 0 <= i < cs.drop_last().len() && #[trigger] blocks(cs.drop_last()[i]);
            assert(cs[i] == cs.drop_last()[i]);
        } else if scan(cs) is Blocked {
            assert(blocks(cs[cs.len() - 1]));
        }
    }
}

/// Only such a blocker makes an achievement impossible: when the computed
/// status is `Impossible`, some condition failed with severity `hard`,
/// mutability `immutable`, `rng_locked` or `event_limited`, and timing
/// `setup`, `terminal` or `event_limited`. A failed soft condition, or one
/// that can still change, never does.
pub proof fn lemma_impossible_needs_hard_blocker(cs: Seq<ConditionEvaluation>)
    ensures
        computed_status(cs) == "Impossible"@ ==> exists|i: int|
            0 <= i < cs.len() && (#[trigger] cs[i]).passed == Some(false) && cs[i].severity@ == "hard"@ && (
            cs[i].mutability@ == "immutable"@ || cs[i].mutability@ == "rng_locked"@ || cs[i].mutability@
                == "event_limited"@) && (cs[i].timing@ == "setup"@ || cs[i].timing@ == "terminal"@
                || cs[i].timing@ == "event_limited"@),
{
    lemma_blocked_scan_has_blocker(cs);
    reveal_strlit("Impossible");
    reveal_strlit("Possible");
    reveal_strlit("Unknown");
    reveal_strlit("Incompatible");
    if computed_status(cs) == "Impossible"@ {
        assert("Possible"@.len() != "Impossible"@.len());
        assert("Unknown"@.len() != "Impossible"@.len());
        assert("Incompatible"@.len() != "Impossible"@.len());
        assert(scan(cs) is Blocked);
        let i = choose|i: int| 0 <= i < cs.len() && #[trigger] blocks(cs[i]);
        assert(blocks(cs[i]));
    }
}

/// A failed hard requirement that cannot change later makes the
/// achievement impossible: whatever the other conditions, when one
/// condition failed (`passed == Some(false)`) with severity `hard`,
/// mutability `immutable`, `rng_locked` or `event_limited`, and timing
/// `setup`, `terminal` or `event_limited`, the computed status is
/// `Impossible`, and so is every evaluation's computed status over such
/// conditions.
pub proof fn lemma_hard_blocker_is_impossible(cs: Seq<ConditionEvaluation>, i: int)
    requires
        0 <= i < cs.len(),
        cs[i].passed == Some(false),
        cs[i].severity@ == "hard"@,
        cs[i].mutability@ == "immutable"@ || cs[i].mutability@ == "rng_locked"@
            || cs[i].mutability@ == "event_limited"@,
        cs[i].timing@ == "setup"@ || cs[i].timing@ == "terminal"@ || cs[i].timing@ == "event_limited"@,
    ensures
        computed_status(cs) == "Impossible"@,
        forall|e: PlannerAchievementEvaluation, a: AchievementCatalogEntry, rows: Seq<(Seq<char>, Seq<char>, SFact)>, c: bool, u: Option<Seq<char>>|
            #[trigger] evaluation_of(e, a, rows, c, u) && e.conditions@ == cs ==> e.computed_status@ == "Impossible"@,
{
    lemma_blocker_blocks_scan(cs, i);
}

/// Every achievement is classified: its computed status is Possible,
/// Incompatible, Impossible or Unknown, and the status shown is that or
/// Completed or Planned.
pub proof fn lemma_status_is_classified(
    e: PlannerAchievementEvaluation,
    a: AchievementCatalogEntry,
    rows: Seq<(Seq<char>, Seq<char>, SFact)>,
    completed: bool,
    user_status: Option<Seq<char>>,
)
    requires
        evaluation_of(e, a, rows, completed, user_status),
    ensures
        e.computed_status@ == "Possible"@ || e.computed_status@ == "Incompatible"@
            || e.computed_status@ == "Impossible"@ || e.computed_status@ == "Unknown"@,
        e.status@ == "Completed"@ || e.status@ == "Planned"@ || e.status@ == e.computed_status@,
        completed ==> e.status@ == "Completed"@,
{
}


/// The statuses a user can set on an achievement of a run.
pub open spec fn supported_user_status(s: Seq<char>) -> bool {
    s == "planned"@ || s == "ignored"@
}

/// Refuses a user status other than `planned` or `ignored`; clearing the
/// status (`None`) is always accepted.
pub fn validate_user_status(user_status: Option<&str>) -> (r: Result<(), String>)
    ensures
        match user_status {
            None => r is Ok,
            Some(s) => if supported_user_status(s@) {
                r is Ok
            } else {
                r matches Err(m) && m@ == "unsupported run achievement status: "@ + s@
            },
        },
{
    match user_status {
        None => Ok(()),
        Some(s) => {
            if str_eq(s, "planned") || str_eq(s, "ignored") {
                Ok(())
            } else {
                proof {
                    reveal_strlit("");
                }
                let m = cat3("unsupported run achievement status: ", s, "");
                Err(m)
            }
        },
    }
}

} // verus!
