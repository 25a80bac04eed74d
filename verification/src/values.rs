//! Fact and condition values: the JSON values a fact or a catalog condition
//! holds, with the equality and display the planner uses.
use vstd::prelude::*;
use crate::text::{
    eq_ignore_ascii_case, join_seq, join_strings, str_eq, str_eq_ignore_ascii_case, views,
};

verus! {

/// A JSON number.
#[derive(Debug)]
pub struct JsonNumber {
    /// Its JSON text.
    pub text: String,
    /// Its value as a double, written in decimal.
    pub float_text: String,
    /// A key whose order is the numeric order of its value as a double.
    pub order_key: u64,
}

/// A JSON value as a fact or a condition holds it.
#[derive(Debug, Default)]
pub enum FactValue {
    #[default]
    Null,
    Bool(bool),
    Number(JsonNumber),
    Text(String),
    List(Vec<FactValue>),
    /// An object: its entries in the order of its keys, and its compact JSON
    /// text.
    Object(Vec<(String, FactValue)>, String),
}

/// Mathematical model of a value.
pub enum SFact {
    Null,
    Bool(bool),
    Number(Seq<char>, Seq<char>, u64),
    Text(Seq<char>),
    List(Seq<SFact>),
    Object(Seq<(Seq<char>, SFact)>, Seq<char>),
}

pub open spec fn fact_view(v: FactValue) -> SFact
    decreases v, 0int,
{
    match v {
        FactValue::Null => SFact::Null,
        FactValue::Bool(b) => SFact::Bool(b),
        FactValue::Number(n) => SFact::Number(n.text@, n.float_text@, n.order_key),
        FactValue::Text(s) => SFact::Text(s@),
        FactValue::List(items) => SFact::List(facts_view(items@)),
        FactValue::Object(es, j) => SFact::Object(entries_view(es@), j@),
    }
}

pub open spec fn entries_view(es: Seq<(String, FactValue)>) -> Seq<(Seq<char>, SFact)>
    decreases es, 0int,
{
    if es.len() == 0 {
        Seq::empty()
    } else {
        proof {
            assert(decreases_to!(es => es.last()));
            assert(decreases_to!(es.last() => es.last().1));
        }
        entries_view(es.drop_last()).push((es.last().0@, fact_view(es.last().1)))
    }
}

/// The model of an entry list is taken entry by entry.
pub proof fn lemma_entries_view(es: Seq<(String, FactValue)>)
    ensures
        entries_view(es).len() == es.len(),
        forall|i: int|
            0 <= i < es.len() ==> #[trigger] entries_view(es)[i] == (es[i].0@, fact_view(es[i].1)),
    decreases es.len(),
{
    if es.len() > 0 {
        lemma_entries_view(es.drop_last());
    }
}

pub open spec fn facts_view(vs: Seq<FactValue>) -> Seq<SFact>
    decreases vs, 0int,
{
    if vs.len() == 0 {
        Seq::empty()
    } else {
        facts_view(vs.drop_last()).push(fact_view(vs.last()))
    }
}

pub open spec fn opt_fact_view(o: Option<FactValue>) -> Option<SFact> {
    match o {
        Some(v) => Some(fact_view(v)),
        None => None,
    }
}

/// The model of a value list is taken element by element.
pub proof fn lemma_facts_view(vs: Seq<FactValue>)
    ensures
        facts_view(vs).len() == vs.len(),
        forall|i: int| 0 <= i < vs.len() ==> #[trigger] facts_view(vs)[i] == fact_view(vs[i]),
    decreases vs.len(),
{
    if vs.len() > 0 {
        lemma_facts_view(vs.drop_last());
    }
}

/// How a value is shown in a reason: strings bare, lists joined with ", ",
/// anything else as its JSON text.
pub open spec fn display(v: SFact) -> Seq<char>
    decreases v, 0int,
{
    match v {
        SFact::Text(s) => s,
        SFact::List(items) => join_seq(displays(items), ", "@),
        SFact::Null => "null"@,
        SFact::Bool(b) => if b {
            "true"@
        } else {
            "false"@
        },
        SFact::Number(t, _, _) => t,
        SFact::Object(_, j) => j,
    }
}

pub open spec fn displays(items: Seq<SFact>) -> Seq<Seq<char>>
    decreases items, 0int,
{
    if items.len() == 0 {
        Seq::empty()
    } else {
        displays(items.drop_last()).push(display(items.last()))
    }
}

proof fn lemma_displays(items: Seq<SFact>)
    ensures
        displays(items).len() == items.len(),
        forall|i: int| 0 <= i < items.len() ==> #[trigger] displays(items)[i] == display(items[i]),
    decreases items.len(),
{
    if items.len() > 0 {
        lemma_displays(items.drop_last());
    }
}

/// Two values are equal for a condition: strings up to ASCII case, anything
/// else exactly.
pub open spec fn values_equal(l: SFact, r: SFact) -> bool {
    match (l, r) {
        (SFact::Text(a), SFact::Text(b)) => eq_ignore_ascii_case(a, b),
        _ => l == r,
    }
}

/// A copy of a value.
pub fn clone_fact(v: &FactValue) -> (r: FactValue)
    ensures
        fact_view(r) == fact_view(*v),
    decreases v,
{
    match v {
        FactValue::Null => FactValue::Null,
        FactValue::Bool(b) => FactValue::Bool(*b),
        FactValue::Number(n) => FactValue::Number(
            JsonNumber {
                text: n.text.clone(),
                float_text: n.float_text.clone(),
                order_key: n.order_key,
            },
        ),
        FactValue::Text(s) => FactValue::Text(s.clone()),
        FactValue::Object(es, j) => {
            let mut out: Vec<(String, FactValue)> = Vec::new();
            let mut i: usize = 0;
            while i < es.len()
                invariant
                    i <= es@.len(),
                    *v == FactValue::Object(*es, *j),
                    entries_view(out@) == entries_view(es@.take(i as int)),
                decreases es@.len() - i,
            {
                proof {
                    assert(decreases_to!(*v => v->Object_0));
                    assert(decreases_to!(*es => es@));
                    assert(decreases_to!(es@ => es@[i as int]));
                    assert(decreases_to!(es@[i as int] => es@[i as int].1));
                }
                let c = clone_fact(&es[i].1);
                let k = es[i].0.clone();
                let ghost before = out@;
                out.push((k, c));
                proof {
                    assert(out@.drop_last() =~= before);
                    assert(es@.take(i + 1).drop_last() =~= es@.take(i as int));
                }
                i = i + 1;
            }
            proof {
                assert(es@.take(i as int) =~= es@);
            }
            FactValue::Object(out, j.clone())
        },
        FactValue::List(items) => {
            let mut out: Vec<FactValue> = Vec::new();
            let mut i: usize = 0;
            while i < items.len()
                invariant
                    i <= items@.len(),
                    *v == FactValue::List(*items),
                    facts_view(out@) == facts_view(items@.take(i as int)),
                decreases items@.len() - i,
            {
                proof {
                    assert(decreases_to!(*v => v->List_0));
                    assert(decreases_to!(*items => items@));
                    assert(decreases_to!(items@ => items@[i as int]));
                }
                let c = clone_fact(&items[i]);
                let ghost before = out@;
                out.push(c);
                proof {
                    assert(out@.drop_last() =~= before);
                    assert(items@.take(i + 1).drop_last() =~= items@.take(i as int));
                }
                i = i + 1;
            }
            proof {
                assert(items@.take(i as int) =~= items@);
            }
            FactValue::List(out)
        },
    }
}

/// Exact structural equality of two values.
pub fn facts_identical(a: &FactValue, b: &FactValue) -> (r: bool)
    ensures
        r == (fact_view(*a) == fact_view(*b)),
    decreases a,
{
    match (a, b) {
        (FactValue::Null, FactValue::Null) => true,
        (FactValue::Bool(x), FactValue::Bool(y)) => *x == *y,
        (FactValue::Number(x), FactValue::Number(y)) => {
            str_eq(x.text.as_str(), y.text.as_str()) && str_eq(
                x.float_text.as_str(),
                y.float_text.as_str(),
            ) && x.order_key == y.order_key
        },
        (FactValue::Text(x), FactValue::Text(y)) => str_eq(x.as_str(), y.as_str()),
        (FactValue::Object(xs, xj), FactValue::Object(ys, yj)) => {
            proof {
                lemma_entries_view(xs@);
                lemma_entries_view(ys@);
            }
            if xs.len() != ys.len() || !str_eq(xj.as_str(), yj.as_str()) {
                return false;
            }
            let mut i: usize = 0;
            while i < xs.len()
                invariant
                    i <= xs@.len(),
                    xs@.len() == ys@.len(),
                    *a == FactValue::Object(*xs, *xj),
                    *b == FactValue::Object(*ys, *yj),
                    xj@ == yj@,
                    entries_view(xs@).len() == xs@.len(),
                    entries_view(ys@).len() == ys@.len(),
                    forall|k: int| 0 <= k < xs@.len() ==> #[trigger] entries_view(xs@)[k] == (
                        xs@[k].0@,
                        fact_view(xs@[k].1),
                    ),
                    forall|k: int| 0 <= k < ys@.len() ==> #[trigger] entries_view(ys@)[k] == (
                        ys@[k].0@,
                        fact_view(ys@[k].1),
                    ),
                    forall|k: int| 0 <= k < i ==> #[trigger] entries_view(xs@)[k] == entries_view(ys@)[k],
                decreases xs@.len() - i,
            {
                proof {
                    assert(decreases_to!(*a => a->Object_0));
                    assert(decreases_to!(*xs => xs@));
                    assert(decreases_to!(xs@ => xs@[i as int]));
                    assert(decreases_to!(xs@[i as int] => xs@[i as int].1));
                }
                if !str_eq(xs[i].0.as_str(), ys[i].0.as_str()) || !facts_identical(&xs[i].1, &ys[i].1) {
                    proof {
                        assert(entries_view(xs@)[i as int] != entries_view(ys@)[i as int]);
                    }
                    return false;
                }
                i = i + 1;
            }
            proof {
                assert(entries_view(xs@) =~= entries_view(ys@));
            }
            true
        },
        (FactValue::List(xs), FactValue::List(ys)) => {
            proof {
                lemma_facts_view(xs@);
                lemma_facts_view(ys@);
            }
            if xs.len() != ys.len() {
                return false;
            }
            let mut i: usize = 0;
            while i < xs.len()
                invariant
                    i <= xs@.len(),
                    xs@.len() == ys@.len(),
                    *a == FactValue::List(*xs),
                    *b == FactValue::List(*ys),
                    facts_view(xs@).len() == xs@.len(),
                    facts_view(ys@).len() == ys@.len(),
                    forall|k: int| 0 <= k < xs@.len() ==> #[trigger] facts_view(xs@)[k] == fact_view(xs@[k]),
                    forall|k: int| 0 <= k < ys@.len() ==> #[trigger] facts_view(ys@)[k] == fact_view(ys@[k]),
                    forall|k: int| 0 <= k < i ==> fact_view(#[trigger] xs@[k]) == fact_view(ys@[k]),
                decreases xs@.len() - i,
            {
                proof {
                    assert(decreases_to!(*a => a->List_0));
                    assert(decreases_to!(*xs => xs@));
                    assert(decreases_to!(xs@ => xs@[i as int]));
                }
                if !facts_identical(&xs[i], &ys[i]) {
                    proof {
                        assert(facts_view(xs@)[i as int] != facts_view(ys@)[i as int]);
                    }
                    return false;
                }
                i = i + 1;
            }
            proof {
                assert(facts_view(xs@) =~= facts_view(ys@));
            }
            true
        },
        _ => false,
    }
}

/// Whether two values are equal for a condition (see [`values_equal`]).
pub fn fact_values_equal(a: &FactValue, b: &FactValue) -> (r: bool)
    ensures
        r == values_equal(fact_view(*a), fact_view(*b)),
{
    match (a, b) {
        (FactValue::Text(x), FactValue::Text(y)) => str_eq_ignore_ascii_case(x.as_str(), y.as_str()),
        _ => facts_identical(a, b),
    }
}

/// How a value is shown in a reason.
pub fn display_value(v: &FactValue) -> (r: String)
    ensures
        r@ == display(fact_view(*v)),
    decreases v,
{
    match v {
        FactValue::Text(s) => s.clone(),
        FactValue::Null => "null".to_owned(),
        FactValue::Bool(b) => if *b {
            "true".to_owned()
        } else {
            "false".to_owned()
        },
        FactValue::Number(n) => n.text.clone(),
        FactValue::Object(_, j) => j.clone(),
        FactValue::List(items) => {
            let mut parts: Vec<String> = Vec::new();
            let ghost sv = facts_view(items@);
            proof {
                lemma_facts_view(items@);
                lemma_displays(sv);
            }
            let mut i: usize = 0;
            while i < items.len()
                invariant
                    i <= items@.len(),
                    *v == FactValue::List(*items),
                    sv == facts_view(items@),
                    sv.len() == items@.len(),
                    forall|k: int| 0 <= k < items@.len() ==> #[trigger] sv[k] == fact_view(items@[k]),
                    displays(sv).len() == sv.len(),
                    forall|k: int| 0 <= k < sv.len() ==> #[trigger] displays(sv)[k] == display(sv[k]),
                    views(parts@) == displays(sv).take(i as int),
                decreases items@.len() - i,
            {
                proof {
                    assert(decreases_to!(*v => v->List_0));
                    assert(decreases_to!(*items => items@));
                    assert(decreases_to!(items@ => items@[i as int]));
                }
                let d = display_value(&items[i]);
                let ghost before = views(parts@);
                parts.push(d);
                proof {
                    assert(views(parts@) =~= before.push(d@));
                    assert(displays(sv).take(i + 1) =~= displays(sv).take(i as int).push(
                        displays(sv)[i as int],
                    ));
                    assert(views(parts@) =~= displays(sv).take(i + 1));
                }
                i = i + 1;
            }
            proof {
                assert(displays(sv).take(i as int) =~= displays(sv));
            }
            join_strings(&parts, ", ")
        },
    }
}

} // verus!
