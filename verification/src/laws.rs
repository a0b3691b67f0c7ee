use vstd::prelude::*;

use crate::compile::Query;
use crate::registry::Variable;
use crate::registry::slots_of;
use crate::compile::Slot;
use crate::compile::all_conflicts;
use crate::compile::alloc_slot;
use crate::compile::compiled;
use crate::compile::compiled_queries;
use crate::compile::compiled_query;
use crate::compile::component_conflicts;
use crate::compile::component_order;
use crate::compile::conflict_shape;
use crate::compile::conflicts_from;
use crate::compile::count_slots;
use crate::compile::lemma_count_push;
use crate::compile::lemma_wf_alloc;
use crate::compile::lemma_wf_contains;
use crate::compile::lemma_wf_slot_id;
use crate::compile::other_writer_vars;
use crate::compile::rival_vars;
use crate::compile::shared_vars;
use crate::compile::slot_id;
use crate::compile::slots_wf;
use crate::formula::Formula;
use crate::formula::FormulaShape;
use crate::formula::lemma_sat_all;
use crate::formula::lemma_sat_any;
use crate::formula::sat;
use crate::formula::shape_of;
use crate::formula::sat_all;
use crate::formula::sat_any;
use crate::formula::vars_in;
use crate::formula::vars_in_all;

verus! {

pub proof fn lemma_vars_in_mono(f: FormulaShape, n1: nat, n2: nat)
    requires
        vars_in(f, n1),
        n1 <= n2,
    ensures
        vars_in(f, n2),
    decreases f,
{
    match f {
        FormulaShape::And(fs) => lemma_vars_in_all_mono(fs, n1, n2),
        FormulaShape::Or(fs) => lemma_vars_in_all_mono(fs, n1, n2),
        FormulaShape::Neg(g) => lemma_vars_in_mono(*g, n1, n2),
        FormulaShape::Var(v) => {},
    }
}

pub proof fn lemma_vars_in_all_mono(fs: Seq<FormulaShape>, n1: nat, n2: nat)
    requires
        vars_in_all(fs, n1),
        n1 <= n2,
    ensures
        vars_in_all(fs, n2),
    decreases fs,
{
    if fs.len() > 0 {
        lemma_vars_in_all_mono(fs.drop_last(), n1, n2);
        lemma_vars_in_mono(fs.last(), n1, n2);
    }
}

pub proof fn lemma_vars_in_all_concat(xs: Seq<FormulaShape>, ys: Seq<FormulaShape>, n: nat)
    ensures
        vars_in_all(xs + ys, n) <==> (vars_in_all(xs, n) && vars_in_all(ys, n)),
    decreases ys.len(),
{
    if ys.len() == 0 {
        assert(xs + ys =~= xs);
    } else {
        lemma_vars_in_all_concat(xs, ys.drop_last(), n);
        assert((xs + ys).drop_last() =~= xs + ys.drop_last());
        assert((xs + ys).last() == ys.last());
    }
}

/// Translating queries preserves registry well-formedness, only grows
/// the registry, and emits formulas whose variables all lie inside it.
pub proof fn lemma_compiled_query_wf(s: Seq<Slot>, q: Query)
    requires
        slots_wf(s),
    ensures
        slots_wf(compiled_query(s, q).0),
        compiled_query(s, q).0.len() >= s.len(),
        vars_in(compiled_query(s, q).1, compiled_query(s, q).0.len()),
    decreases q,
{
    match q {
        Query::All(qs) => {
            lemma_compiled_queries_wf(s, qs@);
            let r = compiled_queries(s, qs@);
            assert(compiled_query(s, q) == (r.0, FormulaShape::And(r.1)));
            assert(vars_in(FormulaShape::And(r.1), r.0.len()));
        }
        Query::Any(qs) => {
            lemma_compiled_queries_wf(s, qs@);
            let r = compiled_queries(s, qs@);
            assert(compiled_query(s, q) == (r.0, FormulaShape::Or(r.1)));
            assert(vars_in(FormulaShape::Or(r.1), r.0.len()));
        }
        Query::Without(c) => {
            lemma_wf_alloc(s, c@, false);
            assert(vars_in(FormulaShape::Var(s.len()), alloc_slot(s, c@, false).len()));
            assert(vars_in(
                FormulaShape::Neg(Box::new(FormulaShape::Var(s.len()))),
                alloc_slot(s, c@, false).len(),
            ));
        }
        Query::ReadComponent(c) => {
            lemma_wf_alloc(s, c@, false);
            assert(vars_in(FormulaShape::Var(s.len()), alloc_slot(s, c@, false).len()));
        }
        Query::WriteComponent(c) => {
            lemma_wf_alloc(s, c@, true);
            assert(vars_in(FormulaShape::Var(s.len()), alloc_slot(s, c@, true).len()));
        }
    }
}

pub proof fn lemma_compiled_queries_wf(s: Seq<Slot>, qs: Seq<Query>)
    requires
        slots_wf(s),
    ensures
        slots_wf(compiled_queries(s, qs).0),
        compiled_queries(s, qs).0.len() >= s.len(),
        vars_in_all(compiled_queries(s, qs).1, compiled_queries(s, qs).0.len()),
    decreases qs,
{
    if qs.len() > 0 {
        let r = compiled_queries(s, qs.drop_last());
        lemma_compiled_queries_wf(s, qs.drop_last());
        lemma_compiled_query_wf(r.0, qs.last());
        let l = compiled_query(r.0, qs.last());
        lemma_vars_in_all_mono(r.1, r.0.len(), l.0.len());
        assert(r.1.push(l.1).drop_last() =~= r.1);
    }
}

pub proof fn lemma_shared_vars_in(s: Seq<Slot>, c: Seq<char>, k: nat)
    requires
        slots_wf(s),
        k <= count_slots(s, c, false),
    ensures
        vars_in_all(shared_vars(s, c, k), s.len()),
    decreases k,
{
    if k > 0 {
        lemma_shared_vars_in(s, c, (k - 1) as nat);
        lemma_wf_contains(s, c, false, (k - 1) as nat);
        let p = choose|p: int| 0 <= p < s.len() && #[trigger] s[p] == (c, (k - 1) as nat, false);
        lemma_wf_slot_id(s, (c, (k - 1) as nat, false), p);
        let v = FormulaShape::Var(slot_id(s, (c, (k - 1) as nat, false)));
        assert(vars_in(v, s.len()));
        assert(shared_vars(s, c, k) == shared_vars(s, c, (k - 1) as nat).push(v));
        assert(shared_vars(s, c, k).drop_last() =~= shared_vars(s, c, (k - 1) as nat));
        assert(shared_vars(s, c, k).last() == v);
    }
}

pub proof fn lemma_other_writer_vars_in(s: Seq<Slot>, c: Seq<char>, k: nat, skip: nat)
    requires
        slots_wf(s),
        k <= count_slots(s, c, true),
    ensures
        vars_in_all(other_writer_vars(s, c, k, skip), s.len()),
    decreases k,
{
    if k > 0 {
        lemma_other_writer_vars_in(s, c, (k - 1) as nat, skip);
        if (k - 1) as nat != skip {
            lemma_wf_contains(s, c, true, (k - 1) as nat);
            let p = choose|p: int| 0 <= p < s.len() && #[trigger] s[p] == (c, (k - 1) as nat, true);
            lemma_wf_slot_id(s, (c, (k - 1) as nat, true), p);
            let v = FormulaShape::Var(slot_id(s, (c, (k - 1) as nat, true)));
            assert(vars_in(v, s.len()));
            assert(other_writer_vars(s, c, k, skip) == other_writer_vars(
                s,
                c,
                (k - 1) as nat,
                skip,
            ).push(v));
            assert(other_writer_vars(s, c, k, skip).drop_last() =~= other_writer_vars(
                s,
                c,
                (k - 1) as nat,
                skip,
            ));
            assert(other_writer_vars(s, c, k, skip).last() == v);
        } else {
            assert(other_writer_vars(s, c, k, skip) == other_writer_vars(
                s,
                c,
                (k - 1) as nat,
                skip,
            ));
        }
    }
}

#[verifier::rlimit(100)]
#[verifier::spinoff_prover]
pub proof fn lemma_conflict_vars(s: Seq<Slot>, c: Seq<char>, i: nat)
    requires
        slots_wf(s),
        i < count_slots(s, c, true),
    ensures
        vars_in(conflict_shape(s, c, i), s.len()),
{
    lemma_wf_contains(s, c, true, i);
    let p = choose|p: int| 0 <= p < s.len() && #[trigger] s[p] == (c, i, true);
    lemma_wf_slot_id(s, (c, i, true), p);
    let this_var = FormulaShape::Var(slot_id(s, (c, i, true)));
    assert(vars_in(this_var, s.len()));
    let rv = rival_vars(s, c, i);
    assert(vars_in_all(rv, s.len())) by {
        lemma_shared_vars_in(s, c, count_slots(s, c, false));
        lemma_other_writer_vars_in(s, c, count_slots(s, c, true), i);
        lemma_vars_in_all_concat(
            shared_vars(s, c, count_slots(s, c, false)),
            other_writer_vars(s, c, count_slots(s, c, true), i),
            s.len(),
        );
    }
    let rest = FormulaShape::Or(rv);
    assert(vars_in(rest, s.len()));
    let pair = seq![this_var, rest];
    assert(vars_in_all(pair, s.len())) by {
        assert(pair.drop_last() =~= seq![this_var]);
        assert(seq![this_var].drop_last() =~= Seq::<FormulaShape>::empty());
        assert(vars_in_all(Seq::<FormulaShape>::empty(), s.len()));
        assert(vars_in_all(seq![this_var], s.len()));
        assert(pair.last() == rest);
    }
    assert(vars_in(FormulaShape::And(pair), s.len()));
    assert(conflict_shape(s, c, i) == FormulaShape::Neg(Box::new(FormulaShape::And(pair))));
}

pub proof fn lemma_component_conflicts_vars(s: Seq<Slot>, c: Seq<char>, k: nat)
    requires
        slots_wf(s),
        k <= count_slots(s, c, true),
    ensures
        vars_in_all(component_conflicts(s, c, k), s.len()),
    decreases k,
{
    if k > 0 {
        lemma_component_conflicts_vars(s, c, (k - 1) as nat);
        lemma_conflict_vars(s, c, (k - 1) as nat);
        assert(component_conflicts(s, c, k).drop_last() =~= component_conflicts(
            s,
            c,
            (k - 1) as nat,
        ));
    }
}

pub proof fn lemma_conflicts_from_vars(s: Seq<Slot>, cs: Seq<Seq<char>>)
    requires
        slots_wf(s),
    ensures
        vars_in_all(conflicts_from(s, cs), s.len()),
    decreases cs.len(),
{
    if cs.len() > 0 {
        lemma_conflicts_from_vars(s, cs.drop_last());
        lemma_component_conflicts_vars(s, cs.last(), count_slots(s, cs.last(), true));
        lemma_vars_in_all_concat(
            conflicts_from(s, cs.drop_last()),
            component_conflicts(s, cs.last(), count_slots(s, cs.last(), true)),
            s.len(),
        );
    }
}

/// A compiled query sequence is well-formed: the registry indexes its
/// slots densely, and every variable of the formula is a registered
/// identity. Verified callers use this to hand the compiler's output
/// to the satisfiability search.
pub proof fn lemma_compiled_wf(qs: Seq<Query>)
    ensures
        slots_wf(compiled(qs).0),
        vars_in(compiled(qs).1, compiled(qs).0.len()),
{
    let e = Seq::<Slot>::empty();
    assert(slots_wf(e));
    lemma_compiled_queries_wf(e, qs);
    let r = compiled_queries(e, qs);
    lemma_conflicts_from_vars(r.0, component_order(r.0));
    let inner = FormulaShape::And(r.1);
    assert(vars_in(inner, r.0.len()));
    assert(seq![inner].drop_last() =~= Seq::<FormulaShape>::empty());
    assert(vars_in_all(Seq::<FormulaShape>::empty(), r.0.len()));
    assert(vars_in_all(seq![inner], r.0.len()));
    lemma_vars_in_all_concat(seq![inner], all_conflicts(r.0), r.0.len());
    assert(vars_in(FormulaShape::And(seq![inner] + all_conflicts(r.0)), r.0.len()));
}

proof fn lemma_reads_compiled(s: Seq<Slot>, qs: Seq<Query>, r: &'static str)
    requires
        forall|i: int| 0 <= i < qs.len() ==> qs[i] == Query::ReadComponent(r),
    ensures
        compiled_queries(s, qs).0.len() == s.len() + qs.len(),
        forall|c: Seq<char>| #[trigger] count_slots(compiled_queries(s, qs).0, c, true)
            == count_slots(s, c, true),
        compiled_queries(s, qs).1.len() == qs.len(),
        forall|k: int|
            0 <= k < qs.len() ==> #[trigger] compiled_queries(s, qs).1[k] == FormulaShape::Var(
                (s.len() + k) as nat,
            ),
    decreases qs.len(),
{
    if qs.len() > 0 {
        lemma_reads_compiled(s, qs.drop_last(), r);
        let p = compiled_queries(s, qs.drop_last());
        assert(qs.last() == qs[qs.len() - 1]);
        let l = compiled_query(p.0, qs.last());
        assert(l.0 == alloc_slot(p.0, r@, false));
        assert(l.1 == FormulaShape::Var(p.0.len()));
        assert forall|c: Seq<char>| #[trigger] count_slots(l.0, c, true) == count_slots(
            s,
            c,
            true,
        ) by {
            lemma_count_push(p.0, (r@, count_slots(p.0, r@, false), false), c, true);
        }
        assert(p.1.push(l.1).drop_last() =~= p.1);
    }
}

proof fn lemma_no_writers_no_conflicts(s: Seq<Slot>, cs: Seq<Seq<char>>)
    requires
        forall|c: Seq<char>| #[trigger] count_slots(s, c, true) == 0,
    ensures
        conflicts_from(s, cs) == Seq::<FormulaShape>::empty(),
    decreases cs.len(),
{
    if cs.len() > 0 {
        lemma_no_writers_no_conflicts(s, cs.drop_last());
        assert(count_slots(s, cs.last(), true) == 0);
        assert(component_conflicts(s, cs.last(), 0) == Seq::<FormulaShape>::empty());
        assert(conflicts_from(s, cs.drop_last()) + Seq::<FormulaShape>::empty() =~= Seq::<
            FormulaShape,
        >::empty());
    }
}

/// Pure readers never conflict: a query sequence that only requires
/// shared access to one resource compiles to a formula that the
/// assignment granting every slot satisfies.
pub proof fn lemma_shared_only_satisfiable(qs: Seq<Query>, r: &'static str)
    requires
        forall|i: int| 0 <= i < qs.len() ==> qs[i] == Query::ReadComponent(r),
    ensures
        sat(compiled(qs).1, Seq::new(compiled(qs).0.len(), |i: int| true)),
{
    let e = Seq::<Slot>::empty();
    let o = compiled_queries(e, qs);
    lemma_reads_compiled(e, qs, r);
    lemma_no_writers_no_conflicts(o.0, component_order(o.0));
    let a = Seq::new(o.0.len(), |i: int| true);
    let inner = FormulaShape::And(o.1);
    assert(sat_all(o.1, a)) by {
        lemma_sat_all(o.1, a);
        assert forall|k: int| 0 <= k < o.1.len() implies sat(#[trigger] o.1[k], a) by {
            assert(o.1[k] == FormulaShape::Var((e.len() + k) as nat));
            assert(a[k] == true);
            assert(sat(FormulaShape::Var(k as nat), a));
        }
    }
    assert(sat(inner, a));
    let top = seq![inner] + all_conflicts(o.0);
    assert(top =~= seq![inner]);
    assert(sat_all(top, a)) by {
        assert(seq![inner].drop_last() =~= Seq::<FormulaShape>::empty());
        assert(sat_all(Seq::<FormulaShape>::empty(), a));
        assert(seq![inner].last() == inner);
        assert(sat_all(seq![inner], a));
    }
    assert(compiled(qs).1 == FormulaShape::And(top));
    assert(sat(FormulaShape::And(top), a));
}

/// The compilation of two single-resource requests for `r`: two slots
/// in request order, indexed per mutability, and one variable each.
proof fn lemma_two_accesses(r: &'static str, m1: bool, m2: bool)
    ensures
        ({
            let q1: Query = if m1 {
                Query::WriteComponent(r)
            } else {
                Query::ReadComponent(r)
            };
            let q2: Query = if m2 {
                Query::WriteComponent(r)
            } else {
                Query::ReadComponent(r)
            };
            let o = compiled_queries(Seq::empty(), seq![q1, q2]);
            &&& o.0 == seq![(r@, 0nat, m1), (r@, (if m1 == m2 { 1nat } else { 0nat }), m2)]
            &&& o.1 == seq![FormulaShape::Var(0nat), FormulaShape::Var(1nat)]
        }),
{
    let q1: Query = if m1 {
        Query::WriteComponent(r)
    } else {
        Query::ReadComponent(r)
    };
    let q2: Query = if m2 {
        Query::WriteComponent(r)
    } else {
        Query::ReadComponent(r)
    };
    let qs = seq![q1, q2];
    let e = Seq::<Slot>::empty();
    assert(qs.drop_last() =~= seq![q1]);
    assert(seq![q1].drop_last() =~= Seq::<Query>::empty());
    assert(qs.last() == q2 && seq![q1].last() == q1);
    assert(compiled_queries(e, Seq::<Query>::empty()) == (e, Seq::<FormulaShape>::empty()));
    assert(count_slots(e, r@, m1) == 0);
    let s1 = e.push((r@, 0nat, m1));
    assert(alloc_slot(e, r@, m1) == s1);
    assert(compiled_query(e, q1) == (s1, FormulaShape::Var(0nat)));
    assert(compiled_queries(e, seq![q1]) == (s1, Seq::<FormulaShape>::empty().push(
        FormulaShape::Var(0nat),
    )));
    assert(count_slots(s1, r@, m2) == (if m1 == m2 { 1nat } else { 0nat })) by {
        assert(s1.drop_last() =~= e);
        assert(s1.last() == (r@, 0nat, m1));
        assert(count_slots(e, r@, m2) == 0);
    }
    let x2: Slot = (r@, (if m1 == m2 { 1nat } else { 0nat }), m2);
    let s2 = s1.push(x2);
    assert(alloc_slot(s1, r@, m2) == s2);
    assert(s1.len() == 1);
    assert(compiled_query(s1, q2) == (s2, FormulaShape::Var(1nat)));
    let o = compiled_queries(e, qs);
    assert(o.0 == s2);
    assert(o.0 =~= seq![(r@, 0nat, m1), x2]);
    assert(o.1 =~= seq![FormulaShape::Var(0nat), FormulaShape::Var(1nat)]);
}

/// The component order and per-mutability counts of a two-slot registry
/// for the single resource `r`.
proof fn lemma_two_slot_registry(r: &'static str, x1: Slot, x2: Slot)
    requires
        x1.0 == r@,
        x2.0 == r@,
    ensures
        component_order(seq![x1, x2]) == seq![r@],
        count_slots(seq![x1, x2], r@, true) == (if x1.2 {
            1nat
        } else {
            0nat
        }) + (if x2.2 {
            1nat
        } else {
            0nat
        }),
        count_slots(seq![x1, x2], r@, false) == (if !x1.2 {
            1nat
        } else {
            0nat
        }) + (if !x2.2 {
            1nat
        } else {
            0nat
        }),
{
    let s = seq![x1, x2];
    let e = Seq::<Slot>::empty();
    assert(s.drop_last() =~= seq![x1]);
    assert(seq![x1].drop_last() =~= e);
    assert(s.last() == x2 && seq![x1].last() == x1);
    assert(component_order(e) == Seq::<Seq<char>>::empty());
    assert(!Seq::<Seq<char>>::empty().contains(r@));
    assert(component_order(seq![x1]) == Seq::<Seq<char>>::empty().push(r@));
    assert(component_order(seq![x1]).contains(r@)) by {
        assert(component_order(seq![x1])[0] == r@);
    }
    assert(component_order(s) == component_order(seq![x1]));
    assert(component_order(s) =~= seq![r@]);
    assert(count_slots(e, r@, true) == 0 && count_slots(e, r@, false) == 0);
    assert(count_slots(seq![x1], r@, true) == (if x1.2 {
        1nat
    } else {
        0nat
    }));
    assert(count_slots(seq![x1], r@, false) == (if !x1.2 {
        1nat
    } else {
        0nat
    }));
}

/// One shared and one exclusive request for the same resource can never
/// both be granted: an assignment satisfying the compiled formula of
/// `[ReadComponent(r), WriteComponent(r)]` leaves one of the two slots
/// inactive.
pub proof fn lemma_reader_writer_conflict(r: &'static str, a: Seq<bool>)
    requires
        sat(compiled(seq![Query::ReadComponent(r), Query::WriteComponent(r)]).1, a),
    ensures
        !(a[0] && a[1]),
{
    let qs = seq![Query::ReadComponent(r), Query::WriteComponent(r)];
    lemma_two_accesses(r, false, true);
    let o = compiled_queries(Seq::<Slot>::empty(), qs);
    let x1: Slot = (r@, 0nat, false);
    let x2: Slot = (r@, 0nat, true);
    let s = o.0;
    assert(s == seq![x1, x2]);
    lemma_two_slot_registry(r, x1, x2);
    assert(count_slots(s, r@, true) == 1);
    assert(count_slots(s, r@, false) == 1);
    // the one conflict constraint
    assert(slot_id(s, x2) == 1) by {
        assert(s[0] == x1 && x1 != x2);
        assert(s.drop_first() =~= seq![x2]);
        assert(seq![x2][0] == x2);
        assert(slot_id(seq![x2], x2) == 0);
    }
    assert(slot_id(s, x1) == 0) by {
        assert(s[0] == x1);
    }
    let rivals = rival_vars(s, r@, 0nat);
    assert(rivals =~= seq![FormulaShape::Var(0nat)]) by {
        assert(shared_vars(s, r@, 0nat) == Seq::<FormulaShape>::empty());
        assert(shared_vars(s, r@, 1nat) == Seq::<FormulaShape>::empty().push(
            FormulaShape::Var(slot_id(s, (r@, 0nat, false))),
        ));
        assert(other_writer_vars(s, r@, 0nat, 0nat) == Seq::<FormulaShape>::empty());
        assert(other_writer_vars(s, r@, 1nat, 0nat) == Seq::<FormulaShape>::empty());
    }
    let cf = conflict_shape(s, r@, 0nat);
    let conflicts = all_conflicts(s);
    assert(conflicts =~= seq![cf]) by {
        assert(seq![r@].drop_last() =~= Seq::<Seq<char>>::empty());
        assert(seq![r@].last() == r@);
        assert(conflicts_from(s, Seq::<Seq<char>>::empty()) == Seq::<FormulaShape>::empty());
        assert(component_conflicts(s, r@, 0nat) == Seq::<FormulaShape>::empty());
        assert(component_conflicts(s, r@, 1nat) == Seq::<FormulaShape>::empty().push(cf));
        assert(conflicts_from(s, seq![r@]) == Seq::<FormulaShape>::empty()
            + component_conflicts(s, r@, 1nat));
    }
    let inner = FormulaShape::And(o.1);
    let top = seq![inner] + conflicts;
    assert(compiled(qs).1 == FormulaShape::And(top));
    assert(top =~= seq![inner, cf]);
    assert(sat_all(top, a));
    lemma_sat_all(top, a);
    assert(sat(top[1], a));
    assert(sat(cf, a));
    // unpack the constraint: not both of variable 1 and variable 0
    let pair = seq![FormulaShape::Var(1nat), FormulaShape::Or(rivals)];
    assert(cf == FormulaShape::Neg(Box::new(FormulaShape::And(pair))));
    assert(!sat(FormulaShape::And(pair), a));
    assert(!sat_all(pair, a));
    if a[0] && a[1] {
        // both granted: the inner conjunction of the two query variables
        assert(sat(top[0], a));
        assert(sat_all(o.1, a));
        lemma_sat_all(o.1, a);
        assert(sat(o.1[1], a));
        assert(sat(FormulaShape::Var(1nat), a));
        assert(sat(o.1[0], a));
        assert(sat(FormulaShape::Var(0nat), a));
        assert(sat(FormulaShape::Or(rivals), a)) by {
            lemma_sat_any(rivals, a);
            assert(rivals[0] == FormulaShape::Var(0nat));
        }
        lemma_sat_all(pair, a);
        assert(sat(pair[0], a) && sat(pair[1], a));
        assert(false);
    }
}

/// Two exclusive requests for the same resource can never both be
/// granted: an assignment satisfying the compiled formula of
/// `[WriteComponent(r), WriteComponent(r)]` leaves one of the two slots
/// inactive.
pub proof fn lemma_two_writers_conflict(r: &'static str, a: Seq<bool>)
    requires
        sat(compiled(seq![Query::WriteComponent(r), Query::WriteComponent(r)]).1, a),
    ensures
        !(a[0] && a[1]),
{
    let qs = seq![Query::WriteComponent(r), Query::WriteComponent(r)];
    lemma_two_accesses(r, true, true);
    let o = compiled_queries(Seq::<Slot>::empty(), qs);
    let x1: Slot = (r@, 0nat, true);
    let x2: Slot = (r@, 1nat, true);
    let s = o.0;
    assert(s == seq![x1, x2]);
    lemma_two_slot_registry(r, x1, x2);
    assert(count_slots(s, r@, true) == 2);
    assert(count_slots(s, r@, false) == 0);
    assert(slot_id(s, x1) == 0) by {
        assert(s[0] == x1);
    }
    assert(slot_id(s, x2) == 1) by {
        assert(s[0] == x1 && x1 != x2);
        assert(s.drop_first() =~= seq![x2]);
        assert(seq![x2][0] == x2);
        assert(slot_id(seq![x2], x2) == 0);
    }
    let rivals = rival_vars(s, r@, 0nat);
    assert(rivals =~= seq![FormulaShape::Var(1nat)]) by {
        assert(shared_vars(s, r@, 0nat) == Seq::<FormulaShape>::empty());
        assert(other_writer_vars(s, r@, 0nat, 0nat) == Seq::<FormulaShape>::empty());
        assert(other_writer_vars(s, r@, 1nat, 0nat) == Seq::<FormulaShape>::empty());
        assert(other_writer_vars(s, r@, 2nat, 0nat) == Seq::<FormulaShape>::empty().push(
            FormulaShape::Var(slot_id(s, (r@, 1nat, true))),
        ));
        assert(Seq::<FormulaShape>::empty() + other_writer_vars(s, r@, 2nat, 0nat)
            =~= other_writer_vars(s, r@, 2nat, 0nat));
    }
    let cf = conflict_shape(s, r@, 0nat);
    let conflicts = all_conflicts(s);
    let cf1 = conflict_shape(s, r@, 1nat);
    assert(conflicts =~= seq![cf, cf1]) by {
        assert(seq![r@].drop_last() =~= Seq::<Seq<char>>::empty());
        assert(seq![r@].last() == r@);
        assert(conflicts_from(s, Seq::<Seq<char>>::empty()) == Seq::<FormulaShape>::empty());
        assert(component_conflicts(s, r@, 0nat) == Seq::<FormulaShape>::empty());
        assert(component_conflicts(s, r@, 1nat) == Seq::<FormulaShape>::empty().push(cf));
        assert(component_conflicts(s, r@, 2nat) == component_conflicts(s, r@, 1nat).push(cf1));
        assert(conflicts_from(s, seq![r@]) == Seq::<FormulaShape>::empty()
            + component_conflicts(s, r@, 2nat));
    }
    let inner = FormulaShape::And(o.1);
    let top = seq![inner] + conflicts;
    assert(compiled(qs).1 == FormulaShape::And(top));
    assert(top =~= seq![inner, cf, cf1]);
    assert(sat_all(top, a));
    lemma_sat_all(top, a);
    assert(sat(top[1], a));
    assert(sat(cf, a));
    let pair = seq![FormulaShape::Var(0nat), FormulaShape::Or(rivals)];
    assert(cf == FormulaShape::Neg(Box::new(FormulaShape::And(pair))));
    assert(!sat(FormulaShape::And(pair), a));
    assert(!sat_all(pair, a));
    if a[0] && a[1] {
        assert(sat(top[0], a));
        assert(sat_all(o.1, a));
        lemma_sat_all(o.1, a);
        assert(sat(o.1[0], a));
        assert(sat(FormulaShape::Var(0nat), a));
        assert(sat(o.1[1], a));
        assert(sat(FormulaShape::Var(1nat), a));
        assert(sat(FormulaShape::Or(rivals), a)) by {
            lemma_sat_any(rivals, a);
            assert(rivals[0] == FormulaShape::Var(1nat));
        }
        lemma_sat_all(pair, a);
        assert(sat(pair[0], a) && sat(pair[1], a));
        assert(false);
    }
}

/// A single exclusive request is satisfiable: granting its one slot
/// satisfies the compiled formula of `[WriteComponent(r)]`, since the
/// slot has no rival access.
pub proof fn lemma_single_writer_satisfiable(r: &'static str)
    ensures
        sat(compiled(seq![Query::WriteComponent(r)]).1, seq![true]),
{
    let qs = seq![Query::WriteComponent(r)];
    let e = Seq::<Slot>::empty();
    let a = seq![true];
    assert(qs.drop_last() =~= Seq::<Query>::empty());
    assert(qs.last() == Query::WriteComponent(r));
    assert(compiled_queries(e, Seq::<Query>::empty()) == (e, Seq::<FormulaShape>::empty()));
    assert(count_slots(e, r@, true) == 0 && count_slots(e, r@, false) == 0);
    let x1: Slot = (r@, 0nat, true);
    let s = e.push(x1);
    assert(alloc_slot(e, r@, true) == s);
    assert(compiled_query(e, Query::WriteComponent(r)) == (s, FormulaShape::Var(0nat)));
    let o = compiled_queries(e, qs);
    assert(o.0 == s);
    assert(o.1 == Seq::<FormulaShape>::empty().push(FormulaShape::Var(0nat)));
    assert(o.1 =~= seq![FormulaShape::Var(0nat)]);
    assert(s.drop_last() =~= e);
    assert(s.last() == x1);
    assert(count_slots(s, r@, true) == 1 && count_slots(s, r@, false) == 0);
    assert(component_order(e) == Seq::<Seq<char>>::empty());
    assert(!Seq::<Seq<char>>::empty().contains(r@));
    assert(component_order(s) == Seq::<Seq<char>>::empty().push(r@));
    assert(component_order(s) =~= seq![r@]);
    let rivals = rival_vars(s, r@, 0nat);
    assert(rivals =~= Seq::<FormulaShape>::empty()) by {
        assert(shared_vars(s, r@, 0nat) == Seq::<FormulaShape>::empty());
        assert(other_writer_vars(s, r@, 0nat, 0nat) == Seq::<FormulaShape>::empty());
        assert(other_writer_vars(s, r@, 1nat, 0nat) == Seq::<FormulaShape>::empty());
    }
    let cf = conflict_shape(s, r@, 0nat);
    let conflicts = all_conflicts(s);
    assert(conflicts =~= seq![cf]) by {
        assert(seq![r@].drop_last() =~= Seq::<Seq<char>>::empty());
        assert(seq![r@].last() == r@);
        assert(conflicts_from(s, Seq::<Seq<char>>::empty()) == Seq::<FormulaShape>::empty());
        assert(component_conflicts(s, r@, 0nat) == Seq::<FormulaShape>::empty());
        assert(component_conflicts(s, r@, 1nat) == Seq::<FormulaShape>::empty().push(cf));
        assert(conflicts_from(s, seq![r@]) == Seq::<FormulaShape>::empty()
            + component_conflicts(s, r@, 1nat));
    }
    assert(sat(cf, a)) by {
        let pair = seq![FormulaShape::Var(0nat), FormulaShape::Or(rivals)];
        assert(cf == FormulaShape::Neg(Box::new(FormulaShape::And(pair))));
        assert(!sat_any(rivals, a));
        assert(!sat(FormulaShape::Or(rivals), a));
        lemma_sat_all(pair, a);
        assert(pair[1] == FormulaShape::Or(rivals));
        assert(!sat_all(pair, a));
        assert(!sat(FormulaShape::And(pair), a));
    }
    let inner = FormulaShape::And(o.1);
    assert(sat(inner, a)) by {
        lemma_sat_all(o.1, a);
        assert(o.1[0] == FormulaShape::Var(0nat));
        assert(a[0] == true);
        assert(sat(FormulaShape::Var(0nat), a));
    }
    let top = seq![inner] + conflicts;
    assert(compiled(qs).1 == FormulaShape::And(top));
    assert(top =~= seq![inner, cf]);
    assert(sat_all(top, a)) by {
        lemma_sat_all(top, a);
        assert forall|k: int| 0 <= k < top.len() implies sat(#[trigger] top[k], a) by {
            if k == 0 {
                assert(top[0] == inner);
            } else {
                assert(top[1] == cf);
            }
        }
    }
    assert(sat(FormulaShape::And(top), a));
}

/// An empty query sequence compiles to an empty registry and a formula
/// that the empty assignment satisfies.
pub proof fn lemma_empty_queries_satisfiable()
    ensures
        compiled(Seq::<Query>::empty()).0 == Seq::<Slot>::empty(),
        sat(compiled(Seq::<Query>::empty()).1, Seq::<bool>::empty()),
{
    let e = Seq::<Slot>::empty();
    let a = Seq::<bool>::empty();
    let o = compiled_queries(e, Seq::<Query>::empty());
    assert(o == (e, Seq::<FormulaShape>::empty()));
    assert(component_order(e) == Seq::<Seq<char>>::empty());
    assert(all_conflicts(e) == Seq::<FormulaShape>::empty());
    let inner = FormulaShape::And(Seq::<FormulaShape>::empty());
    let top = seq![inner] + all_conflicts(e);
    assert(top =~= seq![inner]);
    assert(compiled(Seq::<Query>::empty()).1 == FormulaShape::And(top));
    assert(sat_all(Seq::<FormulaShape>::empty(), a));
    assert(sat(inner, a));
    assert(sat_all(top, a)) by {
        assert(seq![inner].drop_last() =~= Seq::<FormulaShape>::empty());
        assert(seq![inner].last() == inner);
    }
    assert(sat(FormulaShape::And(top), a));
}

/// Compilation is deterministic: any two results of compiling one
/// query sequence agree on the registry's slots, identity for
/// identity, and on the shape of the formula tree.
pub proof fn lemma_compilation_deterministic(
    qs: Seq<Query>,
    r1: (Formula, indexmap::IndexSet<Variable>),
    r2: (Formula, indexmap::IndexSet<Variable>),
)
    requires
        slots_of(r1.1) == compiled(qs).0,
        shape_of(r1.0) == compiled(qs).1,
        slots_of(r2.1) == compiled(qs).0,
        shape_of(r2.0) == compiled(qs).1,
    ensures
        slots_of(r1.1) == slots_of(r2.1),
        shape_of(r1.0) == shape_of(r2.0),
{
}

} // verus!