use vstd::prelude::*;

use crate::formula::Formula;
use crate::formula::FormulaShape;
use crate::formula::shape_of;
use crate::formula::shapes_of;
use crate::registry::Variable;
use crate::registry::registry_index_of;
use crate::registry::registry_insert_full;
use crate::registry::registry_len;
use crate::registry::registry_new;
use crate::registry::slots_of;
use crate::registry::str_eq;

verus! {

/// A declarative query over resource accesses.
#[derive(Debug)]
pub enum Query {
    /// Every sub-query must hold.
    All(Vec<Query>),
    /// Some sub-query must hold.
    Any(Vec<Query>),
    /// The named resource must not be touched: the negation of a fresh
    /// shared-access slot.
    Without(&'static str),
    /// Shared (read) access to the named resource.
    ReadComponent(&'static str),
    /// Exclusive (write) access to the named resource.
    WriteComponent(&'static str),
}

/// The model of one registered slot: resource name, index, mutability.
pub type Slot = (Seq<char>, nat, bool);

/// How many slots for resource `c` with mutability `m` the sequence holds.
pub open spec fn count_slots(s: Seq<Slot>, c: Seq<char>, m: bool) -> nat
    decreases s.len(),
{
    if s.len() == 0 {
        0
    } else {
        count_slots(s.drop_last(), c, m) + if s.last().0 == c && s.last().2 == m {
            1nat
        } else {
            0nat
        }
    }
}

/// Appends a fresh slot for resource `c` with mutability `m`; its index
/// is the number of such slots allocated before it.
pub open spec fn alloc_slot(s: Seq<Slot>, c: Seq<char>, m: bool) -> Seq<Slot> {
    s.push((c, count_slots(s, c, m), m))
}

/// Translates one query, threading the slot sequence: each resource
/// mention allocates a fresh slot, and the emitted formula refers to
/// that slot's identity, which is its position.
pub open spec fn compiled_query(s: Seq<Slot>, q: Query) -> (Seq<Slot>, FormulaShape)
    decreases q,
{
    match q {
        Query::All(qs) => {
            let r = compiled_queries(s, qs@);
            (r.0, FormulaShape::And(r.1))
        }
        Query::Any(qs) => {
            let r = compiled_queries(s, qs@);
            (r.0, FormulaShape::Or(r.1))
        }
        Query::Without(c) => (
            alloc_slot(s, c@, false),
            FormulaShape::Neg(Box::new(FormulaShape::Var(s.len()))),
        ),
        Query::ReadComponent(c) => (alloc_slot(s, c@, false), FormulaShape::Var(s.len())),
        Query::WriteComponent(c) => (alloc_slot(s, c@, true), FormulaShape::Var(s.len())),
    }
}

/// Translates a sequence of queries left to right.
pub open spec fn compiled_queries(s: Seq<Slot>, qs: Seq<Query>) -> (Seq<Slot>, Seq<FormulaShape>)
    decreases qs,
{
    if qs.len() == 0 {
        (s, Seq::empty())
    } else {
        let r = compiled_queries(s, qs.drop_last());
        let l = compiled_query(r.0, qs.last());
        (l.0, r.1.push(l.1))
    }
}

/// The position of the first occurrence of `t`.
pub open spec fn slot_id(s: Seq<Slot>, t: Slot) -> nat
    decreases s.len(),
{
    if s.len() == 0 {
        0
    } else if s[0] == t {
        0
    } else {
        1 + slot_id(s.drop_first(), t)
    }
}

/// Variables for the first `k` shared slots of resource `c`, in index order.
pub open spec fn shared_vars(s: Seq<Slot>, c: Seq<char>, k: nat) -> Seq<FormulaShape>
    decreases k,
{
    if k == 0 {
        Seq::empty()
    } else {
        shared_vars(s, c, (k - 1) as nat).push(
            FormulaShape::Var(slot_id(s, (c, (k - 1) as nat, false))),
        )
    }
}

/// Variables for the first `k` exclusive slots of resource `c` other
/// than slot `skip`, in index order.
pub open spec fn other_writer_vars(s: Seq<Slot>, c: Seq<char>, k: nat, skip: nat) -> Seq<
    FormulaShape,
>
    decreases k,
{
    if k == 0 {
        Seq::empty()
    } else {
        let rest = other_writer_vars(s, c, (k - 1) as nat, skip);
        if (k - 1) as nat == skip {
            rest
        } else {
            rest.push(FormulaShape::Var(slot_id(s, (c, (k - 1) as nat, true))))
        }
    }
}

/// Every access to resource `c` that may not be active together with
/// its exclusive slot `i`: all shared slots, then all other exclusive
/// slots.
pub open spec fn rival_vars(s: Seq<Slot>, c: Seq<char>, i: nat) -> Seq<FormulaShape> {
    shared_vars(s, c, count_slots(s, c, false)) + other_writer_vars(
        s,
        c,
        count_slots(s, c, true),
        i,
    )
}

/// The mutual-exclusion constraint for exclusive slot `i` of resource
/// `c`: not both of that slot and any rival access.
pub open spec fn conflict_shape(s: Seq<Slot>, c: Seq<char>, i: nat) -> FormulaShape {
    FormulaShape::Neg(
        Box::new(
            FormulaShape::And(
                seq![
                    FormulaShape::Var(slot_id(s, (c, i, true))),
                    FormulaShape::Or(rival_vars(s, c, i)),
                ],
            ),
        ),
    )
}

/// The constraints for the first `k` exclusive slots of resource `c`.
pub open spec fn component_conflicts(s: Seq<Slot>, c: Seq<char>, k: nat) -> Seq<FormulaShape>
    decreases k,
{
    if k == 0 {
        Seq::empty()
    } else {
        component_conflicts(s, c, (k - 1) as nat).push(conflict_shape(s, c, (k - 1) as nat))
    }
}

/// The distinct resource names of the slot sequence, in first-mention order.
pub open spec fn component_order(s: Seq<Slot>) -> Seq<Seq<char>>
    decreases s.len(),
{
    if s.len() == 0 {
        Seq::empty()
    } else {
        let p = component_order(s.drop_last());
        if p.contains(s.last().0) {
            p
        } else {
            p.push(s.last().0)
        }
    }
}

/// The constraints of the listed resources, in order.
pub open spec fn conflicts_from(s: Seq<Slot>, cs: Seq<Seq<char>>) -> Seq<FormulaShape>
    decreases cs.len(),
{
    if cs.len() == 0 {
        Seq::empty()
    } else {
        conflicts_from(s, cs.drop_last()) + component_conflicts(
            s,
            cs.last(),
            count_slots(s, cs.last(), true),
        )
    }
}

/// One mutual-exclusion constraint per exclusive slot of every
/// resource, resources in first-mention order.
pub open spec fn all_conflicts(s: Seq<Slot>) -> Seq<FormulaShape> {
    conflicts_from(s, component_order(s))
}

/// The whole compilation: translate every query, conjoin the per-query
/// formulas, and conjoin the mutual-exclusion constraints after them.
pub open spec fn compiled(qs: Seq<Query>) -> (Seq<Slot>, FormulaShape) {
    let r = compiled_queries(Seq::empty(), qs);
    (r.0, FormulaShape::And(seq![FormulaShape::And(r.1)] + all_conflicts(r.0)))
}

/// A slot sequence as the compiler builds it: each slot's index counts
/// the earlier slots of the same resource and mutability.
pub open spec fn slots_wf(s: Seq<Slot>) -> bool {
    forall|p: int|
        0 <= p < s.len() ==> (#[trigger] s[p]).1 == count_slots(s.subrange(0, p), s[p].0, s[p].2)
}

pub proof fn lemma_count_le_len(s: Seq<Slot>, c: Seq<char>, m: bool)
    ensures
        count_slots(s, c, m) <= s.len(),
    decreases s.len(),
{
    if s.len() > 0 {
        lemma_count_le_len(s.drop_last(), c, m);
    }
}

pub proof fn lemma_count_push(s: Seq<Slot>, x: Slot, c: Seq<char>, m: bool)
    ensures
        count_slots(s.push(x), c, m) == count_slots(s, c, m) + if x.0 == c && x.2 == m {
            1nat
        } else {
            0nat
        },
{
    assert(s.push(x).drop_last() =~= s);
    assert(s.push(x).last() == x);
}

pub proof fn lemma_count_prefix_mono(s: Seq<Slot>, c: Seq<char>, m: bool, p: int, q: int)
    requires
        0 <= p <= q <= s.len(),
    ensures
        count_slots(s.subrange(0, p), c, m) <= count_slots(s.subrange(0, q), c, m),
    decreases q - p,
{
    if p < q {
        lemma_count_prefix_mono(s, c, m, p, q - 1);
        assert(s.subrange(0, q).drop_last() =~= s.subrange(0, q - 1));
    }
}

pub proof fn lemma_count_prefix_step(s: Seq<Slot>, c: Seq<char>, m: bool, p: int)
    requires
        0 <= p < s.len(),
    ensures
        count_slots(s.subrange(0, p + 1), c, m) == count_slots(s.subrange(0, p), c, m) + if s[p].0
            == c && s[p].2 == m {
            1nat
        } else {
            0nat
        },
{
    assert(s.subrange(0, p + 1).drop_last() =~= s.subrange(0, p));
    assert(s.subrange(0, p + 1).last() == s[p]);
}

pub proof fn lemma_wf_index_lt(s: Seq<Slot>, p: int)
    requires
        slots_wf(s),
        0 <= p < s.len(),
    ensures
        s[p].1 < count_slots(s, s[p].0, s[p].2),
{
    lemma_count_prefix_step(s, s[p].0, s[p].2, p);
    lemma_count_prefix_mono(s, s[p].0, s[p].2, p + 1, s.len() as int);
    assert(s.subrange(0, s.len() as int) =~= s);
}

pub proof fn lemma_wf_fresh(s: Seq<Slot>, c: Seq<char>, m: bool)
    requires
        slots_wf(s),
    ensures
        forall|p: int| 0 <= p < s.len() ==> #[trigger] s[p] != (c, count_slots(s, c, m), m),
{
    assert forall|p: int| 0 <= p < s.len() implies #[trigger] s[p] != (
        c,
        count_slots(s, c, m),
        m,
    ) by {
        lemma_wf_index_lt(s, p);
    }
}

pub proof fn lemma_wf_drop_last(s: Seq<Slot>)
    requires
        slots_wf(s),
        s.len() > 0,
    ensures
        slots_wf(s.drop_last()),
{
    assert forall|p: int|
        0 <= p < s.drop_last().len() implies (#[trigger] s.drop_last()[p]).1 == count_slots(
        s.drop_last().subrange(0, p),
        s.drop_last()[p].0,
        s.drop_last()[p].2,
    ) by {
        assert(s.drop_last().subrange(0, p) =~= s.subrange(0, p));
        assert(s.drop_last()[p] == s[p]);
    }
}

pub proof fn lemma_wf_alloc(s: Seq<Slot>, c: Seq<char>, m: bool)
    requires
        slots_wf(s),
    ensures
        slots_wf(alloc_slot(s, c, m)),
{
    let t = alloc_slot(s, c, m);
    assert forall|p: int|
        0 <= p < t.len() implies (#[trigger] t[p]).1 == count_slots(
        t.subrange(0, p),
        t[p].0,
        t[p].2,
    ) by {
        assert(t.subrange(0, p) =~= s.subrange(0, p));
        if p < s.len() {
            assert(t[p] == s[p]);
        } else {
            assert(t[p] == (c, count_slots(s, c, m), m));
            assert(s.subrange(0, p) =~= s);
        }
    }
}

pub proof fn lemma_wf_contains(s: Seq<Slot>, c: Seq<char>, m: bool, j: nat)
    requires
        slots_wf(s),
        j < count_slots(s, c, m),
    ensures
        exists|p: int| 0 <= p < s.len() && #[trigger] s[p] == (c, j, m),
    decreases s.len(),
{
    let b = s.drop_last();
    if s.last().0 == c && s.last().2 == m && j == count_slots(b, c, m) {
        assert(s.subrange(0, s.len() - 1) =~= b);
        assert(s[s.len() - 1] == (c, j, m));
    } else {
        lemma_wf_drop_last(s);
        assert(j < count_slots(b, c, m));
        lemma_wf_contains(b, c, m, j);
        let p = choose|p: int| 0 <= p < b.len() && #[trigger] b[p] == (c, j, m);
        assert(s[p] == (c, j, m));
    }
}

pub proof fn lemma_wf_distinct(s: Seq<Slot>, p: int, q: int)
    requires
        slots_wf(s),
        0 <= p < q < s.len(),
    ensures
        s[p] != s[q],
{
    if s[p] == s[q] {
        lemma_count_prefix_step(s, s[p].0, s[p].2, p);
        lemma_count_prefix_mono(s, s[p].0, s[p].2, p + 1, q);
    }
}

pub proof fn lemma_slot_id_unique(s: Seq<Slot>, t: Slot, p: int)
    requires
        0 <= p < s.len(),
        s[p] == t,
        forall|q: int| 0 <= q < p ==> s[q] != t,
    ensures
        slot_id(s, t) == p,
    decreases s.len(),
{
    if p == 0 {
        assert(s[0] == t);
    } else {
        assert(s[0] != t);
        let r = s.drop_first();
        assert forall|q: int| 0 <= q < p - 1 implies r[q] != t by {
            assert(r[q] == s[q + 1]);
        }
        assert(r[p - 1] == s[p]);
        lemma_slot_id_unique(r, t, p - 1);
    }
}

pub proof fn lemma_wf_slot_id(s: Seq<Slot>, t: Slot, p: int)
    requires
        slots_wf(s),
        0 <= p < s.len(),
        s[p] == t,
    ensures
        slot_id(s, t) == p,
{
    assert forall|q: int| 0 <= q < p implies s[q] != t by {
        lemma_wf_distinct(s, q, p);
    }
    lemma_slot_id_unique(s, t, p);
}

/// Whether some slot of the sequence belongs to resource `c`.
pub open spec fn has_component(s: Seq<Slot>, c: Seq<char>) -> bool {
    exists|p: int| 0 <= p < s.len() && (#[trigger] s[p]).0 == c
}

pub proof fn lemma_order_contains(s: Seq<Slot>, c: Seq<char>)
    ensures
        component_order(s).contains(c) <==> has_component(s, c),
    decreases s.len(),
{
    if s.len() > 0 {
        let b = s.drop_last();
        lemma_order_contains(b, c);
        if has_component(b, c) {
            let p = choose|p: int| 0 <= p < b.len() && (#[trigger] b[p]).0 == c;
            assert(s[p].0 == c);
        }
        if component_order(s).contains(c) {
            if !component_order(b).contains(c) {
                assert(component_order(s) == component_order(b).push(s.last().0));
                let i = choose|i: int|
                    0 <= i < component_order(s).len() && component_order(s)[i] == c;
                if i < component_order(b).len() {
                    assert(component_order(b)[i] == c);
                } else {
                    assert(s[s.len() - 1].0 == c);
                }
            }
        }
        if has_component(s, c) {
            let p = choose|p: int| 0 <= p < s.len() && (#[trigger] s[p]).0 == c;
            if p < b.len() {
                assert(b[p].0 == c);
                assert(component_order(b).contains(c));
                if !component_order(b).contains(c) {
                } else {
                    let i = choose|i: int|
                        0 <= i < component_order(b).len() && component_order(b)[i] == c;
                    if component_order(s) == component_order(b) {
                        assert(component_order(s)[i] == c);
                    } else {
                        assert(component_order(s)[i] == c);
                    }
                }
            } else {
                if component_order(b).contains(s.last().0) {
                    let i = choose|i: int|
                        0 <= i < component_order(b).len() && component_order(b)[i] == s.last().0;
                    assert(component_order(s)[i] == c);
                } else {
                    assert(component_order(s).last() == c);
                    assert(component_order(s).contains(c));
                }
            }
        }
    }
}

pub proof fn lemma_order_no_dup(s: Seq<Slot>, i: int, j: int)
    requires
        0 <= i < j < component_order(s).len(),
    ensures
        component_order(s)[i] != component_order(s)[j],
    decreases s.len(),
{
    if s.len() > 0 {
        let b = s.drop_last();
        if j < component_order(b).len() {
            lemma_order_no_dup(b, i, j);
            assert(component_order(s)[i] == component_order(b)[i]);
            assert(component_order(s)[j] == component_order(b)[j]);
        } else {
            assert(!component_order(b).contains(s.last().0));
            assert(component_order(s) == component_order(b).push(s.last().0));
            assert(component_order(s)[j] == s.last().0);
            assert(component_order(s)[i] == component_order(b)[i]);
            assert(component_order(b).contains(component_order(b)[i]));
        }
    }
}

pub proof fn lemma_no_component_no_count(s: Seq<Slot>, c: Seq<char>, m: bool)
    requires
        !has_component(s, c),
    ensures
        count_slots(s, c, m) == 0,
    decreases s.len(),
{
    if s.len() > 0 {
        let b = s.drop_last();
        assert forall|p: int| 0 <= p < b.len() implies (#[trigger] b[p]).0 != c by {
            assert(s[p] == b[p]);
        }
        lemma_no_component_no_count(b, c, m);
        assert(s.last().0 != c) by {
            assert(s[s.len() - 1].0 == s.last().0);
        }
    }
}

pub proof fn lemma_order_alloc(s: Seq<Slot>, c: Seq<char>, m: bool)
    ensures
        component_order(s).contains(c) ==> component_order(alloc_slot(s, c, m))
            == component_order(s),
        !component_order(s).contains(c) ==> component_order(alloc_slot(s, c, m))
            == component_order(s).push(c),
{
    let t = alloc_slot(s, c, m);
    assert(t.drop_last() =~= s);
    assert(t.last() == (c, count_slots(s, c, m), m));
}

/// The resource names of a counter table, in order.
pub open spec fn table_keys(t: Seq<(&'static str, usize, usize)>) -> Seq<Seq<char>> {
    Seq::new(t.len(), |i: int| t[i].0@)
}

/// Transient compilation state: per-resource counters of allocated
/// shared and exclusive slots, and the slot registry built so far.
struct Context {
    components: Vec<(&'static str, usize, usize)>,
    variables: indexmap::IndexSet<Variable>,
}

impl Context {
    /// The slots registered so far.
    spec fn slots(self) -> Seq<Slot> {
        slots_of(self.variables)
    }

    /// The counter table lists exactly the resources seen so far, in
    /// first-mention order, and each entry carries the number of shared
    /// and of exclusive slots its resource has in the registry.
    spec fn inv(self) -> bool {
        &&& slots_wf(self.slots())
        &&& table_keys(self.components@) == component_order(self.slots())
        &&& forall|i: int|
            0 <= i < self.components@.len() ==> ((#[trigger] self.components@[i]).1 as nat
                == count_slots(self.slots(), self.components@[i].0@, false)
                && self.components@[i].2 as nat == count_slots(
                self.slots(),
                self.components@[i].0@,
                true,
            ))
    }
}

/// The position of the counter entry for resource `c`, if there is one.
fn find_component(table: &Vec<(&'static str, usize, usize)>, c: &str) -> (r: Option<usize>)
    ensures
        match r {
            Some(i) => (i as int) < table@.len() && table@[i as int].0@ == c@,
            None => forall|j: int| 0 <= j < table@.len() ==> table@[j].0@ != c@,
        },
{
    let mut i: usize = 0;
    while i < table.len()
        invariant
            i <= table@.len(),
            forall|j: int| 0 <= j < i ==> table@[j].0@ != c@,
        decreases table@.len() - i,
    {
        if str_eq(table[i].0, c) {
            return Some(i);
        }
        i += 1;
    }
    None
}

impl Context {
    /// Allocates a fresh slot for `component` with mutability
    /// `mutable`, bumps the matching counter, and returns the new
    /// slot's identity: its position in the registry.
    fn to_var(&mut self, component: &'static str, mutable: bool) -> (id: usize)
        requires
            old(self).inv(),
        ensures
            final(self).inv(),
            slots_of(final(self).variables) == alloc_slot(
                slots_of(old(self).variables),
                component@,
                mutable,
            ),
            id as nat == slots_of(old(self).variables).len(),
    {
        let ghost s0 = self.slots();
        let pos = find_component(&self.components, component);
        let (ni, nm): (usize, usize) = match pos {
            Some(i) => {
                let e = self.components[i];
                (e.1, e.2)
            },
            None => (0, 0),
        };
        proof {
            if pos is None {
                assert forall|p: int| 0 <= p < s0.len() implies (#[trigger] s0[p]).0
                    != component@ by {
                    if s0[p].0 == component@ {
                        lemma_order_contains(s0, component@);
                        let i = choose|i: int|
                            0 <= i < component_order(s0).len() && component_order(s0)[i]
                                == component@;
                        assert(table_keys(old(self).components@)[i] == component@);
                    }
                }
                lemma_no_component_no_count(s0, component@, false);
                lemma_no_component_no_count(s0, component@, true);
            }
            assert(ni as nat == count_slots(s0, component@, false));
            assert(nm as nat == count_slots(s0, component@, true));
        }
        let index: usize = if mutable {
            nm
        } else {
            ni
        };
        let v = Variable { component, index, mutable };
        proof {
            lemma_wf_fresh(s0, component@, mutable);
            assert(v@ == (component@, count_slots(s0, component@, mutable), mutable));
        }
        let r = registry_insert_full(&mut self.variables, v);
        let id = r.0;
        let total = registry_len(&self.variables);
        proof {
            assert(self.slots() == alloc_slot(s0, component@, mutable));
            lemma_count_le_len(s0, component@, mutable);
            assert(index as nat + 1 <= total as nat);
            lemma_wf_alloc(s0, component@, mutable);
            lemma_order_alloc(s0, component@, mutable);
            lemma_count_push(s0, (component@, index as nat, mutable), component@, false);
            lemma_count_push(s0, (component@, index as nat, mutable), component@, true);
        }
        let next: usize = index + 1;
        match pos {
            Some(i) => {
                let e = self.components[i];
                let updated: (&'static str, usize, usize) = if mutable {
                    (e.0, e.1, next)
                } else {
                    (e.0, next, e.2)
                };
                self.components.remove(i);
                self.components.insert(i, updated);
                proof {
                    let t0 = old(self).components@;
                    assert(self.components@ =~= t0.update(i as int, updated));
                    assert(component_order(s0).contains(component@)) by {
                        assert(table_keys(t0)[i as int] == component@);
                    }
                    assert(table_keys(self.components@) =~= table_keys(t0));
                    assert forall|j: int|
                        0 <= j < self.components@.len() && j != i implies (
                    #[trigger] self.components@[j]).0@ != component@ by {
                        lemma_order_no_dup(
                            s0,
                            if j < i as int {
                                j
                            } else {
                                i as int
                            },
                            if j < i as int {
                                i as int
                            } else {
                                j
                            },
                        );
                        assert(table_keys(t0)[j] == t0[j].0@);
                    }
                    assert forall|j: int|
                        0 <= j < self.components@.len() && j != i implies count_slots(
                        self.slots(),
                        (#[trigger] self.components@[j]).0@,
                        false,
                    ) == count_slots(s0, self.components@[j].0@, false) && count_slots(
                        self.slots(),
                        self.components@[j].0@,
                        true,
                    ) == count_slots(s0, self.components@[j].0@, true) by {
                        lemma_count_push(
                            s0,
                            (component@, index as nat, mutable),
                            self.components@[j].0@,
                            false,
                        );
                        lemma_count_push(
                            s0,
                            (component@, index as nat, mutable),
                            self.components@[j].0@,
                            true,
                        );
                    }
                    assert(self.inv());
                }
            },
            None => {
                let fresh: (&'static str, usize, usize) = if mutable {
                    (component, 0, next)
                } else {
                    (component, next, 0)
                };
                self.components.push(fresh);
                proof {
                    let t0 = old(self).components@;
                    assert(!component_order(s0).contains(component@)) by {
                        if component_order(s0).contains(component@) {
                            let k = choose|k: int|
                                0 <= k < component_order(s0).len() && component_order(s0)[k]
                                    == component@;
                            assert(table_keys(t0)[k] == t0[k].0@);
                        }
                    }
                    assert(table_keys(self.components@) =~= table_keys(t0).push(component@));
                    assert forall|j: int|
                        0 <= j < t0.len() implies (#[trigger] self.components@[j]) == t0[j]
                        && t0[j].0@ != component@ by {}
                    assert forall|j: int|
                        0 <= j < t0.len() implies count_slots(
                        self.slots(),
                        (#[trigger] self.components@[j]).0@,
                        false,
                    ) == count_slots(s0, self.components@[j].0@, false) && count_slots(
                        self.slots(),
                        self.components@[j].0@,
                        true,
                    ) == count_slots(s0, self.components@[j].0@, true) by {
                        lemma_count_push(
                            s0,
                            (component@, index as nat, mutable),
                            self.components@[j].0@,
                            false,
                        );
                        lemma_count_push(
                            s0,
                            (component@, index as nat, mutable),
                            self.components@[j].0@,
                            true,
                        );
                    }
                    assert(self.inv());
                }
            },
        }
        id
    }

    /// Translates one query into a formula, allocating its slots.
    fn query_to_formula(&mut self, query: &Query) -> (f: Formula)
        requires
            old(self).inv(),
        ensures
            final(self).inv(),
            compiled_query(slots_of(old(self).variables), *query) == (
                slots_of(final(self).variables),
                shape_of(f),
            ),
        decreases *query,
    {
        match query {
            Query::All(queries) => {
                let fs = self.queries_to_formulas(queries);
                let ghost fsv = fs@;
                let built = Formula::And(fs);
                proof {
                    assert(*query == Query::All(*queries));
                    assert(shape_of(built) == FormulaShape::And(shapes_of(fsv)));
                    assert(compiled_query(slots_of(old(self).variables), *query) == (
                        slots_of(self.variables),
                        shape_of(built),
                    ));
                }
                built
            },
            Query::Any(queries) => {
                let fs = self.queries_to_formulas(queries);
                let ghost fsv = fs@;
                let built = Formula::Or(fs);
                proof {
                    assert(*query == Query::Any(*queries));
                    assert(shape_of(built) == FormulaShape::Or(shapes_of(fsv)));
                    assert(compiled_query(slots_of(old(self).variables), *query) == (
                        slots_of(self.variables),
                        shape_of(built),
                    ));
                }
                built
            },
            Query::Without(component) => {
                let id = self.to_var(*component, false);
                let built = Formula::Neg(Box::new(Formula::Var(id)));
                proof {
                    assert(shape_of(Formula::Var(id)) == FormulaShape::Var(id as nat));
                    assert(shape_of(built) == FormulaShape::Neg(
                        Box::new(FormulaShape::Var(id as nat)),
                    ));
                    assert(compiled_query(slots_of(old(self).variables), *query) == (
                        slots_of(self.variables),
                        shape_of(built),
                    ));
                }
                built
            },
            Query::ReadComponent(component) => {
                let id = self.to_var(*component, false);
                proof {
                    assert(compiled_query(slots_of(old(self).variables), *query) == (
                        slots_of(self.variables),
                        shape_of(Formula::Var(id)),
                    ));
                }
                Formula::Var(id)
            },
            Query::WriteComponent(component) => {
                let id = self.to_var(*component, true);
                proof {
                    assert(compiled_query(slots_of(old(self).variables), *query) == (
                        slots_of(self.variables),
                        shape_of(Formula::Var(id)),
                    ));
                }
                Formula::Var(id)
            },
        }
    }

    /// Translates each query of the list in order.
    fn queries_to_formulas(&mut self, queries: &Vec<Query>) -> (fs: Vec<Formula>)
        requires
            old(self).inv(),
        ensures
            final(self).inv(),
            compiled_queries(slots_of(old(self).variables), queries@) == (
                slots_of(final(self).variables),
                shapes_of(fs@),
            ),
        decreases queries@,
    {
        let ghost s0 = self.slots();
        let mut fs: Vec<Formula> = Vec::new();
        let mut i: usize = 0;
        proof {
            assert(queries@.subrange(0, 0) =~= Seq::<Query>::empty());
        }
        while i < queries.len()
            invariant
                self.inv(),
                i <= queries@.len(),
                s0 == slots_of(old(self).variables),
                compiled_queries(s0, queries@.subrange(0, i as int)) == (
                    slots_of(self.variables),
                    shapes_of(fs@),
                ),
            decreases queries@.len() - i,
        {
            let ghost scur = slots_of(self.variables);
            let ghost fsprev = fs@;
            proof {
                assert(decreases_to!(queries@ => queries@[i as int]));
            }
            let fi = self.query_to_formula(&queries[i]);
            fs.push(fi);
            i += 1;
            proof {
                assert(queries@.subrange(0, i as int).drop_last() =~= queries@.subrange(
                    0,
                    i as int - 1,
                ));
                assert(queries@.subrange(0, i as int).last() == queries@[i as int - 1]);
                assert(fs@.drop_last() =~= fsprev);
                assert(fs@.last() == fi);
                assert(shapes_of(fs@) == shapes_of(fsprev).push(shape_of(fi)));
            }
        }
        proof {
            assert(queries@.subrange(0, queries@.len() as int) =~= queries@);
        }
        fs
    }

    /// The identity of an already-registered slot. The compiler only
    /// looks up slots whose counters prove they were interned.
    fn lookup_id(&self, component: &'static str, index: usize, mutable: bool) -> (id: usize)
        requires
            slots_wf(slots_of(self.variables)),
            exists|p: int|
                0 <= p < slots_of(self.variables).len() && #[trigger] slots_of(self.variables)[p]
                    == (component@, index as nat, mutable),
        ensures
            id as nat == slot_id(slots_of(self.variables), (component@, index as nat, mutable)),
            (id as int) < slots_of(self.variables).len(),
    {
        let v = Variable { component, index, mutable };
        match registry_index_of(&self.variables, &v) {
            Some(i) => {
                proof {
                    lemma_wf_slot_id(slots_of(self.variables), v@, i as int);
                }
                i
            },
            None => {
                proof {
                    let p = choose|p: int|
                        0 <= p < slots_of(self.variables).len() && #[trigger] slots_of(
                            self.variables,
                        )[p] == (component@, index as nat, mutable);
                    assert(slots_of(self.variables)[p] == v@);
                    assert(false);
                }
                vstd::pervasive::unreached()
            },
        }
    }

    /// Conjoins `formula` with one mutual-exclusion constraint per
    /// exclusive slot of every resource, and hands out the registry.
    fn finalize(self, formula: Formula) -> (r: (Formula, indexmap::IndexSet<Variable>))
        requires
            self.inv(),
        ensures
            slots_of(r.1) == slots_of(self.variables),
            shape_of(r.0) == FormulaShape::And(
                seq![shape_of(formula)] + all_conflicts(slots_of(self.variables)),
            ),
    {
        let ghost s = slots_of(self.variables);
        let ghost order = component_order(s);
        let mut formulas: Vec<Formula> = Vec::new();
        let ghost base = shape_of(formula);
        formulas.push(formula);
        proof {
            assert(formulas@.drop_last() =~= Seq::<Formula>::empty());
            assert(shapes_of(Seq::<Formula>::empty()) == Seq::<FormulaShape>::empty());
            assert(formulas@.last() == formula);
            assert(shapes_of(formulas@) == shapes_of(formulas@.drop_last()).push(base));
            assert(shapes_of(formulas@) =~= seq![base]);
            assert(order.subrange(0, 0) =~= Seq::<Seq<char>>::empty());
            assert(shapes_of(formulas@) =~= seq![base] + conflicts_from(s, order.subrange(0, 0)));
        }
        let n = self.components.len();
        let mut ci: usize = 0;
        while ci < n
            invariant
                self.inv(),
                s == slots_of(self.variables),
                order == component_order(s),
                n == self.components@.len(),
                n == order.len(),
                ci <= n,
                shapes_of(formulas@) == seq![base] + conflicts_from(s, order.subrange(0, ci as int)),
            decreases n - ci,
        {
            let entry = self.components[ci];
            let ghost c = entry.0@;
            proof {
                assert(table_keys(self.components@)[ci as int] == c);
                assert(order[ci as int] == c);
            }
            let num_shared = entry.1;
            let num_mut = entry.2;
            let ghost before_comp = shapes_of(formulas@);
            let mut i: usize = 0;
            proof {
                assert(before_comp + component_conflicts(s, c, 0) =~= before_comp);
            }
            while i < num_mut
                invariant
                    self.inv(),
                    s == slots_of(self.variables),
                    i <= num_mut,
                    num_shared as nat == count_slots(s, c, false),
                    num_mut as nat == count_slots(s, c, true),
                    entry == self.components@[ci as int],
                    ci < n,
                    n == self.components@.len(),
                    c == entry.0@,
                    shapes_of(formulas@) == before_comp + component_conflicts(s, c, i as nat),
                decreases num_mut - i,
            {
                let mut others: Vec<Formula> = Vec::new();
                let mut j: usize = 0;
                proof {
                    assert(shapes_of(others@) =~= shared_vars(s, c, 0));
                }
                while j < num_shared
                    invariant
                        self.inv(),
                        s == slots_of(self.variables),
                        j <= num_shared,
                        num_shared as nat == count_slots(s, c, false),
                        c == entry.0@,
                        shapes_of(others@) == shared_vars(s, c, j as nat),
                    decreases num_shared - j,
                {
                    proof {
                        lemma_wf_contains(s, c, false, j as nat);
                    }
                    let id = self.lookup_id(entry.0, j, false);
                    let ghost prev = others@;
                    others.push(Formula::Var(id));
                    j += 1;
                    proof {
                        assert(others@.drop_last() =~= prev);
                        assert(shapes_of(others@) == shapes_of(prev).push(
                            shape_of(Formula::Var(id)),
                        ));
                        assert(shapes_of(others@) == shared_vars(s, c, j as nat));
                    }
                }
                let mut k: usize = 0;
                proof {
                    assert(shared_vars(s, c, num_shared as nat) + other_writer_vars(s, c, 0, i as nat)
                        =~= shared_vars(s, c, num_shared as nat));
                }
                while k < num_mut
                    invariant
                        self.inv(),
                        s == slots_of(self.variables),
                        k <= num_mut,
                        num_shared as nat == count_slots(s, c, false),
                        num_mut as nat == count_slots(s, c, true),
                        c == entry.0@,
                        i < num_mut,
                        shapes_of(others@) == shared_vars(s, c, num_shared as nat)
                            + other_writer_vars(s, c, k as nat, i as nat),
                    decreases num_mut - k,
                {
                    let ghost prev = others@;
                    if k != i {
                        proof {
                            lemma_wf_contains(s, c, true, k as nat);
                        }
                        let id = self.lookup_id(entry.0, k, true);
                        others.push(Formula::Var(id));
                        proof {
                            assert(others@.drop_last() =~= prev);
                            assert(shapes_of(others@) == shapes_of(prev).push(
                                shape_of(Formula::Var(id)),
                            ));
                        }
                    }
                    k += 1;
                    proof {
                        assert(shapes_of(others@) == shared_vars(s, c, num_shared as nat)
                            + other_writer_vars(s, c, k as nat, i as nat)) by {
                            assert(shared_vars(s, c, num_shared as nat).push(
                                FormulaShape::Var(slot_id(s, (c, (k - 1) as nat, true))),
                            ) + Seq::<FormulaShape>::empty() =~= shared_vars(
                                s,
                                c,
                                num_shared as nat,
                            ).push(FormulaShape::Var(slot_id(s, (c, (k - 1) as nat, true)))));
                            assert((shared_vars(s, c, num_shared as nat) + other_writer_vars(
                                s,
                                c,
                                (k - 1) as nat,
                                i as nat,
                            )).push(FormulaShape::Var(slot_id(s, (c, (k - 1) as nat, true))))
                                =~= shared_vars(s, c, num_shared as nat) + other_writer_vars(
                                s,
                                c,
                                (k - 1) as nat,
                                i as nat,
                            ).push(FormulaShape::Var(slot_id(s, (c, (k - 1) as nat, true)))));
                        }
                    }
                }
                proof {
                    lemma_wf_contains(s, c, true, i as nat);
                    assert(shapes_of(others@) == rival_vars(s, c, i as nat));
                }
                let this_id = self.lookup_id(entry.0, i, true);
                let ghost rivals = shapes_of(others@);
                let or_rivals = Formula::Or(others);
                proof {
                    assert(shape_of(or_rivals) == FormulaShape::Or(rivals));
                }
                let ghost or_shape = shape_of(or_rivals);
                let mut pair: Vec<Formula> = Vec::new();
                pair.push(Formula::Var(this_id));
                pair.push(or_rivals);
                proof {
                    assert(pair@.drop_last() =~= seq![Formula::Var(this_id)]);
                    assert(seq![Formula::Var(this_id)].drop_last() =~= Seq::<Formula>::empty());
                    assert(shapes_of(seq![Formula::Var(this_id)]) == Seq::<
                        FormulaShape,
                    >::empty().push(shape_of(Formula::Var(this_id))));
                    assert(shapes_of(pair@) == shapes_of(seq![Formula::Var(this_id)]).push(
                        or_shape,
                    ));
                    assert(shapes_of(pair@) =~= seq![
                        FormulaShape::Var(this_id as nat),
                        or_shape,
                    ]);
                }
                let ghost pair_shapes = shapes_of(pair@);
                let conflict = Formula::Neg(Box::new(Formula::And(pair)));
                proof {
                    assert(shape_of(*conflict->Neg_0) == FormulaShape::And(pair_shapes));
                    assert(shape_of(conflict) == FormulaShape::Neg(
                        Box::new(FormulaShape::And(pair_shapes)),
                    ));
                    assert(FormulaShape::And(pair_shapes) == FormulaShape::And(
                        seq![
                            FormulaShape::Var(slot_id(s, (c, i as nat, true))),
                            FormulaShape::Or(rival_vars(s, c, i as nat)),
                        ],
                    ));
                    assert(shape_of(conflict) == conflict_shape(s, c, i as nat));
                }
                let ghost prev_formulas = formulas@;
                formulas.push(conflict);
                i += 1;
                proof {
                    assert(formulas@.drop_last() =~= prev_formulas);
                    assert(shapes_of(formulas@) == shapes_of(prev_formulas).push(
                        shape_of(conflict),
                    ));
                    assert(component_conflicts(s, c, i as nat) == component_conflicts(
                        s,
                        c,
                        (i - 1) as nat,
                    ).push(conflict_shape(s, c, (i - 1) as nat)));
                    assert((before_comp + component_conflicts(s, c, (i - 1) as nat)).push(
                        conflict_shape(s, c, (i - 1) as nat),
                    ) =~= before_comp + component_conflicts(s, c, i as nat));
                }
            }
            ci += 1;
            proof {
                assert(order.subrange(0, ci as int).drop_last() =~= order.subrange(
                    0,
                    ci as int - 1,
                ));
                assert(order.subrange(0, ci as int).last() == c);
                assert(conflicts_from(s, order.subrange(0, ci as int)) == conflicts_from(
                    s,
                    order.subrange(0, ci as int - 1),
                ) + component_conflicts(s, c, count_slots(s, c, true)));
                assert(seq![base] + conflicts_from(s, order.subrange(0, ci as int - 1))
                    + component_conflicts(s, c, num_mut as nat) =~= seq![base] + conflicts_from(
                    s,
                    order.subrange(0, ci as int),
                ));
            }
        }
        proof {
            assert(order.subrange(0, n as int) =~= order);
        }
        let and_formula = Formula::And(formulas);
        proof {
            assert(shape_of(and_formula) == FormulaShape::And(shapes_of(and_formula->And_0@)));
        }
        (and_formula, self.variables)
    }
}

/// Compiles a query sequence: translates every query, conjoins the
/// per-query formulas, and conjoins one mutual-exclusion constraint per
/// exclusive slot of every resource. Returns the formula together with
/// the registry of every slot it speaks about.
pub fn to_formula(queries: Vec<Query>) -> (r: (Formula, indexmap::IndexSet<Variable>))
    ensures
        slots_of(r.1) == compiled(queries@).0,
        shape_of(r.0) == compiled(queries@).1,
{
    let mut ctx = Context { components: Vec::new(), variables: registry_new() };
    proof {
        assert(slots_of(ctx.variables) =~= Seq::<Slot>::empty());
        assert(table_keys(ctx.components@) =~= Seq::<Seq<char>>::empty());
        assert(component_order(slots_of(ctx.variables)) =~= Seq::<Seq<char>>::empty());
        assert(ctx.inv());
    }
    let and_list = ctx.queries_to_formulas(&queries);
    let ghost listed = shapes_of(and_list@);
    let inner = Formula::And(and_list);
    proof {
        assert(shape_of(inner) == FormulaShape::And(listed));
    }
    ctx.finalize(inner)
}

} // verus!
