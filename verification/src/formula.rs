use vstd::prelude::*;

verus! {

/// A propositional formula over integer-indexed variables.
///
/// A formula is interpreted together with the slot registry it was
/// compiled against: each `Var` leaf holds the identity of a registered
/// resource slot.
#[derive(Debug, PartialEq)]
pub enum Formula {
    /// True iff every sub-formula holds (vacuously true when empty).
    And(Vec<Formula>),
    /// True iff some sub-formula holds (vacuously false when empty).
    Or(Vec<Formula>),
    /// True iff the sub-formula does not hold.
    Neg(Box<Formula>),
    /// The boolean decision for one resource slot identity.
    Var(usize),
}

/// The mathematical shape of a formula: the same tree, with
/// mathematical sequences for the children of a connective and an
/// unbounded variable index.
pub enum FormulaShape {
    And(Seq<FormulaShape>),
    Or(Seq<FormulaShape>),
    Neg(Box<FormulaShape>),
    Var(nat),
}

/// The shape of a formula tree.
pub open spec fn shape_of(f: Formula) -> FormulaShape
    decreases f,
{
    match f {
        Formula::And(fs) => FormulaShape::And(shapes_of(fs@)),
        Formula::Or(fs) => FormulaShape::Or(shapes_of(fs@)),
        Formula::Neg(g) => FormulaShape::Neg(Box::new(shape_of(*g))),
        Formula::Var(v) => FormulaShape::Var(v as nat),
    }
}

/// The shapes of a sequence of formula trees, in order.
pub open spec fn shapes_of(fs: Seq<Formula>) -> Seq<FormulaShape>
    decreases fs,
{
    if fs.len() == 0 {
        Seq::empty()
    } else {
        shapes_of(fs.drop_last()).push(shape_of(fs.last()))
    }
}

pub proof fn lemma_shapes_of(fs: Seq<Formula>)
    ensures
        shapes_of(fs).len() == fs.len(),
        forall|i: int| 0 <= i < fs.len() ==> shapes_of(fs)[i] == shape_of(fs[i]),
    decreases fs.len(),
{
    if fs.len() > 0 {
        lemma_shapes_of(fs.drop_last());
    }
}

/// Whether the assignment `a` satisfies the formula: a conjunction asks
/// for every child, a disjunction for some child, a negation flips its
/// child, and a variable reads its entry of the assignment (an index
/// beyond the assignment is never satisfied).
pub open spec fn sat(f: FormulaShape, a: Seq<bool>) -> bool
    decreases f,
{
    match f {
        FormulaShape::And(fs) => sat_all(fs, a),
        FormulaShape::Or(fs) => sat_any(fs, a),
        FormulaShape::Neg(g) => !sat(*g, a),
        FormulaShape::Var(v) => v < a.len() && a[v as int],
    }
}

/// Whether `a` satisfies every formula of the sequence.
pub open spec fn sat_all(fs: Seq<FormulaShape>, a: Seq<bool>) -> bool
    decreases fs,
{
    fs.len() == 0 || (sat_all(fs.drop_last(), a) && sat(fs.last(), a))
}

/// Whether `a` satisfies some formula of the sequence.
pub open spec fn sat_any(fs: Seq<FormulaShape>, a: Seq<bool>) -> bool
    decreases fs,
{
    fs.len() > 0 && (sat_any(fs.drop_last(), a) || sat(fs.last(), a))
}

/// Whether every variable of the formula lies below `n`, the size of
/// the variable universe.
pub open spec fn vars_in(f: FormulaShape, n: nat) -> bool
    decreases f,
{
    match f {
        FormulaShape::And(fs) => vars_in_all(fs, n),
        FormulaShape::Or(fs) => vars_in_all(fs, n),
        FormulaShape::Neg(g) => vars_in(*g, n),
        FormulaShape::Var(v) => v < n,
    }
}

/// Whether every variable of every formula of the sequence lies below `n`.
pub open spec fn vars_in_all(fs: Seq<FormulaShape>, n: nat) -> bool
    decreases fs,
{
    fs.len() == 0 || (vars_in_all(fs.drop_last(), n) && vars_in(fs.last(), n))
}

pub proof fn lemma_sat_all(fs: Seq<FormulaShape>, a: Seq<bool>)
    ensures
        sat_all(fs, a) <==> (forall|i: int| 0 <= i < fs.len() ==> sat(#[trigger] fs[i], a)),
    decreases fs.len(),
{
    if fs.len() > 0 {
        lemma_sat_all(fs.drop_last(), a);
        if sat_all(fs, a) {
            assert forall|i: int| 0 <= i < fs.len() implies sat(#[trigger] fs[i], a) by {
                if i == fs.len() - 1 {
                    assert(sat(fs.last(), a));
                } else {
                    assert(fs.drop_last()[i] == fs[i]);
                }
            }
        }
        if forall|i: int| 0 <= i < fs.len() ==> sat(#[trigger] fs[i], a) {
            assert forall|i: int| 0 <= i < fs.drop_last().len()
                implies sat(#[trigger] fs.drop_last()[i], a) by {
                assert(fs.drop_last()[i] == fs[i]);
            }
            assert(sat(fs.last(), a));
        }
    }
}

pub proof fn lemma_sat_any(fs: Seq<FormulaShape>, a: Seq<bool>)
    ensures
        sat_any(fs, a) <==> (exists|i: int| 0 <= i < fs.len() && sat(#[trigger] fs[i], a)),
    decreases fs.len(),
{
    if fs.len() > 0 {
        lemma_sat_any(fs.drop_last(), a);
        if sat_any(fs, a) {
            if sat(fs.last(), a) {
                assert(0 <= fs.len() - 1 < fs.len() && sat(fs[fs.len() - 1], a));
            } else {
                let i = choose|i: int|
                    0 <= i < fs.drop_last().len() && sat(#[trigger] fs.drop_last()[i], a);
                assert(fs.drop_last()[i] == fs[i]);
                assert(0 <= i < fs.len() && sat(fs[i], a));
            }
        }
        if exists|i: int| 0 <= i < fs.len() && sat(#[trigger] fs[i], a) {
            let i = choose|i: int| 0 <= i < fs.len() && sat(#[trigger] fs[i], a);
            if i == fs.len() - 1 {
                assert(sat(fs.last(), a));
            } else {
                assert(fs.drop_last()[i] == fs[i]);
                assert(0 <= i < fs.drop_last().len() && sat(fs.drop_last()[i], a));
            }
        }
    }
}

pub proof fn lemma_vars_in_all(fs: Seq<FormulaShape>, n: nat)
    ensures
        vars_in_all(fs, n) <==> (forall|i: int|
            0 <= i < fs.len() ==> vars_in(#[trigger] fs[i], n)),
    decreases fs.len(),
{
    if fs.len() > 0 {
        lemma_vars_in_all(fs.drop_last(), n);
        if vars_in_all(fs, n) {
            assert forall|i: int| 0 <= i < fs.len() implies vars_in(#[trigger] fs[i], n) by {
                if i == fs.len() - 1 {
                    assert(vars_in(fs.last(), n));
                } else {
                    assert(fs.drop_last()[i] == fs[i]);
                }
            }
        }
        if forall|i: int| 0 <= i < fs.len() ==> vars_in(#[trigger] fs[i], n) {
            assert forall|i: int| 0 <= i < fs.drop_last().len()
                implies vars_in(#[trigger] fs.drop_last()[i], n) by {
                assert(fs.drop_last()[i] == fs[i]);
            }
            assert(vars_in(fs.last(), n));
        }
    }
}

impl Formula {
    /// Evaluates the formula under `assignment`, one boolean per
    /// registered slot identity.
    pub fn holds(&self, assignment: &[bool]) -> (r: bool)
        requires
            vars_in(shape_of(*self), assignment@.len()),
        ensures
            r == sat(shape_of(*self), assignment@),
        decreases *self,
    {
        match self {
            Formula::And(fs) => {
                proof {
                    lemma_shapes_of(fs@);
                }
                let mut i: usize = 0;
                while i < fs.len()
                    invariant
                        i <= fs@.len(),
                        vars_in(shape_of(*self), assignment@.len()),
                        *self == Formula::And(*fs),
                        forall|j: int| 0 <= j < i ==> sat(shape_of(fs@[j]), assignment@),
                        shapes_of(fs@).len() == fs@.len(),
                        forall|j: int| 0 <= j < fs@.len()
                            ==> shapes_of(fs@)[j] == shape_of(fs@[j]),
                    decreases fs@.len() - i,
                {
                    proof {
                        assert(decreases_to!(*self => fs@[i as int]));
                        lemma_vars_in_all(shapes_of(fs@), assignment@.len());
                        assert(vars_in(shapes_of(fs@)[i as int], assignment@.len()));
                        assert(shapes_of(fs@)[i as int] == shape_of(fs@[i as int]));
                    }
                    if !fs[i].holds(assignment) {
                        proof {
                            lemma_sat_all(shapes_of(fs@), assignment@);
                            assert(!sat(shapes_of(fs@)[i as int], assignment@));
                        }
                        return false;
                    }
                    i += 1;
                }
                proof {
                    lemma_sat_all(shapes_of(fs@), assignment@);
                    assert forall|j: int| 0 <= j < shapes_of(fs@).len()
                        implies sat(#[trigger] shapes_of(fs@)[j], assignment@) by {
                        assert(sat(shape_of(fs@[j]), assignment@));
                    }
                    assert(sat(shape_of(*self), assignment@));
                }
                true
            }
            Formula::Or(fs) => {
                proof {
                    lemma_shapes_of(fs@);
                }
                let mut i: usize = 0;
                while i < fs.len()
                    invariant
                        i <= fs@.len(),
                        vars_in(shape_of(*self), assignment@.len()),
                        *self == Formula::Or(*fs),
                        forall|j: int| 0 <= j < i ==> !sat(shape_of(fs@[j]), assignment@),
                        shapes_of(fs@).len() == fs@.len(),
                        forall|j: int| 0 <= j < fs@.len()
                            ==> shapes_of(fs@)[j] == shape_of(fs@[j]),
                    decreases fs@.len() - i,
                {
                    proof {
                        assert(decreases_to!(*self => fs@[i as int]));
                        lemma_vars_in_all(shapes_of(fs@), assignment@.len());
                        assert(vars_in(shapes_of(fs@)[i as int], assignment@.len()));
                        assert(shapes_of(fs@)[i as int] == shape_of(fs@[i as int]));
                    }
                    if fs[i].holds(assignment) {
                        proof {
                            lemma_sat_any(shapes_of(fs@), assignment@);
                            assert(sat(shapes_of(fs@)[i as int], assignment@));
                        }
                        return true;
                    }
                    i += 1;
                }
                proof {
                    lemma_sat_any(shapes_of(fs@), assignment@);
                    assert forall|j: int| 0 <= j < shapes_of(fs@).len()
                        implies !sat(#[trigger] shapes_of(fs@)[j], assignment@) by {
                        assert(!sat(shape_of(fs@[j]), assignment@));
                    }
                    assert(!sat(shape_of(*self), assignment@));
                }
                false
            }
            Formula::Neg(g) => !g.holds(assignment),
            Formula::Var(v) => assignment[*v],
        }
    }
}

} // verus!
