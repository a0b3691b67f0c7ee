use vstd::prelude::*;
use vstd::string::StringExecFns;

use crate::compile::Slot;
use crate::formula::Formula;
use crate::formula::FormulaShape;
use crate::formula::lemma_shapes_of;
use crate::formula::shape_of;
use crate::formula::shapes_of;
use crate::formula::vars_in;
use crate::registry::Variable;
use crate::registry::registry_get;
use crate::registry::slots_of;

verus! {

/// The decimal digit `d` as text, for `d` below ten.
pub open spec fn dec_digit(d: nat) -> Seq<char> {
    if d == 0 {
        "0"@
    } else if d == 1 {
        "1"@
    } else if d == 2 {
        "2"@
    } else if d == 3 {
        "3"@
    } else if d == 4 {
        "4"@
    } else if d == 5 {
        "5"@
    } else if d == 6 {
        "6"@
    } else if d == 7 {
        "7"@
    } else if d == 8 {
        "8"@
    } else {
        "9"@
    }
}

/// The decimal rendering of `n`, most significant digit first.
pub open spec fn dec_str(n: nat) -> Seq<char>
    decreases n,
{
    if n < 10 {
        dec_digit(n)
    } else {
        dec_str(n / 10) + dec_digit(n % 10)
    }
}

/// The textual form of a boolean.
pub open spec fn bool_str(b: bool) -> Seq<char> {
    if b {
        "true"@
    } else {
        "false"@
    }
}

/// Parenthesizes `x` when it binds looser than the surrounding context.
pub open spec fn wrapped(x: Seq<char>, prec: nat, p: nat) -> Seq<char> {
    if prec < p {
        "("@ + x + ")"@
    } else {
        x
    }
}

/// The rendering of one formula under precedence context `prec`:
/// conjunction children joined by the and-connective at precedence ten,
/// disjunction children by the or-connective at precedence eight, a
/// negation sign binding tightest, and a variable shown as its slot's
/// resource name, index and mutability.
pub open spec fn rendered(f: FormulaShape, vars: Seq<Slot>, prec: nat) -> Seq<char>
    decreases f,
{
    match f {
        FormulaShape::And(fs) => wrapped(joined(fs, vars, 10, " \u{2227} "@), prec, 10),
        FormulaShape::Or(fs) => wrapped(joined(fs, vars, 8, " \u{2228} "@), prec, 8),
        FormulaShape::Neg(g) => "\u{00ac}"@ + rendered(*g, vars, 4),
        FormulaShape::Var(v) => vars[v as int].0 + "("@ + dec_str(vars[v as int].1) + ","@
            + bool_str(vars[v as int].2) + ")"@,
    }
}

/// The renderings of the formulas of a sequence, under precedence `p`,
/// separated by `sep`.
pub open spec fn joined(fs: Seq<FormulaShape>, vars: Seq<Slot>, p: nat, sep: Seq<char>) -> Seq<
    char,
>
    decreases fs,
{
    if fs.len() == 0 {
        Seq::empty()
    } else if fs.len() == 1 {
        rendered(fs[0], vars, p)
    } else {
        joined(fs.drop_last(), vars, p, sep) + sep + rendered(fs.last(), vars, p)
    }
}

/// Whether a formula can be rendered: the renderer refuses a
/// conjunction or disjunction without children, which has no textual
/// form under the connective-joining scheme.
pub open spec fn renderable(f: FormulaShape) -> bool
    decreases f,
{
    match f {
        FormulaShape::And(fs) => fs.len() > 0 && renderable_all(fs),
        FormulaShape::Or(fs) => fs.len() > 0 && renderable_all(fs),
        FormulaShape::Neg(g) => renderable(*g),
        FormulaShape::Var(v) => true,
    }
}

/// Whether every formula of the sequence can be rendered.
pub open spec fn renderable_all(fs: Seq<FormulaShape>) -> bool
    decreases fs,
{
    fs.len() == 0 || (renderable_all(fs.drop_last()) && renderable(fs.last()))
}

pub proof fn lemma_renderable_all(fs: Seq<FormulaShape>)
    ensures
        renderable_all(fs) <==> (forall|i: int|
            0 <= i < fs.len() ==> renderable(#[trigger] fs[i])),
    decreases fs.len(),
{
    if fs.len() > 0 {
        lemma_renderable_all(fs.drop_last());
        if renderable_all(fs) {
            assert forall|i: int| 0 <= i < fs.len() implies renderable(#[trigger] fs[i]) by {
                if i == fs.len() - 1 {
                    assert(renderable(fs.last()));
                } else {
                    assert(fs.drop_last()[i] == fs[i]);
                }
            }
        }
        if forall|i: int| 0 <= i < fs.len() ==> renderable(#[trigger] fs[i]) {
            assert forall|i: int| 0 <= i < fs.drop_last().len()
                implies renderable(#[trigger] fs.drop_last()[i]) by {
                assert(fs.drop_last()[i] == fs[i]);
            }
            assert(renderable(fs.last()));
        }
    }
}

/// The digit text of `d`.
fn digit_text(d: usize) -> (r: &'static str)
    requires
        d < 10,
    ensures
        r@ == dec_digit(d as nat),
{
    if d == 0 {
        "0"
    } else if d == 1 {
        "1"
    } else if d == 2 {
        "2"
    } else if d == 3 {
        "3"
    } else if d == 4 {
        "4"
    } else if d == 5 {
        "5"
    } else if d == 6 {
        "6"
    } else if d == 7 {
        "7"
    } else if d == 8 {
        "8"
    } else {
        "9"
    }
}

/// The decimal text of `n`.
fn number_text(n: usize) -> (r: String)
    ensures
        r@ == dec_str(n as nat),
    decreases n,
{
    if n < 10 {
        let mut s = String::new();
        s.append(digit_text(n));
        proof {
            assert(s@ =~= dec_digit(n as nat));
        }
        s
    } else {
        let mut s = number_text(n / 10);
        s.append(digit_text(n % 10));
        proof {
            assert((n / 10) as nat == n as nat / 10);
            assert((n % 10) as nat == n as nat % 10);
        }
        s
    }
}

/// The text of a mutability flag.
fn bool_text(b: bool) -> (r: &'static str)
    ensures
        r@ == bool_str(b),
{
    if b {
        "true"
    } else {
        "false"
    }
}

/// A formula paired with the slot registry it was compiled against,
/// ready to be rendered for diagnostics.
#[derive(Clone, Copy)]
pub struct DisplayFormula<'a> {
    pub formula: &'a Formula,
    pub variables: &'a indexmap::IndexSet<Variable>,
}

impl DisplayFormula<'_> {
    fn recurse(&self, n: &Formula, prec: usize) -> (r: String)
        requires
            renderable(shape_of(*n)),
            vars_in(shape_of(*n), slots_of(*self.variables).len()),
        ensures
            r@ == rendered(shape_of(*n), slots_of(*self.variables), prec as nat),
        decreases *n,
    {
        let vars = self.variables;
        match n {
            Formula::And(fs) => {
                proof {
                    lemma_shapes_of(fs@);
                    crate::formula::lemma_vars_in_all(shapes_of(fs@), slots_of(*vars).len());
                    lemma_renderable_all(shapes_of(fs@));
                    assert(shapes_of(fs@).take(1) =~= seq![shapes_of(fs@)[0]]);
                }
                let mut out = self.recurse(&fs[0], 10);
                let mut i: usize = 1;
                while i < fs.len()
                    invariant
                        1 <= i <= fs@.len(),
                        *n == Formula::And(*fs),
                        renderable(shape_of(*n)),
                        vars_in(shape_of(*n), slots_of(*self.variables).len()),
                        vars == self.variables,
                        shapes_of(fs@).len() == fs@.len(),
                        forall|j: int| 0 <= j < fs@.len()
                            ==> shapes_of(fs@)[j] == shape_of(fs@[j]),
                        out@ == joined(
                            shapes_of(fs@).take(i as int),
                            slots_of(*vars),
                            10,
                            " \u{2227} "@,
                        ),
                    decreases fs@.len() - i,
                {
                    proof {
                        assert(decreases_to!(*n => fs@[i as int]));
                        crate::formula::lemma_vars_in_all(shapes_of(fs@), slots_of(*vars).len());
                        lemma_renderable_all(shapes_of(fs@));
                        assert(renderable(shapes_of(fs@)[i as int]));
                        assert(vars_in(shapes_of(fs@)[i as int], slots_of(*vars).len()));
                        assert(shapes_of(fs@)[i as int] == shape_of(fs@[i as int]));
                    }
                    out.append(" \u{2227} ");
                    let next = self.recurse(&fs[i], 10);
                    out.append(next.as_str());
                    i += 1;
                    proof {
                        let ss = shapes_of(fs@);
                        assert(ss.take(i as int).drop_last() =~= ss.take(i as int - 1));
                        assert(ss.take(i as int).last() == ss[i as int - 1]);
                        assert(out@ =~= joined(ss.take(i as int), slots_of(*vars), 10, " \u{2227} "@));
                    }
                }
                proof {
                    assert(shapes_of(fs@).take(fs@.len() as int) =~= shapes_of(fs@));
                }
                if prec < 10 {
                    let mut w = String::new();
                    w.append("(");
                    w.append(out.as_str());
                    w.append(")");
                    proof {
                        assert(w@ =~= "("@ + out@ + ")"@);
                    }
                    w
                } else {
                    out
                }
            },
            Formula::Or(fs) => {
                proof {
                    lemma_shapes_of(fs@);
                    crate::formula::lemma_vars_in_all(shapes_of(fs@), slots_of(*vars).len());
                    lemma_renderable_all(shapes_of(fs@));
                    assert(shapes_of(fs@).take(1) =~= seq![shapes_of(fs@)[0]]);
                }
                let mut out = self.recurse(&fs[0], 8);
                let mut i: usize = 1;
                while i < fs.len()
                    invariant
                        1 <= i <= fs@.len(),
                        *n == Formula::Or(*fs),
                        renderable(shape_of(*n)),
                        vars_in(shape_of(*n), slots_of(*self.variables).len()),
                        vars == self.variables,
                        shapes_of(fs@).len() == fs@.len(),
                        forall|j: int| 0 <= j < fs@.len()
                            ==> shapes_of(fs@)[j] == shape_of(fs@[j]),
                        out@ == joined(
                            shapes_of(fs@).take(i as int),
                            slots_of(*vars),
                            8,
                            " \u{2228} "@,
                        ),
                    decreases fs@.len() - i,
                {
                    proof {
                        assert(decreases_to!(*n => fs@[i as int]));
                        crate::formula::lemma_vars_in_all(shapes_of(fs@), slots_of(*vars).len());
                        lemma_renderable_all(shapes_of(fs@));
                        assert(renderable(shapes_of(fs@)[i as int]));
                        assert(vars_in(shapes_of(fs@)[i as int], slots_of(*vars).len()));
                        assert(shapes_of(fs@)[i as int] == shape_of(fs@[i as int]));
                    }
                    out.append(" \u{2228} ");
                    let next = self.recurse(&fs[i], 8);
                    out.append(next.as_str());
                    i += 1;
                    proof {
                        let ss = shapes_of(fs@);
                        assert(ss.take(i as int).drop_last() =~= ss.take(i as int - 1));
                        assert(ss.take(i as int).last() == ss[i as int - 1]);
                        assert(out@ =~= joined(ss.take(i as int), slots_of(*vars), 8, " \u{2228} "@));
                    }
                }
                proof {
                    assert(shapes_of(fs@).take(fs@.len() as int) =~= shapes_of(fs@));
                }
                if prec < 8 {
                    let mut w = String::new();
                    w.append("(");
                    w.append(out.as_str());
                    w.append(")");
                    proof {
                        assert(w@ =~= "("@ + out@ + ")"@);
                    }
                    w
                } else {
                    out
                }
            },
            Formula::Neg(g) => {
                let mut s = String::new();
                s.append("\u{00ac}");
                let inner = self.recurse(g, 4);
                s.append(inner.as_str());
                proof {
                    assert(s@ =~= "\u{00ac}"@ + rendered(
                        shape_of(**g),
                        slots_of(*self.variables),
                        4,
                    ));
                }
                s
            },
            Formula::Var(v) => {
                match registry_get(vars, *v) {
                    Some(vb) => {
                        let mut s = String::new();
                        s.append(vb.component);
                        s.append("(");
                        let num = number_text(vb.index);
                        s.append(num.as_str());
                        s.append(",");
                        s.append(bool_text(vb.mutable));
                        s.append(")");
                        proof {
                            let slot = slots_of(*self.variables)[*v as int];
                            assert(vb@ == slot);
                            assert(vb.component@ == slot.0);
                            assert(vb.index as nat == slot.1);
                            assert(vb.mutable == slot.2);
                            assert(s@ =~= slot.0 + "("@ + dec_str(slot.1) + ","@ + bool_str(
                                slot.2,
                            ) + ")"@);
                        }
                        s
                    },
                    None => {
                        proof {
                            assert(false);
                        }
                        vstd::pervasive::unreached()
                    },
                }
            },
        }
    }

    /// Renders the formula against its registry: connectives joined in
    /// precedence order, each variable shown as its slot's resource
    /// name, index and mutability.
    pub fn to_text(&self) -> (r: String)
        requires
            renderable(shape_of(*self.formula)),
            vars_in(shape_of(*self.formula), slots_of(*self.variables).len()),
        ensures
            r@ == rendered(
                shape_of(*self.formula),
                slots_of(*self.variables),
                usize::MAX as nat,
            ),
    {
        self.recurse(self.formula, usize::MAX)
    }
}

impl Formula {
    /// Pairs the formula with the registry it was compiled against, for
    /// rendering.
    pub fn display<'a>(&'a self, variables: &'a indexmap::IndexSet<Variable>) -> (r:
        DisplayFormula<'a>)
        ensures
            r.formula == self,
            r.variables == variables,
    {
        DisplayFormula { formula: self, variables }
    }
}

} // verus!
