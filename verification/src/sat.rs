use vstd::prelude::*;
use vstd::pervasive::VecAdditionalExecFns;

use crate::formula::Formula;
use crate::formula::sat;
use crate::formula::shape_of;
use crate::formula::vars_in;
use crate::registry::Variable;
use crate::registry::registry_len;
use crate::registry::slots_of;

verus! {

/// Two to the power `n`.
pub open spec fn two_pow(n: nat) -> nat
    decreases n,
{
    if n == 0 {
        1
    } else {
        2 * two_pow((n - 1) as nat)
    }
}

/// The position of an assignment in the enumeration order: entry `i`
/// counts for two to the power `i`, so the order counts upward in
/// binary with entry 0 as the least significant digit.
pub open spec fn rank(a: Seq<bool>) -> nat
    decreases a.len(),
{
    if a.len() == 0 {
        0
    } else {
        (if a[0] {
            1nat
        } else {
            0nat
        }) + 2 * rank(a.drop_first())
    }
}

pub proof fn lemma_rank_bound(a: Seq<bool>)
    ensures
        rank(a) < two_pow(a.len()),
    decreases a.len(),
{
    if a.len() > 0 {
        lemma_rank_bound(a.drop_first());
    }
}

pub proof fn lemma_rank_injective(a: Seq<bool>, b: Seq<bool>)
    requires
        a.len() == b.len(),
        rank(a) == rank(b),
    ensures
        a == b,
    decreases a.len(),
{
    if a.len() == 0 {
        assert(a =~= b);
    } else {
        assert(a[0] == b[0]);
        lemma_rank_injective(a.drop_first(), b.drop_first());
        assert forall|i: int| 0 <= i < a.len() implies a[i] == b[i] by {
            if i > 0 {
                assert(a.drop_first()[i - 1] == b.drop_first()[i - 1]);
            }
        }
        assert(a =~= b);
    }
}

pub proof fn lemma_rank_zeros(a: Seq<bool>)
    requires
        forall|i: int| 0 <= i < a.len() ==> !a[i],
    ensures
        rank(a) == 0,
    decreases a.len(),
{
    if a.len() > 0 {
        assert forall|i: int| 0 <= i < a.drop_first().len() implies !a.drop_first()[i] by {
            assert(a.drop_first()[i] == a[i + 1]);
        }
        lemma_rank_zeros(a.drop_first());
    }
}

pub proof fn lemma_rank_ones(a: Seq<bool>)
    requires
        forall|i: int| 0 <= i < a.len() ==> a[i],
    ensures
        rank(a) == two_pow(a.len()) - 1,
    decreases a.len(),
{
    if a.len() > 0 {
        assert forall|i: int| 0 <= i < a.drop_first().len() implies a.drop_first()[i] by {
            assert(a.drop_first()[i] == a[i + 1]);
        }
        lemma_rank_ones(a.drop_first());
    }
}

/// Counting one step: `b` is `a` with the trailing run of set entries
/// below `i` cleared and entry `i` set.
pub proof fn lemma_rank_step(a: Seq<bool>, b: Seq<bool>, i: int)
    requires
        a.len() == b.len(),
        0 <= i < a.len(),
        forall|j: int| 0 <= j < i ==> a[j],
        !a[i],
        forall|j: int|
            0 <= j < a.len() ==> b[j] == (if j < i {
                false
            } else if j == i {
                true
            } else {
                a[j]
            }),
    ensures
        rank(b) == rank(a) + 1,
    decreases i,
{
    if i == 0 {
        assert(b[0] && !a[0]);
        assert(a.drop_first() =~= b.drop_first()) by {
            assert forall|j: int| 0 <= j < a.drop_first().len() implies a.drop_first()[j]
                == b.drop_first()[j] by {
                assert(b[j + 1] == a[j + 1]);
            }
        }
    } else {
        assert(a[0] && !b[0]);
        let ar = a.drop_first();
        let br = b.drop_first();
        assert forall|j: int| 0 <= j < i - 1 implies ar[j] by {
            assert(ar[j] == a[j + 1]);
        }
        assert(!ar[i - 1]) by {
            assert(ar[i - 1] == a[i]);
        }
        assert forall|j: int|
            0 <= j < ar.len() implies br[j] == (if j < i - 1 {
            false
        } else if j == i - 1 {
            true
        } else {
            ar[j]
        }) by {
            assert(br[j] == b[j + 1]);
            assert(ar[j] == a[j + 1]);
        }
        lemma_rank_step(ar, br, i - 1);
    }
}

impl Formula {
    /// Enumerates every assignment over the registered slots, counting
    /// upward in binary from all-false, and returns the first one that
    /// satisfies the formula, or `None` when none of the two to the
    /// power `n` assignments does.
    pub fn compute_assignment(&self, variables: &indexmap::IndexSet<Variable>) -> (r: Option<
        Vec<bool>,
    >)
        requires
            vars_in(shape_of(*self), slots_of(*variables).len()),
        ensures
            match r {
                Some(a) => {
                    &&& a@.len() == slots_of(*variables).len()
                    &&& sat(shape_of(*self), a@)
                    &&& forall|b: Seq<bool>|
                        b.len() == slots_of(*variables).len() && rank(b) < rank(a@) ==> !sat(
                            shape_of(*self),
                            b,
                        )
                },
                None => forall|b: Seq<bool>|
                    b.len() == slots_of(*variables).len() ==> !sat(shape_of(*self), b),
            },
    {
        let ghost fsh = shape_of(*self);
        let ghost nn = slots_of(*variables).len();
        let n = registry_len(variables);
        let mut a: Vec<bool> = Vec::new();
        let mut t: usize = 0;
        while t < n
            invariant
                t <= n,
                a@.len() == t as nat,
                forall|j: int| 0 <= j < t ==> !a@[j],
            decreases n - t,
        {
            a.push(false);
            t += 1;
        }
        proof {
            lemma_rank_zeros(a@);
            lemma_rank_bound(a@);
        }
        loop
            invariant
                a@.len() == n as nat,
                n as nat == nn,
                nn == slots_of(*variables).len(),
                vars_in(fsh, nn),
                fsh == shape_of(*self),
                rank(a@) < two_pow(nn),
                forall|b: Seq<bool>| b.len() == nn && rank(b) < rank(a@) ==> !sat(fsh, b),
            decreases two_pow(nn) - rank(a@),
        {
            if self.holds(a.as_slice()) {
                return Some(a);
            }
            let ghost a0 = a@;
            let mut i: usize = 0;
            while i < n && a[i]
                invariant
                    i <= n,
                    a@.len() == n as nat,
                    a0.len() == n as nat,
                    forall|j: int| 0 <= j < i ==> a0[j],
                    forall|j: int| 0 <= j < i ==> !a@[j],
                    forall|j: int| i <= j < n ==> a@[j] == a0[j],
                decreases n - i,
            {
                a.set(i, false);
                i += 1;
            }
            if i == n {
                proof {
                    assert forall|j: int| 0 <= j < a0.len() implies a0[j] by {}
                    lemma_rank_ones(a0);
                    assert forall|b: Seq<bool>| b.len() == nn implies !sat(fsh, b) by {
                        lemma_rank_bound(b);
                        if rank(b) == rank(a0) {
                            lemma_rank_injective(b, a0);
                        }
                    }
                }
                return None;
            }
            let ghost apre = a@;
            a.set(i, true);
            proof {
                assert(i < n);
                assert(a@ == apre.update(i as int, true));
                assert(forall|j: int| 0 <= j < i ==> !apre[j]);
                assert(forall|j: int| i <= j < n ==> apre[j] == a0[j]);
                assert(!apre[i as int]);
                lemma_rank_step(a0, a@, i as int);
                assert forall|b: Seq<bool>| b.len() == nn && rank(b) < rank(a@) implies !sat(
                    fsh,
                    b,
                ) by {
                    if rank(b) == rank(a0) {
                        lemma_rank_injective(b, a0);
                    }
                }
                lemma_rank_bound(a@);
            }
        }
    }
}

} // verus!
