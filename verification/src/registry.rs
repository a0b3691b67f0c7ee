use vstd::prelude::*;

verus! {

/// One concrete access point to a resource: a resource name, a
/// zero-based index distinguishing repeated accesses to the same
/// resource within one compiled query set, and a mutability flag
/// (true for exclusive access, false for shared access).
#[derive(Debug, Hash, PartialEq, Eq)]
pub struct Variable {
    pub component: &'static str,
    pub index: usize,
    pub mutable: bool,
}

impl View for Variable {
    type V = (Seq<char>, nat, bool);

    open spec fn view(&self) -> (Seq<char>, nat, bool) {
        ((*self).component@, (*self).index as nat, (*self).mutable)
    }
}

/// `indexmap::IndexSet`, declared so that slot registries can stand in
/// verified signatures; what a registry holds is given by [`slots_of`].
#[verifier::external_type_specification]
#[verifier::external_body]
#[verifier::reject_recursive_types(T)]
#[verifier::reject_recursive_types(S)]
pub struct ExIndexSet<T, S>(indexmap::IndexSet<T, S>);

/// The contents of a slot registry: the slots it holds, in insertion
/// order, each as (resource name, index, mutability).
pub uninterp spec fn slots_of(s: indexmap::IndexSet<Variable>) -> Seq<(Seq<char>, nat, bool)>;

/// Relies on `indexmap::IndexSet::new`: creates a set that holds nothing.
#[verifier::external_body]
pub(crate) fn registry_new() -> (r: indexmap::IndexSet<Variable>)
    ensures
        slots_of(r) == Seq::<(Seq<char>, nat, bool)>::empty(),
{
    indexmap::IndexSet::new()
}

/// Relies on `indexmap::IndexSet::len`: the number of stored values.
#[verifier::external_body]
pub(crate) fn registry_len(s: &indexmap::IndexSet<Variable>) -> (n: usize)
    ensures
        n as nat == slots_of(*s).len(),
{
    s.len()
}

/// Relies on `indexmap::IndexSet::insert_full`: when a value equal to
/// `v` is already stored (by `Variable`'s derived `Eq`, which compares
/// the name's characters, the index and the mutability flag), the set
/// is unchanged and the position of that value is returned with
/// `false`; otherwise `v` is appended after all stored values and its
/// new position is returned with `true`.
#[verifier::external_body]
pub(crate) fn registry_insert_full(s: &mut indexmap::IndexSet<Variable>, v: Variable) -> (r: (
    usize,
    bool,
))
    ensures
        (exists|i: int| 0 <= i < slots_of(*old(s)).len() && slots_of(*old(s))[i] == v@) ==> {
            &&& slots_of(*final(s)) == slots_of(*old(s))
            &&& !r.1
            &&& 0 <= r.0 < slots_of(*old(s)).len()
            &&& slots_of(*old(s))[r.0 as int] == v@
        },
        !(exists|i: int| 0 <= i < slots_of(*old(s)).len() && slots_of(*old(s))[i] == v@) ==> {
            &&& slots_of(*final(s)) == slots_of(*old(s)).push(v@)
            &&& r.1
            &&& r.0 as nat == slots_of(*old(s)).len()
        },
{
    s.insert_full(v)
}

/// Relies on `indexmap::IndexSet::get_index_of`: the position of the
/// value equal to `v`, or `None` when no such value is stored.
#[verifier::external_body]
pub(crate) fn registry_index_of(s: &indexmap::IndexSet<Variable>, v: &Variable) -> (r: Option<
    usize,
>)
    ensures
        match r {
            Some(i) => 0 <= i < slots_of(*s).len() && slots_of(*s)[i as int] == v@,
            None => forall|i: int| 0 <= i < slots_of(*s).len() ==> slots_of(*s)[i] != v@,
        },
{
    s.get_index_of(v)
}

/// Relies on `indexmap::IndexSet::get_index`: the value at position
/// `i`, or `None` when `i` is out of range.
#[verifier::external_body]
pub(crate) fn registry_get(s: &indexmap::IndexSet<Variable>, i: usize) -> (r: Option<&Variable>)
    ensures
        match r {
            Some(v) => (i as nat) < slots_of(*s).len() && v@ == slots_of(*s)[i as int],
            None => slots_of(*s).len() <= i as nat,
        },
{
    s.get_index(i)
}

/// Relies on `str`'s `PartialEq`: two string slices are equal exactly
/// when their characters are.
#[verifier::external_body]
pub(crate) fn str_eq(a: &str, b: &str) -> (r: bool)
    ensures
        r == (a@ == b@),
{
    a == b
}

} // verus!
