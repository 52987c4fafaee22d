//! A list of cell deps kept free of repeats.

use vstd::prelude::*;
use crate::types::{CellDep, CellDepModel};

verus! {

/// Whether a list of deps holds a dep of the given value.
pub open spec fn holds_dep(s: Seq<CellDep>, m: CellDepModel) -> bool {
    exists|i: int| 0 <= i < s.len() && #[trigger] s[i]@ == m
}

/// No dep value stands twice in the list.
pub open spec fn deps_distinct(s: Seq<CellDep>) -> bool {
    forall|i: int, j: int| 0 <= i < s.len() && 0 <= j < s.len() && i != j ==> s[i]@ != s[j]@
}

/// Adds a dep unless one of the same value is there already.
pub fn insert_dep(deps: &mut Vec<CellDep>, d: CellDep)
    requires
        deps_distinct(old(deps)@),
    ensures
        deps_distinct(final(deps)@),
        forall|m: CellDepModel| holds_dep(final(deps)@, m) <==> (holds_dep(old(deps)@, m) || m == d@),
{
    let mut k: usize = 0;
    while k < deps.len()
        invariant
            k <= deps@.len(),
            deps@ == old(deps)@,
            deps_distinct(deps@),
            forall|j: int| 0 <= j < k ==> deps@[j]@ != d@,
        decreases deps@.len() - k,
    {
        if deps[k].same_as(&d) {
            assert(holds_dep(deps@, d@));
            return;
        }
        k = k + 1;
    }
    let ghost before = deps@;
    deps.push(d);
    assert forall|m: CellDepModel| holds_dep(deps@, m) <==> (holds_dep(before, m) || m == d@) by {
        if holds_dep(deps@, m) {
            let i = choose|i: int| 0 <= i < deps@.len() && #[trigger] deps@[i]@ == m;
            if i < before.len() {
                assert(before[i]@ == m);
            }
        }
        if holds_dep(before, m) {
            let i = choose|i: int| 0 <= i < before.len() && #[trigger] before[i]@ == m;
            assert(deps@[i]@ == m);
        }
        if m == d@ {
            assert(deps@[before.len() as int]@ == m);
        }
    }
}

} // verus!
