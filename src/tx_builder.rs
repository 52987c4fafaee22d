//! What all transaction builders share: their error type and the resolution of code deps.

use vstd::prelude::*;
use crate::deps::{deps_distinct, holds_dep, insert_dep};
use crate::traits::{CellDepResolver, TransactionDependencyError};
use crate::types::{CellDep, CellDepModel, ScriptId, ScriptIdModel};

verus! {

/// Why a builder could not build its transaction.
#[derive(Clone, Debug)]
pub enum BuilderError {
    InvalidParameter(String),
    ResolveCellDepFailed(ScriptId),
    DependencyLookup(TransactionDependencyError),
}

/// Every id resolves to some dep.
pub open spec fn all_resolved<R: CellDepResolver>(r: &R, ids: Seq<ScriptIdModel>) -> bool {
    forall|k: int| 0 <= k < ids.len() ==> (#[trigger] r.resolved(ids[k])) is Some
}

/// The deps are, without repeats, exactly the deps that the ids resolve to.
pub open spec fn deps_exactly<R: CellDepResolver>(
    r: &R,
    deps: Seq<CellDep>,
    ids: Seq<ScriptIdModel>,
) -> bool {
    &&& deps_distinct(deps)
    &&& forall|m: CellDepModel|
        holds_dep(deps, m) <==> (exists|k: int| 0 <= k < ids.len() && #[trigger] r.resolved(ids[k]) == Some(m))
}

/// `id` stands in `ids` at a position before which every id resolves.
pub open spec fn first_unresolved<R: CellDepResolver>(r: &R, ids: Seq<ScriptIdModel>, id: ScriptIdModel) -> bool {
    exists|k: int| 0 <= k < ids.len() && #[trigger] ids[k] == id
        && forall|j: int| 0 <= j < k ==> (#[trigger] r.resolved(ids[j])) is Some
}

/// Resolves the code dep of each id, dropping repeated deps.
pub fn resolve_all<R: CellDepResolver>(r: &R, ids: &Vec<ScriptId>) -> (res: Result<Vec<CellDep>, BuilderError>)
    ensures
        res is Ok <==> all_resolved(r, ids@.map_values(|i: ScriptId| i@)),
        res is Ok ==> deps_exactly(r, res->Ok_0@, ids@.map_values(|i: ScriptId| i@)),
        res matches Err(e) ==> (e matches BuilderError::ResolveCellDepFailed(id)
            && r.resolved(id@) is None
            && first_unresolved(r, ids@.map_values(|i: ScriptId| i@), id@)),
{
    let ghost v = ids@.map_values(|i: ScriptId| i@);
    let mut deps: Vec<CellDep> = Vec::new();
    let mut k: usize = 0;
    while k < ids.len()
        invariant
            k <= ids@.len(),
            v == ids@.map_values(|i: ScriptId| i@),
            deps_distinct(deps@),
            forall|j: int| 0 <= j < k ==> (#[trigger] r.resolved(v[j])) is Some,
            forall|m: CellDepModel|
                holds_dep(deps@, m) <==> (exists|j: int| 0 <= j < k && #[trigger] r.resolved(v[j]) == Some(m)),
        decreases ids@.len() - k,
    {
        let id = ids[k];
        match r.resolve(&id) {
            Some(d) => {
                let ghost before = deps@;
                insert_dep(&mut deps, d);
                assert forall|m: CellDepModel|
                    holds_dep(deps@, m) <==> (exists|j: int| 0 <= j < k + 1 && #[trigger] r.resolved(v[j]) == Some(m)) by {
                    if m == d@ {
                        assert(r.resolved(v[k as int]) == Some(m));
                    }
                    if exists|j: int| 0 <= j < k + 1 && #[trigger] r.resolved(v[j]) == Some(m) {
                        let j = choose|j: int| 0 <= j < k + 1 && #[trigger] r.resolved(v[j]) == Some(m);
                        if j < k {
                            assert(holds_dep(before, m));
                        }
                    }
                }
            },
            None => {
                assert(v[k as int] == id@);
                return Err(BuilderError::ResolveCellDepFailed(id));
            },
        }
        k = k + 1;
    }
    Ok(deps)
}

} // verus!
