//! A builder that only lays out outputs, resolving the code deps of their type scripts.

use vstd::prelude::*;
use crate::traits::CellDepResolver;
use crate::tx_builder::{all_resolved, deps_exactly, first_unresolved, resolve_all, BuilderError};
use crate::types::{clone_cell_output, CellOutput, ScriptId, ScriptIdModel, Transaction, script_id_of};

verus! {

/// The ids of the type scripts of the outputs that have one, in order.
pub open spec fn type_ids(outs: Seq<(CellOutput, Vec<u8>)>) -> Seq<ScriptIdModel>
    decreases outs.len(),
{
    if outs.len() == 0 {
        Seq::empty()
    } else {
        let rest = type_ids(outs.drop_last());
        match outs.last().0.type_ {
            Some(t) => rest.push(script_id_of(t@)),
            None => rest,
        }
    }
}

/// Moves capacity to the given outputs; inputs are left for a later stage.
pub struct CapacityTransferBuilder {
    pub outputs: Vec<(CellOutput, Vec<u8>)>,
}

impl CapacityTransferBuilder {
    /// Builds a transaction holding the outputs and their data in the order given,
    /// and the code dep of every type script among them.
    pub fn build_base<R: CellDepResolver>(&self, resolver: &R) -> (res: Result<Transaction, BuilderError>)
        ensures
            res is Ok <==> all_resolved(resolver, type_ids(self.outputs@)),
            res is Ok ==> {
                let tx = res->Ok_0;
                &&& tx.version == 0
                &&& tx.inputs@.len() == 0
                &&& tx.header_deps@.len() == 0
                &&& tx.witnesses@.len() == 0
                &&& tx.outputs@.len() == self.outputs@.len()
                &&& tx.outputs_data@.len() == self.outputs@.len()
                &&& forall|i: int| 0 <= i < self.outputs@.len() ==> {
                    &&& (#[trigger] tx.outputs@[i])@ == self.outputs@[i].0@
                    &&& tx.outputs_data@[i]@ == self.outputs@[i].1@
                }
                &&& deps_exactly(resolver, tx.cell_deps@, type_ids(self.outputs@))
            },
            res matches Err(e) ==> (e matches BuilderError::ResolveCellDepFailed(id) && resolver.resolved(id@) is None
                && first_unresolved(resolver, type_ids(self.outputs@), id@)),
    {
        let ghost outs = self.outputs@;
        let mut outputs: Vec<CellOutput> = Vec::new();
        let mut outputs_data: Vec<Vec<u8>> = Vec::new();
        let mut ids: Vec<ScriptId> = Vec::new();
        let mut k: usize = 0;
        while k < self.outputs.len()
            invariant
                k <= outs.len(),
                outs == self.outputs@,
                outputs@.len() == k,
                outputs_data@.len() == k,
                forall|i: int| 0 <= i < k ==> {
                    &&& (#[trigger] outputs@[i])@ == outs[i].0@
                    &&& outputs_data@[i]@ == outs[i].1@
                },
                ids@.map_values(|i: ScriptId| i@) == type_ids(outs.subrange(0, k as int)),
            decreases outs.len() - k,
        {
            let (output, data) = &self.outputs[k];
            outputs.push(clone_cell_output(output));
            outputs_data.push(data.clone());
            let ghost before = ids@;
            assert(outs.subrange(0, k + 1).drop_last() =~= outs.subrange(0, k as int));
            match &output.type_ {
                Some(t) => {
                    ids.push(ScriptId::from_script(t));
                    assert(ids@.map_values(|i: ScriptId| i@) =~= before.map_values(|i: ScriptId| i@).push(script_id_of(t@)));
                },
                None => {},
            }
            k = k + 1;
        }
        assert(outs.subrange(0, outs.len() as int) =~= outs);
        let cell_deps = match resolve_all(resolver, &ids) {
            Ok(d) => d,
            Err(e) => return Err(e),
        };
        Ok(Transaction {
            version: 0,
            cell_deps,
            header_deps: Vec::new(),
            inputs: Vec::new(),
            outputs,
            outputs_data,
            witnesses: Vec::new(),
        })
    }
}

} // verus!
