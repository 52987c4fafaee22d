//! Script hashes and transaction hashes of the model types.

use vstd::prelude::*;
use crate::encoding::{
    blake2b_256, bytes_vec_bytes, bytes_vec_bytes_of, cell_dep_bytes, cell_dep_bytes_of, cell_input_bytes, cell_input_bytes_of,
    cell_output_bytes, cell_output_bytes_of, ckb_hash_of, raw_tx_bytes, raw_tx_bytes_of,
    script_bytes, script_bytes_of,
};
use crate::types::{
    CellDep, CellDepModel, CellInput, CellInputModel, CellOutput, CellOutputModel, DepType,
    RawTransactionModel, Script, ScriptModel, Transaction,
};

verus! {

/// The encoding of a script value.
pub open spec fn script_encoding(s: ScriptModel) -> Seq<u8> {
    script_bytes_of(s.code_hash, s.hash_type.spec_byte(), s.args)
}

/// The script hash: the chain's digest of the script's encoding.
pub open spec fn script_hash_spec(s: ScriptModel) -> Seq<u8> {
    ckb_hash_of(script_encoding(s))
}

/// The byte that stands for a dep type in the chain's encoding.
pub open spec fn dep_type_byte(d: DepType) -> u8 {
    match d {
        DepType::Code => 0u8,
        DepType::DepGroup => 1u8,
    }
}

pub open spec fn cell_dep_encoding(d: CellDepModel) -> Seq<u8> {
    cell_dep_bytes_of(d.out_point.tx_hash, d.out_point.index, dep_type_byte(d.dep_type))
}

pub open spec fn cell_input_encoding(i: CellInputModel) -> Seq<u8> {
    cell_input_bytes_of(i.since, i.previous_output.tx_hash, i.previous_output.index)
}

pub open spec fn opt_script_encoding(s: Option<ScriptModel>) -> Option<Seq<u8>> {
    match s {
        Some(x) => Some(script_encoding(x)),
        None => None,
    }
}

pub open spec fn cell_output_encoding(o: CellOutputModel) -> Seq<u8> {
    cell_output_bytes_of(o.capacity, script_encoding(o.lock), opt_script_encoding(o.type_))
}

/// The encoding of the part of a transaction that its hash covers.
pub open spec fn raw_tx_encoding(raw: RawTransactionModel) -> Seq<u8> {
    raw_tx_bytes_of(
        raw.version,
        raw.cell_deps.map_values(|d: CellDepModel| cell_dep_encoding(d)),
        raw.header_deps,
        raw.inputs.map_values(|i: CellInputModel| cell_input_encoding(i)),
        raw.outputs.map_values(|o: CellOutputModel| cell_output_encoding(o)),
        bytes_vec_bytes_of(raw.outputs_data),
    )
}

/// The transaction hash: the chain's digest of the raw transaction; witnesses are not covered.
pub open spec fn tx_hash_spec(raw: RawTransactionModel) -> Seq<u8> {
    ckb_hash_of(raw_tx_encoding(raw))
}

fn encode_script(s: &Script) -> (r: Vec<u8>)
    ensures
        r@ == script_encoding(s@),
{
    script_bytes(&s.code_hash, s.hash_type.to_byte(), s.args.as_slice())
}

/// The script hash of a script.
pub fn script_hash(s: &Script) -> (r: [u8; 32])
    ensures
        r@ == script_hash_spec(s@),
{
    let enc = encode_script(s);
    blake2b_256(enc.as_slice())
}

fn encode_cell_output(o: &CellOutput) -> (r: Vec<u8>)
    ensures
        r@ == cell_output_encoding(o@),
{
    let lock = encode_script(&o.lock);
    let type_: Option<Vec<u8>> = match &o.type_ {
        Some(t) => Some(encode_script(t)),
        None => None,
    };
    cell_output_bytes(o.capacity, &lock, &type_)
}

fn encode_cell_dep(d: &CellDep) -> (r: Vec<u8>)
    ensures
        r@ == cell_dep_encoding(d@),
{
    let b: u8 = match d.dep_type {
        DepType::Code => 0u8,
        DepType::DepGroup => 1u8,
    };
    cell_dep_bytes(&d.out_point.tx_hash, d.out_point.index, b)
}

fn encode_cell_input(i: &CellInput) -> (r: Vec<u8>)
    ensures
        r@ == cell_input_encoding(i@),
{
    cell_input_bytes(i.since, &i.previous_output.tx_hash, i.previous_output.index)
}

/// The transaction hash of a transaction.
pub fn tx_hash(tx: &Transaction) -> (r: [u8; 32])
    ensures
        r@ == tx_hash_spec(tx.raw_model()),
{
    let mut deps: Vec<Vec<u8>> = Vec::new();
    let mut k: usize = 0;
    while k < tx.cell_deps.len()
        invariant
            k <= tx.cell_deps@.len(),
            deps@.len() == k,
            forall|j: int| 0 <= j < k ==> #[trigger] deps@[j]@ == cell_dep_encoding(tx.cell_deps@[j]@),
        decreases tx.cell_deps@.len() - k,
    {
        deps.push(encode_cell_dep(&tx.cell_deps[k]));
        k = k + 1;
    }
    let mut inputs: Vec<Vec<u8>> = Vec::new();
    let mut k: usize = 0;
    while k < tx.inputs.len()
        invariant
            k <= tx.inputs@.len(),
            inputs@.len() == k,
            forall|j: int| 0 <= j < k ==> #[trigger] inputs@[j]@ == cell_input_encoding(tx.inputs@[j]@),
        decreases tx.inputs@.len() - k,
    {
        inputs.push(encode_cell_input(&tx.inputs[k]));
        k = k + 1;
    }
    let mut outputs: Vec<Vec<u8>> = Vec::new();
    let mut k: usize = 0;
    while k < tx.outputs.len()
        invariant
            k <= tx.outputs@.len(),
            outputs@.len() == k,
            forall|j: int| 0 <= j < k ==> #[trigger] outputs@[j]@ == cell_output_encoding(tx.outputs@[j]@),
        decreases tx.outputs@.len() - k,
    {
        outputs.push(encode_cell_output(&tx.outputs[k]));
        k = k + 1;
    }
    let data = bytes_vec_bytes(&tx.outputs_data);
    let raw = raw_tx_bytes(tx.version, &deps, &tx.header_deps, &inputs, &outputs, &data);
    let ghost m = tx.raw_model();
    assert(deps@.map_values(|d: Vec<u8>| d@) =~= m.cell_deps.map_values(|d: CellDepModel| cell_dep_encoding(d)));
    assert(inputs@.map_values(|d: Vec<u8>| d@) =~= m.inputs.map_values(|i: CellInputModel| cell_input_encoding(i)));
    assert(outputs@.map_values(|d: Vec<u8>| d@) =~= m.outputs.map_values(|o: CellOutputModel| cell_output_encoding(o)));
    assert(tx.header_deps@.map_values(|h: [u8; 32]| h@) =~= m.header_deps);
    assert(tx.outputs_data@.map_values(|d: Vec<u8>| d@) =~= m.outputs_data);
    blake2b_256(raw.as_slice())
}

} // verus!
