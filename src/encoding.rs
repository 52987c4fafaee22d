//! The chain's binary encodings and its hash, as computed by `ckb_types` and `ckb_hash`.
//!
//! Each function here hands plain values to the outside crate and names what
//! comes back; the rest of the library reasons over those names.

use vstd::prelude::*;
use ckb_types::packed;
use ckb_types::prelude::{Builder, Entity};
use ckb_types::error::VerificationError;
use crate::types::{WitnessArgs, WitnessArgsModel};

verus! {

#[verifier::external_type_specification]
#[verifier::external_body]
pub struct ExVerificationError(VerificationError);

/// The chain's 32-byte blake2b digest (personalised "ckb-default-hash").
pub uninterp spec fn ckb_hash_of(data: Seq<u8>) -> Seq<u8>;

/// Relies on `ckb_hash::blake2b_256`: the chain's 32-byte digest of the bytes.
#[verifier::external_body]
pub(crate) fn blake2b_256(data: &[u8]) -> (r: [u8; 32])
    ensures
        r@ == ckb_hash_of(data@),
{
    ckb_hash::blake2b_256(data)
}

/// The molecule encoding of a script.
pub uninterp spec fn script_bytes_of(code_hash: Seq<u8>, hash_type: u8, args: Seq<u8>) -> Seq<u8>;

/// Relies on `ckb_types::packed::ScriptBuilder::build`: the encoding of a script.
#[verifier::external_body]
pub(crate) fn script_bytes(code_hash: &[u8; 32], hash_type: u8, args: &[u8]) -> (r: Vec<u8>)
    ensures
        r@ == script_bytes_of(code_hash@, hash_type, args@),
{
    packed::Script::new_builder()
        .code_hash(packed::Byte32::from(code_hash))
        .hash_type(packed::Byte::new(hash_type))
        .args(packed::Bytes::from(args))
        .build()
        .as_slice()
        .to_vec()
}

/// The molecule encoding of a cell output, from the encodings of its scripts.
pub uninterp spec fn cell_output_bytes_of(capacity: u64, lock: Seq<u8>, type_: Option<Seq<u8>>) -> Seq<u8>;

/// Relies on `ckb_types::packed::CellOutputBuilder::build`: the encoding of a
/// cell output whose scripts are given encoded.
#[verifier::external_body]
pub(crate) fn cell_output_bytes(capacity: u64, lock: &Vec<u8>, type_: &Option<Vec<u8>>) -> (r: Vec<u8>)
    ensures
        r@ == cell_output_bytes_of(capacity, lock@, crate::types::opt_bytes_view(*type_)),
{
    packed::CellOutput::new_builder()
        .capacity(capacity)
        .lock(packed::Script::new_unchecked(lock.clone().into()))
        .type_(type_.as_ref().map(|t| packed::Script::new_unchecked(t.clone().into())))
        .build()
        .as_slice()
        .to_vec()
}

/// The molecule encoding of a cell input.
pub uninterp spec fn cell_input_bytes_of(since: u64, tx_hash: Seq<u8>, index: u32) -> Seq<u8>;

/// Relies on `ckb_types::packed::CellInputBuilder::build`: the encoding of a cell input.
#[verifier::external_body]
pub(crate) fn cell_input_bytes(since: u64, tx_hash: &[u8; 32], index: u32) -> (r: Vec<u8>)
    ensures
        r@ == cell_input_bytes_of(since, tx_hash@, index),
{
    let out_point = packed::OutPoint::new_builder()
        .tx_hash(packed::Byte32::from(tx_hash))
        .index(index)
        .build();
    packed::CellInput::new_builder().since(since).previous_output(out_point).build().as_slice().to_vec()
}

/// The molecule encoding of a cell dep.
pub uninterp spec fn cell_dep_bytes_of(tx_hash: Seq<u8>, index: u32, dep_type: u8) -> Seq<u8>;

/// Relies on `ckb_types::packed::CellDepBuilder::build`: the encoding of a cell dep.
#[verifier::external_body]
pub(crate) fn cell_dep_bytes(tx_hash: &[u8; 32], index: u32, dep_type: u8) -> (r: Vec<u8>)
    ensures
        r@ == cell_dep_bytes_of(tx_hash@, index, dep_type),
{
    let out_point = packed::OutPoint::new_builder()
        .tx_hash(packed::Byte32::from(tx_hash))
        .index(index)
        .build();
    packed::CellDep::new_builder().out_point(out_point).dep_type(packed::Byte::new(dep_type)).build().as_slice().to_vec()
}

/// The molecule encoding of a list of byte strings.
pub uninterp spec fn bytes_vec_bytes_of(items: Seq<Seq<u8>>) -> Seq<u8>;

/// Relies on `ckb_types::packed::BytesVec` built from a `Vec` of `packed::Bytes`:
/// the encoding of a list of byte strings.
#[verifier::external_body]
pub(crate) fn bytes_vec_bytes(items: &Vec<Vec<u8>>) -> (r: Vec<u8>)
    ensures
        r@ == bytes_vec_bytes_of(items@.map_values(|d: Vec<u8>| d@)),
{
    let v: Vec<packed::Bytes> = items.iter().map(|d| packed::Bytes::from(d.as_slice())).collect();
    packed::BytesVec::from(v).as_slice().to_vec()
}

/// The molecule encoding of a raw transaction, from the encodings of its items.
pub uninterp spec fn raw_tx_bytes_of(
    version: u32,
    cell_deps: Seq<Seq<u8>>,
    header_deps: Seq<Seq<u8>>,
    inputs: Seq<Seq<u8>>,
    outputs: Seq<Seq<u8>>,
    outputs_data: Seq<u8>,
) -> Seq<u8>;

/// Relies on `ckb_types::packed::RawTransactionBuilder::build`: the encoding of a
/// raw transaction whose deps, inputs, outputs and list of output data are given encoded.
#[verifier::external_body]
pub(crate) fn raw_tx_bytes(
    version: u32,
    deps: &Vec<Vec<u8>>,
    headers: &Vec<[u8; 32]>,
    inputs: &Vec<Vec<u8>>,
    outputs: &Vec<Vec<u8>>,
    data: &Vec<u8>,
) -> (r: Vec<u8>)
    ensures
        r@ == raw_tx_bytes_of(
            version,
            deps@.map_values(|d: Vec<u8>| d@),
            headers@.map_values(|h: [u8; 32]| h@),
            inputs@.map_values(|i: Vec<u8>| i@),
            outputs@.map_values(|o: Vec<u8>| o@),
            data@,
        ),
{
    packed::RawTransaction::new_builder()
        .version(version)
        .cell_deps(deps.iter().map(|d| packed::CellDep::new_unchecked(d.clone().into())).collect::<Vec<_>>())
        .header_deps(headers.iter().collect::<Vec<_>>())
        .inputs(inputs.iter().map(|i| packed::CellInput::new_unchecked(i.clone().into())).collect::<Vec<_>>())
        .outputs(outputs.iter().map(|o| packed::CellOutput::new_unchecked(o.clone().into())).collect::<Vec<_>>())
        .outputs_data(packed::BytesVec::new_unchecked(data.clone().into()))
        .build()
        .as_slice()
        .to_vec()
}

/// The molecule encoding of a witness record.
pub uninterp spec fn witness_args_bytes_of(w: WitnessArgsModel) -> Seq<u8>;

/// Relies on `ckb_types::packed::WitnessArgsBuilder::build`: the encoding of a
/// witness record, which begins with a 16-byte header. Molecule writes each
/// length as a `u32`, so an encoding of at most `u32::MAX` bytes has every length
/// exact, and no other record has the same bytes.
#[verifier::external_body]
pub(crate) fn witness_args_bytes(w: &WitnessArgs) -> (r: Vec<u8>)
    ensures
        r@ == witness_args_bytes_of(w@),
        r@.len() >= 16,
        r@.len() <= u32::MAX ==> forall|m: WitnessArgsModel| #[trigger] witness_args_bytes_of(m) == r@ ==> m == w@,
{
    packed::WitnessArgs::new_builder()
        .lock(w.lock.as_ref().map(|b| packed::Bytes::from(b.as_slice())))
        .input_type(w.input_type.as_ref().map(|b| packed::Bytes::from(b.as_slice())))
        .output_type(w.output_type.as_ref().map(|b| packed::Bytes::from(b.as_slice())))
        .build()
        .as_slice()
        .to_vec()
}

/// Relies on `ckb_types::packed::WitnessArgs::from_slice`: the fields read back
/// are those encoded; input of at most `u32::MAX` bytes is accepted exactly when
/// it encodes a record, and longer input never matches its `u32` size header.
#[verifier::external_body]
pub(crate) fn parse_witness_args(b: &[u8]) -> (r: Result<WitnessArgs, VerificationError>)
    ensures
        r is Ok ==> witness_args_bytes_of(r->Ok_0@) == b@,
        b@.len() > u32::MAX ==> r is Err,
        b@.len() <= u32::MAX ==> forall|m: WitnessArgsModel| #[trigger] witness_args_bytes_of(m) == b@
            ==> (r is Ok && r->Ok_0@ == m),
{
    let w = packed::WitnessArgs::from_slice(b)?;
    Ok(WitnessArgs {
        lock: w.lock().to_opt().map(|x| x.raw_data().to_vec()),
        input_type: w.input_type().to_opt().map(|x| x.raw_data().to_vec()),
        output_type: w.output_type().to_opt().map(|x| x.raw_data().to_vec()),
    })
}

} // verus!
