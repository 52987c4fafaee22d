use ckb_types::packed;
use ckb_types::prelude::{Builder, Entity};
use ckb_cheque_signer::amount::{decode_amount, encode_amount};
use ckb_cheque_signer::cheque::{ChequeClaimBuilder, ChequeWithdrawBuilder, CHEQUE_CELL_SINCE};
use ckb_cheque_signer::hash::{script_hash, tx_hash};
use ckb_cheque_signer::traits::{CellDepResolver, TransactionDependencyError, TransactionDependencyProvider};
use ckb_cheque_signer::transfer::CapacityTransferBuilder;
use ckb_cheque_signer::tx_builder::BuilderError;
use ckb_cheque_signer::types::{
    CellDep, CellDepModel, CellInput, CellOutput, CellOutputModel, DepType, OutPoint, OutPointModel, Script,
    ScriptHashType, ScriptId, ScriptIdModel, Transaction,
};
use vstd::seq::Seq;

struct Resolver {
    entries: Vec<(ScriptId, CellDep)>,
}

impl CellDepResolver for Resolver {
    fn resolved(&self, _id: ScriptIdModel) -> Option<CellDepModel> {
        panic!("a model for proofs, never run")
    }

    fn resolve(&self, id: &ScriptId) -> Option<CellDep> {
        self.entries
            .iter()
            .find(|(i, _)| i.code_hash == id.code_hash && i.hash_type == id.hash_type)
            .map(|(_, d)| *d)
    }
}

struct Provider {
    cells: Vec<(OutPoint, CellOutput, Vec<u8>)>,
}

impl TransactionDependencyProvider for Provider {
    fn cell_of(&self, _op: OutPointModel) -> Option<CellOutputModel> {
        panic!("a model for proofs, never run")
    }

    fn data_of(&self, _op: OutPointModel) -> Option<Seq<u8>> {
        panic!("a model for proofs, never run")
    }

    fn get_cell(&self, op: &OutPoint) -> Result<CellOutput, TransactionDependencyError> {
        self.cells
            .iter()
            .find(|(o, _, _)| o.tx_hash == op.tx_hash && o.index == op.index)
            .map(|(_, c, _)| c.clone())
            .ok_or(TransactionDependencyError::NotFound("cell".to_string()))
    }

    fn get_cell_data(&self, op: &OutPoint) -> Result<Vec<u8>, TransactionDependencyError> {
        self.cells
            .iter()
            .find(|(o, _, _)| o.tx_hash == op.tx_hash && o.index == op.index)
            .map(|(_, _, d)| d.clone())
            .ok_or(TransactionDependencyError::NotFound("data".to_string()))
    }
}

fn script(code: u8, hash_type: ScriptHashType, args: Vec<u8>) -> Script {
    Script::new([code; 32], hash_type, args)
}

fn sender() -> Script {
    script(1, ScriptHashType::Type, vec![0x51; 20])
}

fn receiver() -> Script {
    script(2, ScriptHashType::Type, vec![0x52; 20])
}

fn sudt() -> Script {
    script(3, ScriptHashType::Data1, vec![0x53; 32])
}

fn h20(s: &Script) -> Vec<u8> {
    script_hash(s)[0..20].to_vec()
}

fn cheque_lock(receiver_part: Vec<u8>, sender_part: Vec<u8>) -> Script {
    let mut args = receiver_part;
    args.extend(sender_part);
    script(4, ScriptHashType::Type, args)
}

fn amount_data(v: u128) -> Vec<u8> {
    v.to_le_bytes().to_vec()
}

fn dep(n: u8) -> CellDep {
    CellDep::new(OutPoint::new([0xd0 + n; 32], 0), DepType::Code)
}

fn resolver() -> Resolver {
    Resolver {
        entries: vec![
            (ScriptId::from_script(&receiver()), dep(1)),
            (ScriptId::from_script(&sudt()), dep(2)),
            (ScriptId::new([4; 32], ScriptHashType::Type), dep(3)),
            (ScriptId::from_script(&sender()), dep(1)),
        ],
    }
}

fn op(i: u32) -> OutPoint {
    OutPoint::new([9; 32], i)
}

fn claim_setup(lock: Script, cheque_data: Vec<u8>) -> (ChequeClaimBuilder, Provider) {
    let provider = Provider {
        cells: vec![
            (op(0), CellOutput::new(162_0000_0000, lock, Some(sudt())), cheque_data),
            (op(1), CellOutput::new(142_0000_0000, receiver(), Some(sudt())), amount_data(5)),
        ],
    };
    let builder = ChequeClaimBuilder {
        inputs: vec![CellInput::new(op(0), 0)],
        receiver_input: CellInput::new(op(1), 0),
        sender_lock_script: sender(),
    };
    (builder, provider)
}

fn dep_set(tx: &Transaction) -> Vec<([u8; 32], u32)> {
    let mut v: Vec<([u8; 32], u32)> = tx.cell_deps.iter().map(|d| (d.out_point.tx_hash, d.out_point.index)).collect();
    v.sort();
    v
}

fn is_invalid_parameter(r: &Result<Transaction, BuilderError>) -> bool {
    matches!(r, Err(BuilderError::InvalidParameter(_)))
}

#[test]
fn claim_single_cheque() {
    let lock = cheque_lock(h20(&receiver()), h20(&sender()));
    let (builder, provider) = claim_setup(lock, amount_data(100));
    let tx = builder.build_base(&resolver(), &provider).unwrap();
    assert_eq!(tx.inputs.len(), 2);
    assert_eq!(tx.inputs[0].previous_output.index, 0);
    assert_eq!(tx.inputs[1].previous_output.index, 1);
    assert_eq!(tx.inputs[1].since, 0);
    assert_eq!(tx.outputs.len(), 2);
    assert_eq!(tx.outputs[0].capacity, 142_0000_0000);
    assert_eq!(tx.outputs[0].lock.code_hash, [2; 32]);
    assert_eq!(tx.outputs[0].type_.as_ref().unwrap().code_hash, [3; 32]);
    assert_eq!(tx.outputs_data[0], amount_data(105));
    assert_eq!(tx.outputs[1].capacity, 162_0000_0000);
    assert_eq!(tx.outputs[1].lock.code_hash, [1; 32]);
    assert!(tx.outputs[1].type_.is_none());
    assert!(tx.outputs_data[1].is_empty());
    assert_eq!(dep_set(&tx), vec![([0xd1; 32], 0), ([0xd2; 32], 0), ([0xd3; 32], 0)]);
    assert!(tx.witnesses.is_empty());
}

#[test]
fn claim_sender_args_mismatch() {
    let mut wrong = h20(&sender());
    wrong[0] ^= 0xff;
    let lock = cheque_lock(h20(&receiver()), wrong);
    let (builder, provider) = claim_setup(lock, amount_data(100));
    assert!(is_invalid_parameter(&builder.build_base(&resolver(), &provider)));
}

#[test]
fn claim_args_length_must_be_40() {
    let mut short = h20(&sender());
    short.pop();
    let lock = cheque_lock(h20(&receiver()), short);
    let (builder, provider) = claim_setup(lock, amount_data(100));
    assert!(is_invalid_parameter(&builder.build_base(&resolver(), &provider)));
    let mut long = h20(&sender());
    long.push(0);
    let lock = cheque_lock(h20(&receiver()), long);
    let (builder, provider) = claim_setup(lock, amount_data(100));
    assert!(is_invalid_parameter(&builder.build_base(&resolver(), &provider)));
}

#[test]
fn claim_data_length_must_be_16() {
    let lock = cheque_lock(h20(&receiver()), h20(&sender()));
    let (builder, provider) = claim_setup(lock, vec![100u8; 15]);
    assert!(is_invalid_parameter(&builder.build_base(&resolver(), &provider)));
}

#[test]
fn claim_empty_inputs() {
    let lock = cheque_lock(h20(&receiver()), h20(&sender()));
    let (mut builder, provider) = claim_setup(lock, amount_data(100));
    builder.inputs.clear();
    assert!(is_invalid_parameter(&builder.build_base(&resolver(), &provider)));
}

#[test]
fn claim_missing_cell_is_lookup_error() {
    let lock = cheque_lock(h20(&receiver()), h20(&sender()));
    let (mut builder, provider) = claim_setup(lock, amount_data(100));
    builder.inputs.push(CellInput::new(op(7), 0));
    assert!(matches!(builder.build_base(&resolver(), &provider), Err(BuilderError::DependencyLookup(_))));
}

#[test]
fn claim_unresolved_dep() {
    let lock = cheque_lock(h20(&receiver()), h20(&sender()));
    let (builder, provider) = claim_setup(lock, amount_data(100));
    let partial = Resolver { entries: vec![(ScriptId::from_script(&receiver()), dep(1))] };
    match builder.build_base(&partial, &provider) {
        Err(BuilderError::ResolveCellDepFailed(id)) => assert_eq!(id.code_hash, [3; 32]),
        _ => panic!("expected an unresolved dep"),
    }
}

#[test]
fn claim_amount_overflow() {
    let lock = cheque_lock(h20(&receiver()), h20(&sender()));
    let (builder, provider) = claim_setup(lock, amount_data(u128::MAX - 4));
    assert!(is_invalid_parameter(&builder.build_base(&resolver(), &provider)));
}

#[test]
fn claim_conserves_capacity_and_amount() {
    let lock = cheque_lock(h20(&receiver()), h20(&sender()));
    let provider = Provider {
        cells: vec![
            (op(0), CellOutput::new(100, lock.clone(), Some(sudt())), amount_data(7)),
            (op(2), CellOutput::new(250, lock, Some(sudt())), amount_data(11)),
            (op(1), CellOutput::new(61, receiver(), Some(sudt())), amount_data(5)),
        ],
    };
    let builder = ChequeClaimBuilder {
        inputs: vec![CellInput::new(op(0), 0), CellInput::new(op(2), 0)],
        receiver_input: CellInput::new(op(1), 0),
        sender_lock_script: sender(),
    };
    let tx = builder.build_base(&resolver(), &provider).unwrap();
    assert_eq!(tx.outputs[0].capacity + tx.outputs[1].capacity, 100 + 250 + 61);
    assert_eq!(decode_amount(&tx.outputs_data[0]), 5 + 7 + 11);
    assert_eq!(tx.cell_deps.len(), 3);
}

fn withdraw_provider(lock: Script) -> Provider {
    Provider {
        cells: vec![
            (op(0), CellOutput::new(162_0000_0000, lock.clone(), Some(sudt())), amount_data(40)),
            (op(1), CellOutput::new(162_0000_0000, lock, Some(sudt())), amount_data(60)),
        ],
    }
}

#[test]
fn withdraw_two_cheques() {
    let lock = cheque_lock(h20(&receiver()), h20(&sender()));
    let provider = withdraw_provider(lock);
    let builder = ChequeWithdrawBuilder { out_points: vec![op(0), op(1)], sender_lock_script: sender() };
    let tx = builder.build_base(&resolver(), &provider).unwrap();
    assert_eq!(tx.inputs.len(), 2);
    assert!(tx.inputs.iter().all(|i| i.since == CHEQUE_CELL_SINCE));
    assert_eq!(tx.inputs[0].previous_output.index, 0);
    assert_eq!(tx.inputs[1].previous_output.index, 1);
    assert_eq!(tx.outputs.len(), 1);
    assert_eq!(tx.outputs[0].capacity, 324_0000_0000);
    assert_eq!(tx.outputs[0].lock.code_hash, [1; 32]);
    assert_eq!(tx.outputs[0].type_.as_ref().unwrap().code_hash, [3; 32]);
    assert_eq!(tx.outputs_data[0], amount_data(100));
    assert_eq!(dep_set(&tx), vec![([0xd2; 32], 0), ([0xd3; 32], 0)]);
}

#[test]
fn withdraw_mixed_type_scripts_rejected() {
    let lock = cheque_lock(h20(&receiver()), h20(&sender()));
    let mut provider = withdraw_provider(lock);
    provider.cells[1].1.type_ = Some(script(5, ScriptHashType::Data, vec![]));
    let builder = ChequeWithdrawBuilder { out_points: vec![op(0), op(1)], sender_lock_script: sender() };
    assert!(is_invalid_parameter(&builder.build_base(&resolver(), &provider)));
}

#[test]
fn withdraw_sender_mismatch_rejected() {
    let lock = cheque_lock(h20(&receiver()), h20(&receiver()));
    let provider = withdraw_provider(lock);
    let builder = ChequeWithdrawBuilder { out_points: vec![op(0), op(1)], sender_lock_script: sender() };
    assert!(is_invalid_parameter(&builder.build_base(&resolver(), &provider)));
}

#[test]
fn withdraw_empty_rejected() {
    let builder = ChequeWithdrawBuilder { out_points: vec![], sender_lock_script: sender() };
    let provider = Provider { cells: vec![] };
    assert!(is_invalid_parameter(&builder.build_base(&resolver(), &provider)));
}

#[test]
fn transfer_resolves_type_deps_once() {
    let builder = CapacityTransferBuilder {
        outputs: vec![
            (CellOutput::new(100, receiver(), Some(sudt())), vec![1, 2]),
            (CellOutput::new(200, sender(), None), vec![]),
            (CellOutput::new(300, receiver(), Some(sudt())), vec![3]),
        ],
    };
    let tx = builder.build_base(&resolver()).unwrap();
    assert_eq!(tx.outputs.len(), 3);
    assert_eq!(tx.outputs[1].capacity, 200);
    assert_eq!(tx.outputs_data[2], vec![3]);
    assert!(tx.inputs.is_empty());
    assert_eq!(dep_set(&tx), vec![([0xd2; 32], 0)]);
}

#[test]
fn transfer_unresolved_type() {
    let builder = CapacityTransferBuilder {
        outputs: vec![(CellOutput::new(100, receiver(), Some(script(8, ScriptHashType::Data, vec![]))), vec![])],
    };
    assert!(matches!(builder.build_base(&resolver()), Err(BuilderError::ResolveCellDepFailed(_))));
}

#[test]
fn amount_round_trip() {
    assert_eq!(encode_amount(100), amount_data(100));
    assert_eq!(encode_amount(0x0102), vec![2, 1, 0, 0, 0, 0, 0, 0, 0, 0, 0, 0, 0, 0, 0, 0]);
    assert_eq!(decode_amount(&amount_data(u128::MAX)), u128::MAX);
}

#[test]
fn script_hash_depends_on_args() {
    let a = script_hash(&sender());
    let b = script_hash(&receiver());
    assert_ne!(a, b);
    assert_ne!(a, [1; 32]);
    let packed = ckb_types::packed::Script::new_builder()
        .code_hash(ckb_types::packed::Byte32::from(&[1u8; 32]))
        .hash_type(ckb_types::packed::Byte::new(1))
        .args(ckb_types::packed::Bytes::from(&[0x51u8; 20][..]))
        .build();
    let expected: [u8; 32] = packed.calc_script_hash().as_reader().into();
    assert_eq!(a, expected);
}

#[test]
fn tx_hash_ignores_witnesses() {
    let lock = cheque_lock(h20(&receiver()), h20(&sender()));
    let (builder, provider) = claim_setup(lock, amount_data(100));
    let mut tx = builder.build_base(&resolver(), &provider).unwrap();
    let h1 = tx_hash(&tx);
    tx.witnesses.push(vec![1, 2, 3]);
    assert_eq!(h1, tx_hash(&tx));
    tx.outputs[1].capacity += 1;
    assert_ne!(h1, tx_hash(&tx));
}

fn packed_script(s: &Script) -> ckb_types::packed::Script {
    let hash_type = match s.hash_type {
        ScriptHashType::Data => 0u8,
        ScriptHashType::Type => 1,
        ScriptHashType::Data1 => 2,
    };
    ckb_types::packed::Script::new_builder()
        .code_hash(ckb_types::packed::Byte32::from(&s.code_hash))
        .hash_type(ckb_types::packed::Byte::new(hash_type))
        .args(ckb_types::packed::Bytes::from(s.args.as_slice()))
        .build()
}

#[test]
fn tx_hash_matches_packed_transaction() {
    let lock = cheque_lock(h20(&receiver()), h20(&sender()));
    let (builder, provider) = claim_setup(lock, amount_data(100));
    let mut tx = builder.build_base(&resolver(), &provider).unwrap();
    tx.header_deps.push([0x44; 32]);
    let deps: Vec<packed::CellDep> = tx
        .cell_deps
        .iter()
        .map(|d| {
            let op = packed::OutPoint::new_builder()
                .tx_hash(packed::Byte32::from(&d.out_point.tx_hash))
                .index(d.out_point.index)
                .build();
            packed::CellDep::new_builder().out_point(op).dep_type(packed::Byte::new(0)).build()
        })
        .collect();
    let inputs: Vec<packed::CellInput> = tx
        .inputs
        .iter()
        .map(|i| {
            let op = packed::OutPoint::new_builder()
                .tx_hash(packed::Byte32::from(&i.previous_output.tx_hash))
                .index(i.previous_output.index)
                .build();
            packed::CellInput::new_builder().since(i.since).previous_output(op).build()
        })
        .collect();
    let outputs: Vec<packed::CellOutput> = tx
        .outputs
        .iter()
        .map(|o| {
            packed::CellOutput::new_builder()
                .capacity(o.capacity)
                .lock(packed_script(&o.lock))
                .type_(o.type_.as_ref().map(packed_script))
                .build()
        })
        .collect();
    let data: Vec<packed::Bytes> = tx.outputs_data.iter().map(|d| packed::Bytes::from(d.as_slice())).collect();
    let headers: Vec<&[u8; 32]> = tx.header_deps.iter().collect();
    let raw = packed::RawTransaction::new_builder()
        .version(0u32)
        .cell_deps(deps)
        .header_deps(headers)
        .inputs(inputs)
        .outputs(outputs)
        .outputs_data(data)
        .build();
    let expected: [u8; 32] = raw.calc_tx_hash().as_reader().into();
    assert_eq!(tx_hash(&tx), expected);
}

#[test]
fn claim_shared_dep_listed_once() {
    let lock = cheque_lock(h20(&receiver()), h20(&sender()));
    let (builder, provider) = claim_setup(lock, amount_data(1));
    let shared = Resolver {
        entries: vec![
            (ScriptId::from_script(&receiver()), dep(1)),
            (ScriptId::from_script(&sudt()), dep(2)),
            (ScriptId::new([4; 32], ScriptHashType::Type), dep(1)),
        ],
    };
    let tx = builder.build_base(&shared, &provider).unwrap();
    assert_eq!(dep_set(&tx), vec![([0xd1; 32], 0), ([0xd2; 32], 0)]);
}

#[test]
fn transfer_reports_first_unresolved_type() {
    let builder = CapacityTransferBuilder {
        outputs: vec![
            (CellOutput::new(100, receiver(), Some(sudt())), vec![]),
            (CellOutput::new(100, receiver(), Some(script(8, ScriptHashType::Data, vec![]))), vec![]),
            (CellOutput::new(100, receiver(), Some(script(9, ScriptHashType::Data, vec![]))), vec![]),
        ],
    };
    match builder.build_base(&resolver()) {
        Err(BuilderError::ResolveCellDepFailed(id)) => assert_eq!(id.code_hash, [8; 32]),
        _ => panic!("expected an unresolved dep"),
    }
}

#[test]
fn claim_first_failure_wins() {
    let lock = cheque_lock(h20(&receiver()), h20(&sender()));
    let (mut builder, provider) = claim_setup(lock, vec![1u8; 15]);
    builder.inputs.push(CellInput::new(op(7), 0));
    assert!(is_invalid_parameter(&builder.build_base(&resolver(), &provider)));
}
