use ckb_cheque_signer::message::generate_message;
use ckb_cheque_signer::multisig::{MultisigConfig, Secp256k1MultisigSigner};
use ckb_cheque_signer::signer::{
    AnyoneCanPaySigner, ChequeAction, ChequeSigner, ScriptSigner, Secp256k1SighashSigner, SignError,
};
use ckb_cheque_signer::traits::{TransactionDependencyError, TransactionDependencyProvider, Wallet, WalletError};
use ckb_cheque_signer::types::{
    CellInput, CellOutput, CellOutputModel, OutPoint, OutPointModel, Script, ScriptGroup, ScriptHashType, Transaction,
};
use ckb_types::packed;
use ckb_types::prelude::{Builder, Entity};
use vstd::seq::Seq;

/// A wallet whose signature is the id, then the message, then a marker byte.
#[derive(Clone)]
struct FakeWallet {
    ids: Vec<Vec<u8>>,
}

impl Wallet for FakeWallet {
    fn knows(&self, _id: Seq<u8>) -> bool {
        panic!("a model for proofs, never run")
    }

    fn signature_of(&self, _id: Seq<u8>, _message: Seq<u8>) -> Seq<u8> {
        panic!("a model for proofs, never run")
    }

    fn match_id(&self, id: &[u8]) -> bool {
        self.ids.iter().any(|i| i.as_slice() == id)
    }

    fn sign<P: TransactionDependencyProvider>(
        &self,
        id: &[u8],
        message: &[u8],
        _tx: &Transaction,
        _tx_dep_provider: &P,
    ) -> Result<Vec<u8>, WalletError> {
        if !self.match_id(id) {
            return Err(WalletError::IdNotFound);
        }
        let mut sig = vec![0x77u8; 65];
        sig[0..20].copy_from_slice(&id[0..20]);
        sig[20..52].copy_from_slice(message);
        Ok(sig)
    }
}

/// A provider that holds no cells; the signers here never ask it for one.
struct NoCells;

impl TransactionDependencyProvider for NoCells {
    fn cell_of(&self, _op: OutPointModel) -> Option<CellOutputModel> {
        panic!("a model for proofs, never run")
    }

    fn data_of(&self, _op: OutPointModel) -> Option<Seq<u8>> {
        panic!("a model for proofs, never run")
    }

    fn get_cell(&self, _op: &OutPoint) -> Result<CellOutput, TransactionDependencyError> {
        Err(TransactionDependencyError::NotFound("cell".to_string()))
    }

    fn get_cell_data(&self, _op: &OutPoint) -> Result<Vec<u8>, TransactionDependencyError> {
        Err(TransactionDependencyError::NotFound("data".to_string()))
    }
}

fn id(b: u8) -> Vec<u8> {
    vec![b; 20]
}

fn tx_with(n_inputs: u32, witnesses: Vec<Vec<u8>>) -> Transaction {
    Transaction {
        version: 0,
        cell_deps: vec![],
        header_deps: vec![],
        inputs: (0..n_inputs).map(|i| CellInput::new(OutPoint::new([7; 32], i), 0)).collect(),
        outputs: vec![],
        outputs_data: vec![],
        witnesses,
    }
}

fn group(args: Vec<u8>, indices: Vec<usize>) -> ScriptGroup {
    ScriptGroup {
        script: Script::new([6; 32], ScriptHashType::Type, args),
        input_indices: indices,
        output_indices: vec![],
    }
}

fn lock_of(witness: &[u8]) -> Vec<u8> {
    let w = packed::WitnessArgs::from_slice(witness).unwrap();
    w.lock().to_opt().unwrap().raw_data().to_vec()
}

fn witness_with_lock(lock: Vec<u8>, input_type: Option<Vec<u8>>) -> Vec<u8> {
    packed::WitnessArgs::new_builder()
        .lock(Some(packed::Bytes::from(lock.as_slice())))
        .input_type(input_type.map(|t| packed::Bytes::from(t.as_slice())))
        .build()
        .as_slice()
        .to_vec()
}

fn sighash(ids: Vec<Vec<u8>>) -> Secp256k1SighashSigner<FakeWallet> {
    Secp256k1SighashSigner::new(FakeWallet { ids })
}

#[test]
fn sighash_sign_fills_lock() {
    let signer = sighash(vec![id(1)]);
    assert!(signer.match_args(&id(1)));
    assert!(!signer.match_args(&id(2)));
    assert!(!signer.match_args(&[1u8; 21]));
    let tx = tx_with(1, vec![]);
    let signed = signer.sign_tx(&tx, &group(id(1), vec![0]), &NoCells).unwrap();
    assert_eq!(signed.witnesses.len(), 1);
    let w = packed::WitnessArgs::from_slice(&signed.witnesses[0]).unwrap();
    assert_eq!(w.lock().to_opt().unwrap().raw_data().len(), 65);
    assert!(w.input_type().to_opt().is_none());
    assert!(w.output_type().to_opt().is_none());
}

#[test]
fn sighash_sign_is_idempotent() {
    let signer = sighash(vec![id(1)]);
    let tx = tx_with(2, vec![vec![], vec![], vec![5, 5]]);
    let g = group(id(1), vec![0, 1]);
    let once = signer.sign_tx(&tx, &g, &NoCells).unwrap();
    let twice = signer.sign_tx(&once, &g, &NoCells).unwrap();
    assert_eq!(once.witnesses, twice.witnesses);
}

#[test]
fn sighash_keeps_other_fields() {
    let signer = sighash(vec![id(1)]);
    let tx = tx_with(1, vec![witness_with_lock(vec![], Some(vec![9, 9, 9]))]);
    let signed = signer.sign_tx(&tx, &group(id(1), vec![0]), &NoCells).unwrap();
    let w = packed::WitnessArgs::from_slice(&signed.witnesses[0]).unwrap();
    assert_eq!(w.input_type().to_opt().unwrap().raw_data().to_vec(), vec![9, 9, 9]);
}

#[test]
fn sighash_rejects_bad_witness() {
    let signer = sighash(vec![id(1)]);
    let tx = tx_with(1, vec![vec![1, 2, 3]]);
    assert!(matches!(signer.sign_tx(&tx, &group(id(1), vec![0]), &NoCells), Err(SignError::InvalidWitnessArgs(_))));
}

#[test]
fn sighash_unknown_key_is_wallet_error() {
    let signer = sighash(vec![id(1)]);
    let tx = tx_with(1, vec![]);
    assert!(matches!(signer.sign_tx(&tx, &group(id(2), vec![0]), &NoCells), Err(SignError::Wallet(_))));
}

#[test]
fn message_needs_witness() {
    let tx = tx_with(1, vec![]);
    assert!(matches!(generate_message(&tx, &group(id(1), vec![0]), vec![0; 65]), Err(SignError::WitnessNotEnough)));
}

#[test]
fn message_ignores_non_group_input_witness() {
    let g = group(id(1), vec![0]);
    let a = tx_with(2, vec![vec![], vec![]]);
    let b = tx_with(2, vec![vec![], vec![4, 4, 4]]);
    let ma = generate_message(&a, &g, vec![0; 65]).unwrap();
    let mb = generate_message(&b, &g, vec![0; 65]).unwrap();
    assert_eq!(ma, mb);
}

#[test]
fn message_covers_outer_witnesses() {
    let g = group(id(1), vec![0]);
    let a = tx_with(1, vec![vec![]]);
    let b = tx_with(1, vec![vec![], vec![4]]);
    let ma = generate_message(&a, &g, vec![0; 65]).unwrap();
    let mb = generate_message(&b, &g, vec![0; 65]).unwrap();
    assert_ne!(ma, mb);
}

#[test]
fn message_covers_group_witnesses() {
    let a = tx_with(2, vec![vec![], vec![]]);
    let b = tx_with(2, vec![vec![], vec![4]]);
    let g = group(id(1), vec![0, 1]);
    assert_ne!(generate_message(&a, &g, vec![0; 65]).unwrap(), generate_message(&b, &g, vec![0; 65]).unwrap());
}

#[test]
fn zeroed_lock_gives_signed_message() {
    let signer = sighash(vec![id(1)]);
    let tx = tx_with(1, vec![witness_with_lock(vec![], Some(vec![8]))]);
    let g = group(id(1), vec![0]);
    let signed = signer.sign_tx(&tx, &g, &NoCells).unwrap();
    let lock = lock_of(&signed.witnesses[0]);
    let signed_message = lock[20..52].to_vec();
    let mut check = signed.clone();
    check.witnesses[0] = witness_with_lock(vec![0; 65], Some(vec![8]));
    let recomputed = generate_message(&check, &g, vec![0; 65]).unwrap();
    assert_eq!(recomputed.to_vec(), signed_message);
}

fn config() -> MultisigConfig {
    MultisigConfig::new_with(vec![[0xa; 20], [0xb; 20], [0xc; 20]], 1, 2).unwrap()
}

#[test]
fn multisig_config_bounds() {
    let addrs = vec![[0xa; 20], [0xb; 20], [0xc; 20]];
    assert!(MultisigConfig::new_with(addrs.clone(), 0, 3).is_ok());
    assert!(MultisigConfig::new_with(addrs.clone(), 0, 2).is_ok());
    assert!(matches!(MultisigConfig::new_with(addrs.clone(), 0, 4), Err(SignError::InvalidMultisigConfig(_))));
    assert!(MultisigConfig::new_with(addrs.clone(), 2, 2).is_ok());
    assert!(matches!(MultisigConfig::new_with(addrs.clone(), 3, 2), Err(SignError::InvalidMultisigConfig(_))));
    assert!(matches!(
        MultisigConfig::new_with(vec![[0xa; 20], [0xa; 20]], 0, 1),
        Err(SignError::InvalidMultisigConfig(_))
    ));
}

#[test]
fn multisig_witness_data_layout() {
    let data = config().to_witness_data();
    assert_eq!(data.len(), 4 + 60);
    assert_eq!(&data[0..4], &[0, 1, 2, 3]);
    assert_eq!(&data[4..24], &[0xa; 20]);
    assert_eq!(&data[44..64], &[0xc; 20]);
}

fn multisig(ids: Vec<Vec<u8>>) -> Secp256k1MultisigSigner<FakeWallet> {
    Secp256k1MultisigSigner::new(FakeWallet { ids }, config())
}

#[test]
fn multisig_two_of_three() {
    let a = multisig(vec![id(0xa)]);
    let args = a.config_hash()[0..20].to_vec();
    assert!(a.match_args(&args));
    assert!(!multisig(vec![id(0x1)]).match_args(&args));
    let tx = tx_with(1, vec![]);
    let g = group(args, vec![0]);
    let after_a = a.sign_tx(&tx, &g, &NoCells).unwrap();
    let lock = lock_of(&after_a.witnesses[0]);
    let data = config().to_witness_data();
    assert_eq!(lock.len(), 64 + 130);
    assert_eq!(&lock[0..64], data.as_slice());
    assert_eq!(&lock[64..84], &[0xa; 20]);
    assert_eq!(&lock[129..194], &[0u8; 65]);
    let b = multisig(vec![id(0xb)]);
    let after_b = b.sign_tx(&after_a, &g, &NoCells).unwrap();
    let lock_b = lock_of(&after_b.witnesses[0]);
    assert_eq!(&lock_b[0..129], &lock[0..129]);
    assert_eq!(&lock_b[129..149], &[0xb; 20]);
    let again = a.sign_tx(&after_b, &g, &NoCells).unwrap();
    assert_eq!(again.witnesses, after_b.witnesses);
}

#[test]
fn multisig_too_many_signatures() {
    let all = multisig(vec![id(0xa), id(0xb), id(0xc)]);
    let args = all.config_hash()[0..20].to_vec();
    let tx = tx_with(1, vec![]);
    assert!(matches!(all.sign_tx(&tx, &group(args, vec![0]), &NoCells), Err(SignError::TooManySignatures)));
}

#[test]
fn anyone_can_pay_args() {
    let signer = AnyoneCanPaySigner::new(sighash(vec![id(3)]));
    assert!(signer.match_args(&id(3)));
    let mut longer = id(3);
    longer.extend([1, 2]);
    assert!(signer.match_args(&longer));
    longer.push(3);
    assert!(!signer.match_args(&longer));
    assert!(!signer.match_args(&[3u8; 19]));
    let tx = tx_with(1, vec![]);
    let mut args = id(3);
    args.push(9);
    let signed = signer.sign_tx(&tx, &group(args, vec![0]), &NoCells).unwrap();
    assert_eq!(&lock_of(&signed.witnesses[0])[0..20], &[3u8; 20]);
}

#[test]
fn cheque_signer_owner_id() {
    let mut args = id(0x11);
    args.extend(id(0x22));
    let claim = ChequeSigner::new(sighash(vec![id(0x11)]), ChequeAction::Claim);
    let withdraw = ChequeSigner::new(sighash(vec![id(0x11)]), ChequeAction::Withdraw);
    assert_eq!(claim.owner_id(&args), id(0x11));
    assert_eq!(withdraw.owner_id(&args), id(0x22));
    assert!(claim.match_args(&args));
    assert!(!withdraw.match_args(&args));
    assert!(claim.owner_id(&args[0..39]).is_empty());
    let tx = tx_with(1, vec![]);
    let signed = claim.sign_tx(&tx, &group(args, vec![0]), &NoCells).unwrap();
    assert_eq!(&lock_of(&signed.witnesses[0])[0..20], &[0x11u8; 20]);
}

#[test]
fn multisig_either_order_holds_both() {
    let a = multisig(vec![id(0xa)]);
    let b = multisig(vec![id(0xb)]);
    let g = group(a.config_hash()[0..20].to_vec(), vec![0]);
    let tx = tx_with(1, vec![]);
    let ab = b.sign_tx(&a.sign_tx(&tx, &g, &NoCells).unwrap(), &g, &NoCells).unwrap();
    let ba = a.sign_tx(&b.sign_tx(&tx, &g, &NoCells).unwrap(), &g, &NoCells).unwrap();
    let lock_ab = lock_of(&ab.witnesses[0]);
    let lock_ba = lock_of(&ba.witnesses[0]);
    assert_eq!(&lock_ab[64..129], &lock_ba[129..194]);
    assert_eq!(&lock_ab[129..194], &lock_ba[64..129]);
    assert_eq!(a.sign_tx(&ab, &g, &NoCells).unwrap().witnesses, ab.witnesses);
    assert_eq!(b.sign_tx(&ba, &g, &NoCells).unwrap().witnesses, ba.witnesses);
}

#[test]
fn multisig_keeps_existing_lock_of_other_shape() {
    let a = multisig(vec![id(0xa)]);
    let g = group(a.config_hash()[0..20].to_vec(), vec![0]);
    let tx = tx_with(1, vec![witness_with_lock(vec![1; 64], None)]);
    assert!(matches!(a.sign_tx(&tx, &g, &NoCells), Err(SignError::TooManySignatures)));
}

#[test]
fn sighash_pads_witnesses() {
    let signer = sighash(vec![id(1)]);
    let tx = tx_with(3, vec![]);
    let signed = signer.sign_tx(&tx, &group(id(1), vec![2]), &NoCells).unwrap();
    assert_eq!(signed.witnesses.len(), 3);
    assert!(signed.witnesses[0].is_empty());
    assert!(signed.witnesses[1].is_empty());
    assert_eq!(lock_of(&signed.witnesses[2]).len(), 65);
}
