//! Signers that put signatures into a transaction's witnesses.

use vstd::prelude::*;
use ckb_types::error::VerificationError;
use crate::encoding::{ckb_hash_of, witness_args_bytes_of};
use crate::hash::tx_hash_spec;
use crate::message::{generate_message, message_bytes, parsed, parses, set_lock, with_lock, lemma_message_first_witness};
use crate::traits::{TransactionDependencyError, TransactionDependencyProvider, Wallet, WalletError};
use crate::types::{clone_cell_output, sub_bytes, CellOutput, ScriptGroup, Transaction, WitnessArgsModel};

verus! {

/// Why a signer could not sign.
#[derive(Debug)]
pub enum SignError {
    Wallet(WalletError),
    TxDep(TransactionDependencyError),
    WitnessNotEnough,
    InvalidWitnessArgs(VerificationError),
    InvalidMultisigConfig(String),
    TooManySignatures,
    Other(String),
}

/// What every signer offers: a quick test of a script's args, and signing.
pub trait ScriptSigner {
    fn match_args(&self, args: &[u8]) -> bool;

    /// The transaction with this signer's signature in the lock field of the
    /// witness at the group's first input.
    fn sign_tx<P: TransactionDependencyProvider>(
        &self,
        tx: &Transaction,
        script_group: &ScriptGroup,
        tx_dep_provider: &P,
    ) -> (r: Result<Transaction, SignError>)
        requires
            script_group.input_indices@.len() > 0,
            script_group.input_indices@[0] < usize::MAX,
    ;
}

/// `n` zero bytes.
pub open spec fn zeros(n: nat) -> Seq<u8> {
    Seq::new(n, |_k: int| 0u8)
}

/// The witnesses, with empty ones added so that position `i` exists.
pub open spec fn padded(ws: Seq<Seq<u8>>, i: nat) -> Seq<Seq<u8>> {
    if i < ws.len() {
        ws
    } else {
        ws + Seq::new((i + 1 - ws.len()) as nat, |_k: int| Seq::<u8>::empty())
    }
}

/// The witness at the group's first position, once padded, reads as a witness record.
pub open spec fn first_witness_parses(tx: &Transaction, g: &ScriptGroup) -> bool {
    let i = g.input_indices@[0] as int;
    parses(padded(tx.witness_seq(), i as nat)[i])
}

/// The group's first position is an input, and the group holds it once.
pub open spec fn group_ok(idx: Seq<usize>, n_inputs: nat) -> bool {
    &&& idx.len() > 0
    &&& idx[0] < n_inputs
    &&& forall|k: int| 1 <= k < idx.len() ==> #[trigger] idx[k] != idx[0]
}

pub fn zero_bytes(n: usize) -> (r: Vec<u8>)
    ensures
        r@ == zeros(n as nat),
{
    let mut out: Vec<u8> = Vec::new();
    let mut k: usize = 0;
    while k < n
        invariant
            k <= n,
            out@ == zeros(k as nat),
        decreases n - k,
    {
        out.push(0u8);
        assert(out@ =~= zeros((k + 1) as nat));
        k = k + 1;
    }
    out
}

/// A copy of the witnesses, padded so that position `i` exists.
pub(crate) fn padded_witnesses(tx: &Transaction, i: usize) -> (r: Vec<Vec<u8>>)
    requires
        i < usize::MAX,
    ensures
        r@.map_values(|w: Vec<u8>| w@) == padded(tx.witness_seq(), i as nat),
{
    let ghost ws = tx.witness_seq();
    let mut out: Vec<Vec<u8>> = Vec::new();
    let mut k: usize = 0;
    while k < tx.witnesses.len()
        invariant
            k <= tx.witnesses@.len(),
            ws == tx.witness_seq(),
            out@.len() == k,
            forall|j: int| 0 <= j < k ==> #[trigger] out@[j]@ == ws[j],
        decreases tx.witnesses@.len() - k,
    {
        out.push(tx.witnesses[k].clone());
        k = k + 1;
    }
    while out.len() <= i
        invariant
            i < usize::MAX,
            ws == tx.witness_seq(),
            out@.len() >= ws.len(),
            out@.len() <= i + 1 || out@.len() == ws.len(),
            forall|j: int| 0 <= j < ws.len() ==> #[trigger] out@[j]@ == ws[j],
            forall|j: int| ws.len() <= j < out@.len() ==> #[trigger] out@[j]@ == Seq::<u8>::empty(),
        decreases i + 1 - out@.len(),
    {
        out.push(Vec::new());
    }
    assert(out@.map_values(|w: Vec<u8>| w@) =~= padded(ws, i as nat));
    out
}

/// The transaction with other witnesses; everything its hash covers is kept.
pub(crate) fn with_witnesses(tx: &Transaction, witnesses: Vec<Vec<u8>>) -> (r: Transaction)
    ensures
        r.raw_model() == tx.raw_model(),
        r.witnesses == witnesses,
{
    let mut outputs: Vec<CellOutput> = Vec::new();
    let mut k: usize = 0;
    while k < tx.outputs.len()
        invariant
            k <= tx.outputs@.len(),
            outputs@.len() == k,
            forall|j: int| 0 <= j < k ==> (#[trigger] outputs@[j])@ == tx.outputs@[j]@,
        decreases tx.outputs@.len() - k,
    {
        outputs.push(clone_cell_output(&tx.outputs[k]));
        k = k + 1;
    }
    let mut outputs_data: Vec<Vec<u8>> = Vec::new();
    let mut k: usize = 0;
    while k < tx.outputs_data.len()
        invariant
            k <= tx.outputs_data@.len(),
            outputs_data@.len() == k,
            forall|j: int| 0 <= j < k ==> (#[trigger] outputs_data@[j])@ == tx.outputs_data@[j]@,
        decreases tx.outputs_data@.len() - k,
    {
        outputs_data.push(tx.outputs_data[k].clone());
        k = k + 1;
    }
    let r = Transaction {
        version: tx.version,
        cell_deps: tx.cell_deps.clone(),
        header_deps: tx.header_deps.clone(),
        inputs: tx.inputs.clone(),
        outputs,
        outputs_data,
        witnesses,
    };
    assert(r.raw_model().outputs =~= tx.raw_model().outputs);
    assert(r.raw_model().outputs_data =~= tx.raw_model().outputs_data);
    assert(r.raw_model().cell_deps =~= tx.raw_model().cell_deps);
    assert(r.raw_model().header_deps =~= tx.raw_model().header_deps);
    assert(r.raw_model().inputs =~= tx.raw_model().inputs);
    r
}

/// The witnesses after signing with a single key for `owner`: the wallet's
/// signature over the digest taken with a 65-byte zero lock, set as the lock
/// of the group's first witness.
pub open spec fn sighash_witnesses<W: Wallet>(
    w: &W,
    owner: Seq<u8>,
    hash: Seq<u8>,
    ws: Seq<Seq<u8>>,
    n_inputs: nat,
    idx: Seq<usize>,
) -> Seq<Seq<u8>> {
    let pw = padded(ws, idx[0] as nat);
    let sig = w.signature_of(owner, ckb_hash_of(message_bytes(hash, pw, n_inputs, idx, zeros(65))));
    pw.update(idx[0] as int, with_lock(pw[idx[0] as int], sig))
}

/// Signer for the single-key secp256k1 lock.
pub struct Secp256k1SighashSigner<W: Wallet> {
    pub wallet: W,
}

impl<W: Wallet> Secp256k1SighashSigner<W> {
    pub fn new(wallet: W) -> (r: Secp256k1SighashSigner<W>)
        ensures
            r.wallet == wallet,
    {
        Secp256k1SighashSigner { wallet }
    }

    pub fn wallet(&self) -> (r: &W)
        ensures
            *r == self.wallet,
    {
        &self.wallet
    }

    /// Signs the group's first witness with the key of `owner_id`.
    pub fn sign_tx_with_owner_id<P: TransactionDependencyProvider>(
        &self,
        owner_id: &[u8],
        tx: &Transaction,
        script_group: &ScriptGroup,
        tx_dep_provider: &P,
    ) -> (r: Result<Transaction, SignError>)
        requires
            script_group.input_indices@.len() > 0,
            script_group.input_indices@[0] < usize::MAX,
        ensures
            ({
                let idx = script_group.input_indices@;
                let i = idx[0] as int;
                let hash = tx_hash_spec(tx.raw_model());
                let ws = tx.witness_seq();
                let n = tx.inputs@.len();
                let pw = padded(ws, i as nat);
                &&& !parses(pw[i]) ==> (r matches Err(e) && e is InvalidWitnessArgs)
                &&& parses(pw[i]) ==> (r is Ok || r->Err_0 is Wallet)
                &&& r is Ok ==> r->Ok_0.raw_model() == tx.raw_model()
                &&& r is Ok ==> r->Ok_0.witness_seq() == sighash_witnesses(&self.wallet, owner_id@, hash, ws, n, idx)
                &&& (r is Ok && r->Ok_0.witness_seq()[i].len() <= u32::MAX) ==> parses(r->Ok_0.witness_seq()[i])
                &&& (r is Ok && group_ok(idx, n) && r->Ok_0.witness_seq()[i].len() <= u32::MAX)
                    ==> message_bytes(hash, r->Ok_0.witness_seq(), n, idx, zeros(65))
                    == message_bytes(hash, pw, n, idx, zeros(65))
                &&& (r is Ok && group_ok(idx, n) && r->Ok_0.witness_seq()[i].len() <= u32::MAX)
                    ==> sighash_witnesses(&self.wallet, owner_id@, hash, r->Ok_0.witness_seq(), n, idx)
                    == r->Ok_0.witness_seq()
            }),
    {
        let i = script_group.input_indices[0];
        let ghost idx = script_group.input_indices@;
        let ghost hash = tx_hash_spec(tx.raw_model());
        let ghost n = tx.inputs@.len();
        let ws = padded_witnesses(tx, i);
        let ghost pw = padded(tx.witness_seq(), i as nat);
        let tx_new = with_witnesses(tx, ws);
        assert(tx_new.witness_seq() == pw);
        let message = generate_message(&tx_new, script_group, zero_bytes(65))?;
        let sig = match self.wallet.sign(owner_id, message.as_slice(), tx, tx_dep_provider) {
            Ok(s) => s,
            Err(e) => return Err(SignError::Wallet(e)),
        };
        let ghost sig_v = sig@;
        let mut witnesses = tx_new.witnesses;
        let signed = set_lock(&witnesses[i], sig)?;
        witnesses.set(i, signed);
        let ghost t1 = witnesses@.map_values(|w: Vec<u8>| w@);
        assert(t1 =~= pw.update(i as int, with_lock(pw[i as int], sig_v)));
        proof {
            let m0 = parsed(pw[i as int]);
            assert(witness_args_bytes_of(WitnessArgsModel { lock: Some(sig_v), ..m0 }) == t1[i as int]);
            if group_ok(idx, n) && t1[i as int].len() <= u32::MAX {
                assert(parsed(t1[i as int]) == (WitnessArgsModel { lock: Some(sig_v), ..m0 }));
                assert(with_lock(t1[i as int], zeros(65)) == with_lock(pw[i as int], zeros(65)));
                lemma_message_first_witness(hash, pw, n, idx, zeros(65), t1[i as int]);
                assert(padded(t1, i as nat) == t1);
                assert(with_lock(t1[i as int], sig_v) == t1[i as int]);
                assert(t1.update(i as int, t1[i as int]) =~= t1);
            }
        }
        Ok(with_witnesses(tx, witnesses))
    }
}

impl<W: Wallet> ScriptSigner for Secp256k1SighashSigner<W> {
    /// Args of 20 bytes that the wallet knows.
    fn match_args(&self, args: &[u8]) -> (r: bool)
        ensures
            r == (args@.len() == 20 && self.wallet.knows(args@)),
    {
        args.len() == 20 && self.wallet.match_id(args)
    }

    /// Signs with the key whose id is the script's args.
    fn sign_tx<P: TransactionDependencyProvider>(
        &self,
        tx: &Transaction,
        script_group: &ScriptGroup,
        tx_dep_provider: &P,
    ) -> (r: Result<Transaction, SignError>)
        ensures
            first_witness_parses(tx, script_group) ==> (r is Ok || r->Err_0 is Wallet),
            !first_witness_parses(tx, script_group) ==> (r matches Err(e) && e is InvalidWitnessArgs),
            r is Ok ==> r->Ok_0.raw_model() == tx.raw_model(),
            r is Ok ==> r->Ok_0.witness_seq() == sighash_witnesses(
                &self.wallet,
                script_group.script.args@,
                tx_hash_spec(tx.raw_model()),
                tx.witness_seq(),
                tx.inputs@.len(),
                script_group.input_indices@,
            ),
    {
        self.sign_tx_with_owner_id(script_group.script.args.as_slice(), tx, script_group, tx_dep_provider)
    }
}

/// Signer for the anyone-can-pay lock: a single-key signature by the key whose
/// id is the first 20 bytes of args.
pub struct AnyoneCanPaySigner<W: Wallet> {
    pub sighash_signer: Secp256k1SighashSigner<W>,
}

impl<W: Wallet> AnyoneCanPaySigner<W> {
    pub fn new(sighash_signer: Secp256k1SighashSigner<W>) -> (r: AnyoneCanPaySigner<W>)
        ensures
            r.sighash_signer == sighash_signer,
    {
        AnyoneCanPaySigner { sighash_signer }
    }
}

impl<W: Wallet> ScriptSigner for AnyoneCanPaySigner<W> {
    /// Args of 20 to 22 bytes whose first 20 the wallet knows; the rest set
    /// minimum transfer amounts and are not looked at here.
    fn match_args(&self, args: &[u8]) -> (r: bool)
        ensures
            r == (20 <= args@.len() <= 22 && self.sighash_signer.wallet.knows(args@.subrange(0, 20))),
    {
        if args.len() < 20 || args.len() > 22 {
            return false;
        }
        let id = sub_bytes(args, 0, 20);
        self.sighash_signer.wallet().match_id(id.as_slice())
    }

    /// Signs with the key whose id is the first 20 bytes of the script's args.
    fn sign_tx<P: TransactionDependencyProvider>(
        &self,
        tx: &Transaction,
        script_group: &ScriptGroup,
        tx_dep_provider: &P,
    ) -> (r: Result<Transaction, SignError>)
        ensures
            script_group.script.args@.len() < 20 ==> (r matches Err(e) && e is Other),
            (script_group.script.args@.len() >= 20 && first_witness_parses(tx, script_group))
                ==> (r is Ok || r->Err_0 is Wallet),
            (script_group.script.args@.len() >= 20 && !first_witness_parses(tx, script_group))
                ==> (r matches Err(e) && e is InvalidWitnessArgs),
            r is Ok ==> r->Ok_0.raw_model() == tx.raw_model(),
            r is Ok ==> r->Ok_0.witness_seq() == sighash_witnesses(
                &self.sighash_signer.wallet,
                script_group.script.args@.subrange(0, 20),
                tx_hash_spec(tx.raw_model()),
                tx.witness_seq(),
                tx.inputs@.len(),
                script_group.input_indices@,
            ),
    {
        let args = &script_group.script.args;
        if args.len() < 20 {
            return Err(SignError::Other("anyone-can-pay args shorter than 20 bytes".to_owned()));
        }
        let id = sub_bytes(args.as_slice(), 0, 20);
        self.sighash_signer.sign_tx_with_owner_id(id.as_slice(), tx, script_group, tx_dep_provider)
    }
}

/// Which party a cheque signer signs for.
#[derive(Clone, Copy, Debug, PartialEq, Eq, Structural)]
pub enum ChequeAction {
    Claim,
    Withdraw,
}

/// The id that signs a cheque: the receiver half of the args for a claim, the
/// sender half for a withdraw; empty when the args are not 40 bytes.
pub open spec fn cheque_owner(action: ChequeAction, args: Seq<u8>) -> Seq<u8> {
    if args.len() != 40 {
        Seq::empty()
    } else if action == ChequeAction::Claim {
        args.subrange(0, 20)
    } else {
        args.subrange(20, 40)
    }
}

/// Signer for the cheque lock, for one of its two parties.
pub struct ChequeSigner<W: Wallet> {
    pub sighash_signer: Secp256k1SighashSigner<W>,
    pub action: ChequeAction,
}

impl<W: Wallet> ChequeSigner<W> {
    pub fn new(sighash_signer: Secp256k1SighashSigner<W>, action: ChequeAction) -> (r: ChequeSigner<W>)
        ensures
            r.sighash_signer == sighash_signer,
            r.action == action,
    {
        ChequeSigner { sighash_signer, action }
    }

    /// The id that signs for this signer's party.
    pub fn owner_id(&self, args: &[u8]) -> (r: Vec<u8>)
        ensures
            r@ == cheque_owner(self.action, args@),
    {
        if args.len() != 40 {
            Vec::new()
        } else if self.action == ChequeAction::Claim {
            sub_bytes(args, 0, 20)
        } else {
            sub_bytes(args, 20, 40)
        }
    }
}

impl<W: Wallet> ScriptSigner for ChequeSigner<W> {
    /// Args of 40 bytes whose half for this signer's party the wallet knows.
    fn match_args(&self, args: &[u8]) -> (r: bool)
        ensures
            r == (args@.len() == 40 && self.sighash_signer.wallet.knows(cheque_owner(self.action, args@))),
    {
        if args.len() != 40 {
            return false;
        }
        let id = self.owner_id(args);
        self.sighash_signer.wallet().match_id(id.as_slice())
    }

    /// Signs with the key of this signer's party.
    fn sign_tx<P: TransactionDependencyProvider>(
        &self,
        tx: &Transaction,
        script_group: &ScriptGroup,
        tx_dep_provider: &P,
    ) -> (r: Result<Transaction, SignError>)
        ensures
            first_witness_parses(tx, script_group) ==> (r is Ok || r->Err_0 is Wallet),
            !first_witness_parses(tx, script_group) ==> (r matches Err(e) && e is InvalidWitnessArgs),
            r is Ok ==> r->Ok_0.raw_model() == tx.raw_model(),
            r is Ok ==> r->Ok_0.witness_seq() == sighash_witnesses(
                &self.sighash_signer.wallet,
                cheque_owner(self.action, script_group.script.args@),
                tx_hash_spec(tx.raw_model()),
                tx.witness_seq(),
                tx.inputs@.len(),
                script_group.input_indices@,
            ),
    {
        let id = self.owner_id(script_group.script.args.as_slice());
        self.sighash_signer.sign_tx_with_owner_id(id.as_slice(), tx, script_group, tx_dep_provider)
    }
}

} // verus!
