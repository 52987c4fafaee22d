//! The message that a lock script's signature covers.

use vstd::prelude::*;
use crate::encoding::{blake2b_256, ckb_hash_of, parse_witness_args, witness_args_bytes, witness_args_bytes_of};
use crate::hash::{tx_hash, tx_hash_spec};
use crate::signer::SignError;
use crate::types::{ScriptGroup, Transaction, WitnessArgs, WitnessArgsModel};

verus! {

/// The first `n` little-endian bytes of `v`.
pub open spec fn le_bytes(v: nat, n: nat) -> Seq<u8>
    decreases n,
{
    if n == 0 {
        Seq::empty()
    } else {
        seq![(v % 256) as u8] + le_bytes(v / 256, (n - 1) as nat)
    }
}

proof fn lemma_le_bytes_len(v: nat, n: nat)
    ensures
        le_bytes(v, n).len() == n,
    decreases n,
{
    if n > 0 {
        lemma_le_bytes_len(v / 256, (n - 1) as nat);
    }
}

/// Writes a `u64` as 8 little-endian bytes.
pub fn encode_u64_le(v: u64) -> (r: Vec<u8>)
    ensures
        r@ == le_bytes(v as nat, 8),
{
    let mut out: Vec<u8> = Vec::new();
    let mut rest: u64 = v;
    let mut i: usize = 0;
    while i < 8
        invariant
            i <= 8,
            out@ + le_bytes(rest as nat, (8 - i) as nat) == le_bytes(v as nat, 8),
        decreases 8 - i,
    {
        let ghost before = out@;
        let byte: u8 = (rest % 256) as u8;
        out.push(byte);
        assert(le_bytes(rest as nat, (8 - i) as nat) == seq![byte] + le_bytes((rest / 256) as nat, (8 - i - 1) as nat));
        assert(before + (seq![byte] + le_bytes((rest / 256) as nat, (8 - i - 1) as nat))
            =~= out@ + le_bytes((rest / 256) as nat, (8 - i - 1) as nat));
        rest = rest / 256;
        i = i + 1;
    }
    assert(out@ + le_bytes(rest as nat, 0) =~= out@);
    out
}

/// A witness as the message holds it: its length as 8 little-endian bytes, then its bytes.
pub open spec fn witness_entry(w: Seq<u8>) -> Seq<u8> {
    le_bytes(w.len(), 8) + w
}

/// The entries of the witnesses, one after the other.
pub open spec fn entries(ws: Seq<Seq<u8>>) -> Seq<u8>
    decreases ws.len(),
{
    if ws.len() == 0 {
        Seq::empty()
    } else {
        entries(ws.drop_last()) + witness_entry(ws.last())
    }
}

/// The witnesses at the given positions, in order, skipping positions past the end.
pub open spec fn witnesses_at(ws: Seq<Seq<u8>>, idx: Seq<usize>) -> Seq<Seq<u8>>
    decreases idx.len(),
{
    if idx.len() == 0 {
        Seq::empty()
    } else {
        let rest = witnesses_at(ws, idx.drop_last());
        if (idx.last() as int) < ws.len() {
            rest.push(ws[idx.last() as int])
        } else {
            rest
        }
    }
}

/// The witnesses past the inputs, which no input claims.
pub open spec fn outer_witnesses(ws: Seq<Seq<u8>>, n_inputs: nat) -> Seq<Seq<u8>> {
    if n_inputs < ws.len() {
        ws.subrange(n_inputs as int, ws.len() as int)
    } else {
        Seq::empty()
    }
}

/// Whether a witness reads as a witness record: empty, or an encoding of one
/// that molecule's `u32` size header can describe.
pub open spec fn parses(raw: Seq<u8>) -> bool {
    raw.len() == 0 || (raw.len() <= u32::MAX && exists|m: WitnessArgsModel| witness_args_bytes_of(m) == raw)
}

/// The record that a witness reads as: none of the fields when empty.
pub open spec fn parsed(raw: Seq<u8>) -> WitnessArgsModel {
    if raw.len() == 0 {
        WitnessArgsModel { lock: None, input_type: None, output_type: None }
    } else {
        choose|m: WitnessArgsModel| witness_args_bytes_of(m) == raw
    }
}

/// The encoding of a witness's record with its lock field set.
pub open spec fn with_lock(raw: Seq<u8>, lock: Seq<u8>) -> Seq<u8> {
    witness_args_bytes_of(WitnessArgsModel { lock: Some(lock), ..parsed(raw) })
}

/// The bytes whose digest is signed, for a transaction hash, witnesses, input
/// count, group positions and a placeholder for the lock.
pub open spec fn message_bytes(
    hash: Seq<u8>,
    ws: Seq<Seq<u8>>,
    n_inputs: nat,
    idx: Seq<usize>,
    zero_lock: Seq<u8>,
) -> Seq<u8> {
    hash
        + witness_entry(with_lock(ws[idx[0] as int], zero_lock))
        + entries(witnesses_at(ws, idx.drop_first()))
        + entries(outer_witnesses(ws, n_inputs))
}

/// The message bytes of a transaction for a group.
pub open spec fn signing_bytes(tx: Transaction, idx: Seq<usize>, zero_lock: Seq<u8>) -> Seq<u8> {
    message_bytes(tx_hash_spec(tx.raw_model()), tx.witness_seq(), tx.inputs@.len(), idx, zero_lock)
}

/// Reads a witness as a record: empty gives the record with no fields.
pub fn read_witness(raw: &Vec<u8>) -> (r: Result<WitnessArgs, SignError>)
    ensures
        r is Ok <==> parses(raw@),
        r is Ok ==> r->Ok_0@ == parsed(raw@),
        r is Err ==> r->Err_0 is InvalidWitnessArgs,
{
    if raw.len() == 0 {
        return Ok(WitnessArgs::empty());
    }
    match parse_witness_args(raw.as_slice()) {
        Ok(w) => {
            assert(witness_args_bytes_of(w@) == raw@);
            Ok(w)
        },
        Err(e) => {
            assert(!parses(raw@));
            Err(SignError::InvalidWitnessArgs(e))
        },
    }
}

/// A witness with its lock field set to the given bytes.
pub fn set_lock(raw: &Vec<u8>, lock: Vec<u8>) -> (r: Result<Vec<u8>, SignError>)
    ensures
        r is Ok <==> parses(raw@),
        r is Ok ==> r->Ok_0@ == with_lock(raw@, lock@),
        (r is Ok && r->Ok_0@.len() <= u32::MAX) ==> parsed(r->Ok_0@) == (WitnessArgsModel { lock: Some(lock@), ..parsed(raw@) }),
        r is Err ==> r->Err_0 is InvalidWitnessArgs,
{
    let w = read_witness(raw)?;
    let w2 = WitnessArgs { lock: Some(lock), input_type: w.input_type, output_type: w.output_type };
    assert(w2@ == (WitnessArgsModel { lock: Some(lock@), ..parsed(raw@) }));
    let out = witness_args_bytes(&w2);
    assert(witness_args_bytes_of(w2@) == out@);
    Ok(out)
}

proof fn lemma_witnesses_at_update(ws: Seq<Seq<u8>>, idx: Seq<usize>, i: int, x: Seq<u8>)
    requires
        0 <= i < ws.len(),
        forall|k: int| 0 <= k < idx.len() ==> idx[k] != i,
    ensures
        witnesses_at(ws.update(i, x), idx) == witnesses_at(ws, idx),
    decreases idx.len(),
{
    if idx.len() > 0 {
        lemma_witnesses_at_update(ws, idx.drop_last(), i, x);
    }
}

/// Changing the group's first witness, inside the inputs, changes the message only
/// through the record that the first witness reads as.
pub proof fn lemma_message_first_witness(
    hash: Seq<u8>,
    ws: Seq<Seq<u8>>,
    n: nat,
    idx: Seq<usize>,
    zero_lock: Seq<u8>,
    x: Seq<u8>,
)
    requires
        idx.len() > 0,
        idx[0] < n,
        idx[0] < ws.len(),
        forall|k: int| 1 <= k < idx.len() ==> #[trigger] idx[k] != idx[0],
        with_lock(x, zero_lock) == with_lock(ws[idx[0] as int], zero_lock),
    ensures
        message_bytes(hash, ws.update(idx[0] as int, x), n, idx, zero_lock)
            == message_bytes(hash, ws, n, idx, zero_lock),
{
    let i = idx[0] as int;
    let ws2 = ws.update(i, x);
    assert forall|k: int| 0 <= k < idx.drop_first().len() implies #[trigger] idx.drop_first()[k] != i by {
        assert(idx.drop_first()[k] == idx[k + 1]);
    }
    lemma_witnesses_at_update(ws, idx.drop_first(), i, x);
    if n < ws.len() {
        assert(ws2.subrange(n as int, ws.len() as int) =~= ws.subrange(n as int, ws.len() as int));
    }
}

/// A witness inside the inputs that the group does not hold leaves the message
/// unchanged, whatever it is changed to.
pub proof fn lemma_message_ignores_other_input_witness(
    hash: Seq<u8>,
    ws: Seq<Seq<u8>>,
    n_inputs: nat,
    idx: Seq<usize>,
    zero_lock: Seq<u8>,
    j: int,
    x: Seq<u8>,
)
    requires
        idx.len() > 0,
        idx[0] < ws.len(),
        0 <= j < ws.len(),
        j < n_inputs,
        forall|k: int| 0 <= k < idx.len() ==> #[trigger] idx[k] != j,
    ensures
        message_bytes(hash, ws.update(j, x), n_inputs, idx, zero_lock)
            == message_bytes(hash, ws, n_inputs, idx, zero_lock),
{
    let ws2 = ws.update(j, x);
    assert(idx[0] != j);
    assert forall|k: int| 0 <= k < idx.drop_first().len() implies #[trigger] idx.drop_first()[k] != j by {
        assert(idx.drop_first()[k] == idx[k + 1]);
    }
    lemma_witnesses_at_update(ws, idx.drop_first(), j, x);
    if n_inputs < ws.len() {
        assert(ws2.subrange(n_inputs as int, ws.len() as int) =~= ws.subrange(n_inputs as int, ws.len() as int));
    }
}

proof fn lemma_witnesses_at_push(ws: Seq<Seq<u8>>, idx: Seq<usize>, x: Seq<u8>)
    requires
        forall|k: int| 0 <= k < idx.len() ==> (#[trigger] idx[k] as int) < ws.len(),
    ensures
        witnesses_at(ws.push(x), idx) == witnesses_at(ws, idx),
    decreases idx.len(),
{
    if idx.len() > 0 {
        lemma_witnesses_at_push(ws, idx.drop_last(), x);
        assert(idx.last() == idx[idx.len() - 1]);
    }
}

/// A witness added past both the inputs and the group's positions is covered
/// by the message: its entry is appended at the end.
pub proof fn lemma_message_covers_outer_witness(
    hash: Seq<u8>,
    ws: Seq<Seq<u8>>,
    n_inputs: nat,
    idx: Seq<usize>,
    zero_lock: Seq<u8>,
    x: Seq<u8>,
)
    requires
        idx.len() > 0,
        n_inputs <= ws.len(),
        forall|k: int| 0 <= k < idx.len() ==> (#[trigger] idx[k] as int) < ws.len(),
    ensures
        message_bytes(hash, ws.push(x), n_inputs, idx, zero_lock)
            == message_bytes(hash, ws, n_inputs, idx, zero_lock) + witness_entry(x),
{
    let ws2 = ws.push(x);
    assert(idx[0] < ws.len());
    assert(ws2[idx[0] as int] == ws[idx[0] as int]);
    assert forall|k: int| 0 <= k < idx.drop_first().len() implies (#[trigger] idx.drop_first()[k] as int) < ws.len() by {
        assert(idx.drop_first()[k] == idx[k + 1]);
    }
    lemma_witnesses_at_push(ws, idx.drop_first(), x);
    let outer = outer_witnesses(ws, n_inputs);
    let outer2 = outer_witnesses(ws2, n_inputs);
    if n_inputs < ws.len() {
        assert(outer2 =~= outer.push(x));
    } else {
        assert(outer =~= Seq::<Seq<u8>>::empty());
        assert(outer2 =~= seq![x]);
        assert(outer2.drop_last() =~= outer);
    }
    assert(outer2.drop_last() =~= outer);
    assert(entries(outer2) == entries(outer) + witness_entry(x));
    let a = hash + witness_entry(with_lock(ws[idx[0] as int], zero_lock));
    let b = entries(witnesses_at(ws, idx.drop_first()));
    assert(a + b + (entries(outer) + witness_entry(x)) =~= a + b + entries(outer) + witness_entry(x));
}

/// Appends a witness's entry to the message.
fn push_entry(msg: &mut Vec<u8>, w: &Vec<u8>)
    ensures
        final(msg)@ == old(msg)@ + witness_entry(w@),
{
    let len = encode_u64_le(w.len() as u64);
    proof {
        lemma_le_bytes_len(w.len() as nat, 8);
    }
    let mut k: usize = 0;
    while k < 8
        invariant
            k <= 8,
            len@.len() == 8,
            msg@ == old(msg)@ + len@.subrange(0, k as int),
        decreases 8 - k,
    {
        msg.push(len[k]);
        assert(len@.subrange(0, k + 1) =~= len@.subrange(0, k as int).push(len@[k as int]));
        k = k + 1;
    }
    let ghost mid = msg@;
    let mut k: usize = 0;
    while k < w.len()
        invariant
            k <= w@.len(),
            msg@ == mid + w@.subrange(0, k as int),
        decreases w@.len() - k,
    {
        msg.push(w[k]);
        assert(w@.subrange(0, k + 1) =~= w@.subrange(0, k as int).push(w@[k as int]));
        k = k + 1;
    }
    assert(len@.subrange(0, 8) =~= len@);
    assert(w@.subrange(0, w@.len() as int) =~= w@);
    proof {
        lemma_len_fits(w@.len());
    }
    assert(old(msg)@ + len@ + w@ =~= old(msg)@ + witness_entry(w@));
}

proof fn lemma_len_fits(n: nat)
    requires
        n <= usize::MAX,
    ensures
        n as u64 as nat == n,
{
}

/// Computes the digest that the group's signature covers: the transaction hash,
/// then the group's first witness with its lock set to `zero_lock`, the group's
/// other witnesses, and the witnesses past the inputs, each with its length.
pub fn generate_message(tx: &Transaction, script_group: &ScriptGroup, zero_lock: Vec<u8>) -> (r: Result<[u8; 32], SignError>)
    requires
        script_group.input_indices@.len() > 0,
    ensures
        tx.witnesses@.len() <= script_group.input_indices@[0] ==> (r matches Err(e) && e is WitnessNotEnough),
        tx.witnesses@.len() > script_group.input_indices@[0] ==> {
            let raw = tx.witnesses@[script_group.input_indices@[0] as int]@;
            &&& (r is Ok <==> parses(raw))
            &&& (r is Ok ==> r->Ok_0@ == ckb_hash_of(signing_bytes(*tx, script_group.input_indices@, zero_lock@)))
            &&& (r is Err ==> r->Err_0 is InvalidWitnessArgs)
        },
{
    let idx = &script_group.input_indices;
    let i = idx[0];
    if tx.witnesses.len() <= i {
        return Err(SignError::WitnessNotEnough);
    }
    let ghost ws = tx.witness_seq();
    let init = set_lock(&tx.witnesses[i], zero_lock)?;
    let hash = tx_hash(tx);
    let mut msg: Vec<u8> = Vec::new();
    let mut k: usize = 0;
    while k < 32
        invariant
            k <= 32,
            hash@.len() == 32,
            msg@ == hash@.subrange(0, k as int),
        decreases 32 - k,
    {
        msg.push(hash[k]);
        assert(hash@.subrange(0, k + 1) =~= hash@.subrange(0, k as int).push(hash@[k as int]));
        k = k + 1;
    }
    assert(hash@.subrange(0, 32) =~= hash@);
    push_entry(&mut msg, &init);
    let ghost head = msg@;
    let ghost rest = idx@.drop_first();
    let mut k: usize = 1;
    while k < idx.len()
        invariant
            1 <= k <= idx@.len(),
            rest == idx@.drop_first(),
            ws == tx.witness_seq(),
            ws.len() == tx.witnesses@.len(),
            msg@ == head + entries(witnesses_at(ws, rest.subrange(0, k - 1))),
        decreases idx@.len() - k,
    {
        let j = idx[k];
        assert(rest.subrange(0, k as int).drop_last() =~= rest.subrange(0, k - 1));
        assert(rest.subrange(0, k as int).last() == j);
        if j < tx.witnesses.len() {
            push_entry(&mut msg, &tx.witnesses[j]);
            let ghost prev = witnesses_at(ws, rest.subrange(0, k - 1));
            assert(prev.push(ws[j as int]).drop_last() =~= prev);
            assert(msg@ =~= head + entries(witnesses_at(ws, rest.subrange(0, k as int))));
        }
        k = k + 1;
    }
    assert(rest.subrange(0, rest.len() as int) =~= rest);
    let ghost mid = msg@;
    let n = tx.inputs.len();
    if n < tx.witnesses.len() {
        let mut k: usize = n;
        while k < tx.witnesses.len()
            invariant
                n <= k <= tx.witnesses@.len(),
                ws == tx.witness_seq(),
                ws.len() == tx.witnesses@.len(),
                msg@ == mid + entries(ws.subrange(n as int, k as int)),
            decreases tx.witnesses@.len() - k,
        {
            push_entry(&mut msg, &tx.witnesses[k]);
            assert(ws.subrange(n as int, k + 1).drop_last() =~= ws.subrange(n as int, k as int));
            k = k + 1;
        }
    } else {
        assert(entries(outer_witnesses(ws, n as nat)) =~= Seq::<u8>::empty());
    }
    assert(msg@ =~= signing_bytes(*tx, idx@, zero_lock@));
    Ok(blake2b_256(msg.as_slice()))
}

} // verus!
