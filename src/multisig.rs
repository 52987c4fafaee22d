//! N-of-M multisig: its configuration, and the signer that fills signature slots.

use vstd::prelude::*;
use vstd::multiset::Multiset;
use crate::encoding::{blake2b_256, ckb_hash_of, witness_args_bytes_of};
use crate::hash::tx_hash_spec;
use crate::message::{generate_message, lemma_message_first_witness, message_bytes, parsed, parses, read_witness, set_lock, with_lock};
use crate::signer::{group_ok, padded, padded_witnesses, with_witnesses, zero_bytes, zeros, ScriptSigner, SignError};
use crate::traits::{TransactionDependencyProvider, Wallet};
use crate::types::{bytes_eq, ScriptGroup, Transaction, WitnessArgsModel};

verus! {

/// The 20-byte ids of a multisig lock's keys, and its two counts.
pub struct MultisigConfig {
    sighash_addresses: Vec<[u8; 20]>,
    require_first_n: u8,
    threshold: u8,
}

/// No address stands twice.
pub open spec fn addresses_distinct(a: Seq<[u8; 20]>) -> bool {
    forall|i: int, j: int| 0 <= i < a.len() && 0 <= j < a.len() && i != j ==> a[i]@ != a[j]@
}

/// The addresses one after the other.
pub open spec fn concat_addresses(a: Seq<[u8; 20]>) -> Seq<u8>
    decreases a.len(),
{
    if a.len() == 0 {
        Seq::empty()
    } else {
        concat_addresses(a.drop_last()) + a.last()@
    }
}

impl MultisigConfig {
    /// The addresses, in order.
    pub closed spec fn addresses(&self) -> Seq<[u8; 20]> {
        self.sighash_addresses@
    }

    /// How many of the first addresses must sign.
    pub closed spec fn require_first_n_spec(&self) -> u8 {
        self.require_first_n
    }

    /// How many signatures the lock needs.
    pub closed spec fn threshold_spec(&self) -> u8 {
        self.threshold
    }

    /// Addresses distinct, and `require_first_n <= threshold <= number of addresses`.
    pub open spec fn wf(&self) -> bool {
        &&& addresses_distinct(self.addresses())
        &&& self.threshold_spec() as int <= self.addresses().len()
        &&& self.require_first_n_spec() <= self.threshold_spec()
    }

    /// The header `[0, require_first_n, threshold, n]`, then the addresses.
    pub open spec fn witness_data(&self) -> Seq<u8> {
        seq![0u8, self.require_first_n_spec(), self.threshold_spec(), (self.addresses().len() % 256) as u8]
            + concat_addresses(self.addresses())
    }

    /// A checked configuration.
    pub fn new_with(sighash_addresses: Vec<[u8; 20]>, require_first_n: u8, threshold: u8) -> (r: Result<MultisigConfig, SignError>)
        ensures
            r is Ok <==> (addresses_distinct(sighash_addresses@) && threshold as int <= sighash_addresses@.len()
                && require_first_n <= threshold),
            r is Ok ==> (r->Ok_0.addresses() == sighash_addresses@ && r->Ok_0.require_first_n_spec() == require_first_n
                && r->Ok_0.threshold_spec() == threshold),
            r is Ok ==> r->Ok_0.wf(),
            r is Err ==> r->Err_0 is InvalidMultisigConfig,
    {
        let n = sighash_addresses.len();
        let mut i: usize = 0;
        while i < n
            invariant
                n == sighash_addresses@.len(),
                i <= n,
                forall|a: int, b: int| 0 <= a < i && 0 <= b < n && a != b ==> sighash_addresses@[a]@ != sighash_addresses@[b]@,
            decreases n - i,
        {
            let mut j: usize = i + 1;
            while j < n
                invariant
                    n == sighash_addresses@.len(),
                    i < n,
                    i + 1 <= j <= n,
                    forall|a: int, b: int| 0 <= a < i && 0 <= b < n && a != b ==> sighash_addresses@[a]@ != sighash_addresses@[b]@,
                    forall|b: int| i < b < j ==> sighash_addresses@[i as int]@ != sighash_addresses@[b]@,
                decreases n - j,
            {
                if bytes_eq(sighash_addresses[i].as_slice(), sighash_addresses[j].as_slice()) {
                    return Err(SignError::InvalidMultisigConfig("duplicated address".to_owned()));
                }
                j = j + 1;
            }
            i = i + 1;
        }
        if threshold as usize > n {
            return Err(SignError::InvalidMultisigConfig("invalid threshold: more than the addresses".to_owned()));
        }
        if require_first_n > threshold {
            return Err(SignError::InvalidMultisigConfig("invalid require-first-n: more than the threshold".to_owned()));
        }
        Ok(MultisigConfig { sighash_addresses, require_first_n, threshold })
    }

    /// The config as the lock's witness holds it.
    pub fn to_witness_data(&self) -> (r: Vec<u8>)
        ensures
            r@ == self.witness_data(),
    {
        let n = self.sighash_addresses.len();
        let mut out: Vec<u8> = vec![0u8, self.require_first_n, self.threshold, (n % 256) as u8];
        let ghost head = out@;
        let mut i: usize = 0;
        while i < n
            invariant
                n == self.addresses().len(),
                i <= n,
                out@ == head + concat_addresses(self.addresses().subrange(0, i as int)),
            decreases n - i,
        {
            let a = self.sighash_addresses[i];
            let ghost before = out@;
            let mut k: usize = 0;
            while k < 20
                invariant
                    k <= 20,
                    out@ == before + a@.subrange(0, k as int),
                decreases 20 - k,
            {
                out.push(a[k]);
                assert(a@.subrange(0, k + 1) =~= a@.subrange(0, k as int).push(a@[k as int]));
                k = k + 1;
            }
            assert(a@.subrange(0, 20) =~= a@);
            assert(self.addresses().subrange(0, i + 1).drop_last() =~= self.addresses().subrange(0, i as int));
            i = i + 1;
        }
        assert(self.addresses().subrange(0, n as int) =~= self.addresses());
        assert(out@ =~= self.witness_data());
        out
    }
}

/// The 65-byte slot of a lock field that starts at `idx`.
pub open spec fn slot(l: Seq<u8>, idx: nat) -> Seq<u8> {
    l.subrange(idx as int, idx as int + 65)
}

/// Places a signature in the first slot from `idx` on that holds it already
/// (nothing changes) or is all zeros (it is written there); `None` when no slot is left.
pub open spec fn place_from(l: Seq<u8>, idx: nat, sig: Seq<u8>) -> Option<Seq<u8>>
    decreases l.len() - idx,
{
    if idx + 65 > l.len() {
        None
    } else if slot(l, idx) == sig {
        Some(l)
    } else if slot(l, idx) == zeros(65) {
        Some(l.subrange(0, idx as int) + sig + l.subrange(idx as int + 65, l.len() as int))
    } else {
        place_from(l, idx + 65, sig)
    }
}

/// Places the signatures one after the other.
pub open spec fn place_all(l: Seq<u8>, start: nat, sigs: Seq<Seq<u8>>) -> Option<Seq<u8>>
    decreases sigs.len(),
{
    if sigs.len() == 0 {
        Some(l)
    } else {
        match place_all(l, start, sigs.drop_last()) {
            Some(l2) => place_from(l2, start, sigs.last()),
            None => None,
        }
    }
}

/// The wallet's signatures over a message for the addresses it knows, in config order.
pub open spec fn wallet_signatures<W: Wallet>(w: &W, addrs: Seq<[u8; 20]>, msg: Seq<u8>) -> Seq<Seq<u8>>
    decreases addrs.len(),
{
    if addrs.len() == 0 {
        Seq::empty()
    } else {
        let rest = wallet_signatures(w, addrs.drop_last(), msg);
        if w.knows(addrs.last()@) {
            rest.push(w.signature_of(addrs.last()@, msg))
        } else {
            rest
        }
    }
}

fn slot_equals(l: &Vec<u8>, idx: usize, sig: &Vec<u8>) -> (r: bool)
    requires
        idx + 65 <= l@.len(),
        sig@.len() == 65,
    ensures
        r == (slot(l@, idx as nat) == sig@),
{
    let len = l.len();
    let mut k: usize = 0;
    while k < 65
        invariant
            k <= 65,
            len == l@.len(),
            idx + 65 <= l@.len(),
            sig@.len() == 65,
            forall|j: int| 0 <= j < k ==> #[trigger] l@[idx + j] == sig@[j],
        decreases 65 - k,
    {
        if l[idx + k] != sig[k] {
            assert(slot(l@, idx as nat)[k as int] != sig@[k as int]);
            return false;
        }
        k = k + 1;
    }
    assert forall|j: int| 0 <= j < 65 implies slot(l@, idx as nat)[j] == sig@[j] by {
        assert(l@[idx + j] == sig@[j]);
    }
    assert(slot(l@, idx as nat) =~= sig@);
    true
}

fn slot_is_zero(l: &Vec<u8>, idx: usize) -> (r: bool)
    requires
        idx + 65 <= l@.len(),
    ensures
        r == (slot(l@, idx as nat) == zeros(65)),
{
    let len = l.len();
    let mut k: usize = 0;
    while k < 65
        invariant
            k <= 65,
            len == l@.len(),
            idx + 65 <= l@.len(),
            forall|j: int| 0 <= j < k ==> #[trigger] l@[idx + j] == 0u8,
        decreases 65 - k,
    {
        if l[idx + k] != 0u8 {
            assert(slot(l@, idx as nat)[k as int] != zeros(65)[k as int]);
            return false;
        }
        k = k + 1;
    }
    assert forall|j: int| 0 <= j < 65 implies slot(l@, idx as nat)[j] == zeros(65)[j] by {
        assert(l@[idx + j] == 0u8);
    }
    assert(slot(l@, idx as nat) =~= zeros(65));
    true
}

/// Places one signature in the lock field, as `place_from` says; false when no slot is left.
fn place_signature(lock: &mut Vec<u8>, start: usize, sig: &Vec<u8>) -> (ok: bool)
    requires
        sig@.len() == 65,
    ensures
        ok == place_from(old(lock)@, start as nat, sig@) is Some,
        ok ==> final(lock)@ == place_from(old(lock)@, start as nat, sig@)->0,
{
    let mut idx: usize = start;
    while idx <= lock.len() && lock.len() - idx >= 65
        invariant
            lock@ == old(lock)@,
            sig@.len() == 65,
            place_from(lock@, idx as nat, sig@) == place_from(lock@, start as nat, sig@),
        decreases lock@.len() - idx,
    {
        if slot_equals(lock, idx, sig) {
            return true;
        }
        if slot_is_zero(lock, idx) {
            let ghost l0 = lock@;
            let len = lock.len();
            let mut k: usize = 0;
            while k < 65
                invariant
                    k <= 65,
                    len == l0.len(),
                    idx + 65 <= l0.len(),
                    sig@.len() == 65,
                    lock@.len() == l0.len(),
                    forall|j: int| (0 <= j < idx || idx + 65 <= j < l0.len()) ==> #[trigger] lock@[j] == l0[j],
                    forall|j: int| 0 <= j < k ==> #[trigger] lock@[idx + j] == sig@[j],
                    forall|j: int| k <= j < 65 ==> #[trigger] lock@[idx + j] == l0[idx + j],
                decreases 65 - k,
            {
                lock.set(idx + k, sig[k]);
                k = k + 1;
            }
            let ghost expect = l0.subrange(0, idx as int) + sig@ + l0.subrange(idx + 65, l0.len() as int);
            assert forall|j: int| 0 <= j < l0.len() implies lock@[j] == expect[j] by {
                if idx <= j < idx + 65 {
                    assert(lock@[idx + (j - idx)] == sig@[j - idx]);
                }
            }
            assert(lock@ =~= expect);
            return true;
        }
        idx = idx + 65;
    }
    false
}

/// The lock placeholder of a config: its witness data, then a zeroed slot per signature needed.
pub open spec fn zero_lock_of(c: &MultisigConfig) -> Seq<u8> {
    c.witness_data() + zeros(65 * c.threshold_spec() as nat)
}

/// The signatures that a multisig signer's wallet makes for a transaction.
pub open spec fn multisig_signatures<W: Wallet>(
    w: &W,
    c: &MultisigConfig,
    hash: Seq<u8>,
    ws: Seq<Seq<u8>>,
    n_inputs: nat,
    idx: Seq<usize>,
) -> Seq<Seq<u8>> {
    let pw = padded(ws, idx[0] as nat);
    wallet_signatures(w, c.addresses(), ckb_hash_of(message_bytes(hash, pw, n_inputs, idx, zero_lock_of(c))))
}

/// The witnesses after a multisig signer's pass, or `None` when its signatures find no free slot.
pub open spec fn multisig_witnesses<W: Wallet>(
    w: &W,
    c: &MultisigConfig,
    hash: Seq<u8>,
    ws: Seq<Seq<u8>>,
    n_inputs: nat,
    idx: Seq<usize>,
) -> Option<Seq<Seq<u8>>> {
    let i = idx[0] as int;
    let pw = padded(ws, i as nat);
    let zl = zero_lock_of(c);
    let sigs = multisig_signatures(w, c, hash, ws, n_inputs, idx);
    let lock0 = match parsed(pw[i]).lock {
        Some(l) => l,
        None => zl,
    };
    match place_all(lock0, c.witness_data().len(), sigs) {
        Some(l) => Some(pw.update(i, with_lock(pw[i], l))),
        None => None,
    }
}

/// Signer for the N-of-M secp256k1 multisig lock.
pub struct Secp256k1MultisigSigner<W: Wallet> {
    wallet: W,
    config: MultisigConfig,
    config_hash: [u8; 32],
}

impl<W: Wallet> Secp256k1MultisigSigner<W> {
    pub closed spec fn wallet_spec(&self) -> W {
        self.wallet
    }

    pub closed spec fn config_spec(&self) -> MultisigConfig {
        self.config
    }

    /// The hash of the config's witness data.
    pub closed spec fn config_hash_spec(&self) -> Seq<u8> {
        self.config_hash@
    }

    /// The hash of the config's witness data; its first 20 bytes are the lock's args.
    pub fn config_hash(&self) -> (r: [u8; 32])
        ensures
            r@ == self.config_hash_spec(),
    {
        self.config_hash
    }

    pub fn new(wallet: W, config: MultisigConfig) -> (r: Secp256k1MultisigSigner<W>)
        ensures
            r.wallet_spec() == wallet,
            r.config_spec() == config,
            r.config_hash_spec() == ckb_hash_of(config.witness_data()),
    {
        let data = config.to_witness_data();
        let config_hash = blake2b_256(data.as_slice());
        Secp256k1MultisigSigner { wallet, config, config_hash }
    }

    pub fn wallet(&self) -> (r: &W)
        ensures
            *r == self.wallet_spec(),
    {
        &self.wallet
    }

    /// Whether the wallet knows one of the config's addresses.
    fn knows_some_address(&self) -> (r: bool)
        ensures
            r == exists|k: int| 0 <= k < self.config_spec().addresses().len()
                && self.wallet_spec().knows(#[trigger] self.config_spec().addresses()[k]@),
    {
        let n = self.config.sighash_addresses.len();
        let mut k: usize = 0;
        while k < n
            invariant
                k <= n,
                n == self.config_spec().addresses().len(),
                forall|j: int| 0 <= j < k ==> !self.wallet_spec().knows(#[trigger] self.config_spec().addresses()[j]@),
            decreases n - k,
        {
            if self.wallet.match_id(self.config.sighash_addresses[k].as_slice()) {
                return true;
            }
            k = k + 1;
        }
        false
    }
}

impl<W: Wallet> ScriptSigner for Secp256k1MultisigSigner<W> {
    /// Args equal to the first 20 bytes of the config hash, with some address the wallet knows.
    fn match_args(&self, args: &[u8]) -> (r: bool)
        ensures
            r == (args@ == self.config_hash_spec().subrange(0, 20)
                && exists|k: int| 0 <= k < self.config_spec().addresses().len()
                    && self.wallet_spec().knows(#[trigger] self.config_spec().addresses()[k]@)),
    {
        let mut same = args.len() == 20;
        if same {
            let mut k: usize = 0;
            while k < 20
                invariant
                    k <= 20,
                    args@.len() == 20,
                    same == forall|j: int| 0 <= j < k ==> args@[j] == self.config_hash_spec()[j],
                decreases 20 - k,
            {
                same = same && args[k] == self.config_hash[k];
                k = k + 1;
            }
        }
        assert(same == (args@ =~= self.config_hash_spec().subrange(0, 20)));
        same && self.knows_some_address()
    }

    /// Adds the wallet's signatures to the group's first witness, each in the
    /// first slot that holds it already or is free.
    #[verifier::loop_isolation(false)]
    fn sign_tx<P: TransactionDependencyProvider>(
        &self,
        tx: &Transaction,
        script_group: &ScriptGroup,
        tx_dep_provider: &P,
    ) -> (r: Result<Transaction, SignError>)
        ensures
            ({
                let idx = script_group.input_indices@;
                let i = idx[0] as int;
                let pw = padded(tx.witness_seq(), i as nat);
                let out = multisig_witnesses(
                    &self.wallet_spec(),
                    &self.config_spec(),
                    tx_hash_spec(tx.raw_model()),
                    tx.witness_seq(),
                    tx.inputs@.len(),
                    idx,
                );
                &&& !parses(pw[i]) ==> (r matches Err(e) && e is InvalidWitnessArgs)
                &&& r is Ok ==> r->Ok_0.raw_model() == tx.raw_model()
                &&& r is Ok ==> out == Some(r->Ok_0.witness_seq())
                &&& (r matches Err(e) && e is TooManySignatures) ==> out is None
                &&& (parses(pw[i]) && out is None) ==> (r matches Err(e) && (e is TooManySignatures || e is Wallet))
                &&& (parses(pw[i]) && out is Some) ==> (r is Ok || r->Err_0 is Wallet)
                &&& (r matches Err(e) && e is Wallet) ==> exists|k: int| 0 <= k < self.config_spec().addresses().len()
                    && self.wallet_spec().knows(#[trigger] self.config_spec().addresses()[k]@)
                &&& (parses(pw[i]) && forall|k: int| 0 <= k < self.config_spec().addresses().len()
                    ==> !self.wallet_spec().knows(#[trigger] self.config_spec().addresses()[k]@)) ==> r is Ok
                &&& (r is Ok && r->Ok_0.witness_seq()[i].len() <= u32::MAX) ==> parses(r->Ok_0.witness_seq()[i])
                &&& (r is Ok && group_ok(idx, tx.inputs@.len()) && r->Ok_0.witness_seq()[i].len() <= u32::MAX)
                    ==> message_bytes(
                    tx_hash_spec(tx.raw_model()),
                    r->Ok_0.witness_seq(),
                    tx.inputs@.len(),
                    idx,
                    zero_lock_of(&self.config_spec()),
                ) == message_bytes(tx_hash_spec(tx.raw_model()), pw, tx.inputs@.len(), idx, zero_lock_of(&self.config_spec()))
                &&& (r is Ok && group_ok(idx, tx.inputs@.len()) && r->Ok_0.witness_seq()[i].len() <= u32::MAX
                    && forall|k: int|
                    0 <= k < multisig_signatures(&self.wallet_spec(), &self.config_spec(), tx_hash_spec(tx.raw_model()), tx.witness_seq(), tx.inputs@.len(), idx).len()
                    ==> #[trigger] multisig_signatures(&self.wallet_spec(), &self.config_spec(), tx_hash_spec(tx.raw_model()), tx.witness_seq(), tx.inputs@.len(), idx)[k]
                        != zeros(65))
                    ==> multisig_witnesses(
                        &self.wallet_spec(),
                        &self.config_spec(),
                        tx_hash_spec(tx.raw_model()),
                        r->Ok_0.witness_seq(),
                        tx.inputs@.len(),
                        idx,
                    ) == Some(r->Ok_0.witness_seq())
            }),
    {
        let i = script_group.input_indices[0];
        let ghost idx = script_group.input_indices@;
        let ghost hash = tx_hash_spec(tx.raw_model());
        let ghost n = tx.inputs@.len();
        let ws = padded_witnesses(tx, i);
        let ghost pw = padded(tx.witness_seq(), i as nat);
        let tx_new = with_witnesses(tx, ws);
        assert(tx_new.witness_seq() == pw);
        let config_data = self.config.to_witness_data();
        let mut zero_lock = config_data.clone();
        let zeros_part = zero_bytes(65 * self.config.threshold as usize);
        let mut k: usize = 0;
        while k < zeros_part.len()
            invariant
                k <= zeros_part@.len(),
                zero_lock@ == config_data@ + zeros_part@.subrange(0, k as int),
            decreases zeros_part@.len() - k,
        {
            zero_lock.push(zeros_part[k]);
            assert(zeros_part@.subrange(0, k + 1) =~= zeros_part@.subrange(0, k as int).push(zeros_part@[k as int]));
            k = k + 1;
        }
        assert(zeros_part@.subrange(0, zeros_part@.len() as int) =~= zeros_part@);
        assert(zero_lock@ == zero_lock_of(&self.config_spec()));
        let message = generate_message(&tx_new, script_group, zero_lock.clone())?;
        let ghost digest = message@;
        proof {
            lemma_wallet_signatures_none(&self.wallet_spec(), self.config_spec().addresses(), digest);
        }
        assert(tx_new.witnesses@.len() == pw.len());
        assert(tx_new.witnesses@[i as int]@ == pw[i as int]);
        assert(parses(pw[i as int]));
        assert(tx_new.inputs@.len() == tx.inputs@.len()) by {
            assert(tx_new.raw_model().inputs.len() == tx.raw_model().inputs.len());
        }
        let addrs = &self.config.sighash_addresses;
        let mut sigs: Vec<Vec<u8>> = Vec::new();
        let mut k: usize = 0;
        while k < addrs.len()
            invariant
                k <= addrs@.len(),
                addrs == &self.config.sighash_addresses,
                digest == message@,
                sigs@.map_values(|s: Vec<u8>| s@) == wallet_signatures(&self.wallet_spec(), addrs@.subrange(0, k as int), digest),
                forall|j: int| 0 <= j < sigs@.len() ==> (#[trigger] sigs@[j])@.len() == 65,
            decreases addrs@.len() - k,
        {
            let ghost before = sigs@;
            assert(addrs@.subrange(0, k + 1).drop_last() =~= addrs@.subrange(0, k as int));
            if self.wallet.match_id(addrs[k].as_slice()) {
                match self.wallet.sign(addrs[k].as_slice(), message.as_slice(), tx, tx_dep_provider) {
                    Ok(s) => {
                        sigs.push(s);
                        assert(sigs@.map_values(|s: Vec<u8>| s@) =~= before.map_values(|s: Vec<u8>| s@).push(
                            self.wallet.signature_of(addrs@[k as int]@, digest)));
                    },
                    Err(e) => {
                        assert(self.wallet_spec().knows(self.config_spec().addresses()[k as int]@));
                        return Err(SignError::Wallet(e));
                    },
                }
            }
            k = k + 1;
        }
        assert(addrs@.subrange(0, addrs@.len() as int) =~= addrs@);
        let mut witnesses = tx_new.witnesses;
        let current = read_witness(&witnesses[i])?;
        let mut lock_field = match current.lock {
            Some(l) => l,
            None => zero_lock,
        };
        let ghost lock0 = lock_field@;
        let ghost all_sigs = sigs@.map_values(|s: Vec<u8>| s@);
        let start = config_data.len();
        let mut k: usize = 0;
        while k < sigs.len()
            invariant
                k <= sigs@.len(),
                all_sigs == sigs@.map_values(|s: Vec<u8>| s@),
                forall|j: int| 0 <= j < sigs@.len() ==> (#[trigger] sigs@[j])@.len() == 65,
                place_all(lock0, start as nat, all_sigs.subrange(0, k as int)) == Some(lock_field@),
            decreases sigs@.len() - k,
        {
            assert(all_sigs.subrange(0, k + 1).drop_last() =~= all_sigs.subrange(0, k as int));
            if !place_signature(&mut lock_field, start, &sigs[k]) {
                proof {
                    lemma_place_all_none(lock0, start as nat, all_sigs, k + 1);
                }
                return Err(SignError::TooManySignatures);
            }
            k = k + 1;
        }
        assert(all_sigs.subrange(0, all_sigs.len() as int) =~= all_sigs);
        let signed = set_lock(&witnesses[i], lock_field)?;
        witnesses.set(i, signed);
        let ghost t1 = witnesses@.map_values(|w: Vec<u8>| w@);
        assert(t1 =~= pw.update(i as int, with_lock(pw[i as int], lock_field@)));
        proof {
            let zl = zero_lock_of(&self.config_spec());
            let sigs_spec = multisig_signatures(&self.wallet_spec(), &self.config_spec(), hash, tx.witness_seq(), n, idx);
            assert(witness_args_bytes_of(WitnessArgsModel { lock: Some(lock_field@), ..parsed(pw[i as int]) }) == t1[i as int]);
            assert(all_sigs == sigs_spec);
            if group_ok(idx, n) && t1[i as int].len() <= u32::MAX {
                let m0 = parsed(pw[i as int]);
                assert(parsed(t1[i as int]) == (WitnessArgsModel { lock: Some(lock_field@), ..m0 }));
                assert(with_lock(t1[i as int], zl) == with_lock(pw[i as int], zl));
                lemma_message_first_witness(hash, pw, n, idx, zl, t1[i as int]);
            }
            if group_ok(idx, n) && t1[i as int].len() <= u32::MAX && forall|k: int| 0 <= k < sigs_spec.len() ==> #[trigger] sigs_spec[k] != zeros(65) {
                let m0 = parsed(pw[i as int]);
                assert(parsed(t1[i as int]) == (WitnessArgsModel { lock: Some(lock_field@), ..m0 }));
                assert(with_lock(t1[i as int], zl) == with_lock(pw[i as int], zl));
                lemma_message_first_witness(hash, pw, n, idx, zl, t1[i as int]);
                assert(padded(t1, i as nat) == t1);
                assert(multisig_signatures(&self.wallet_spec(), &self.config_spec(), hash, t1, n, idx) == sigs_spec);
                assert forall|k: int| 0 <= k < all_sigs.len() implies (#[trigger] all_sigs[k]).len() == 65 && all_sigs[k] != zeros(65) by {
                    assert(all_sigs[k] == sigs@[k]@);
                }
                lemma_place_all_settled(lock0, start as nat, all_sigs);
                lemma_place_all_settled_noop(lock_field@, start as nat, all_sigs);
                assert(with_lock(t1[i as int], lock_field@) == t1[i as int]);
                assert(t1.update(i as int, t1[i as int]) =~= t1);
            }
        }
        Ok(with_witnesses(tx, witnesses))
    }
}

/// Once a prefix of the signatures finds no slot, neither do all of them.
proof fn lemma_place_all_none(l: Seq<u8>, start: nat, sigs: Seq<Seq<u8>>, k: int)
    requires
        0 <= k <= sigs.len(),
        place_all(l, start, sigs.subrange(0, k)) is None,
    ensures
        place_all(l, start, sigs) is None,
    decreases sigs.len() - k,
{
    if k < sigs.len() {
        assert(sigs.subrange(0, k + 1).drop_last() =~= sigs.subrange(0, k));
        lemma_place_all_none(l, start, sigs, k + 1);
    } else {
        assert(sigs.subrange(0, k) =~= sigs);
    }
}

/// Placing a signature changes nothing before the slot where the scan starts, nor the length.
proof fn lemma_place_keeps_prefix(l: Seq<u8>, idx: nat, t: Seq<u8>)
    requires
        t.len() == 65,
        place_from(l, idx, t) is Some,
    ensures
        place_from(l, idx, t)->0.len() == l.len(),
        place_from(l, idx, t)->0.subrange(0, idx as int) == l.subrange(0, idx as int),
    decreases l.len() - idx,
{
    if idx + 65 > l.len() {
    } else if slot(l, idx) == t {
    } else if slot(l, idx) == zeros(65) {
        let l2 = l.subrange(0, idx as int) + t + l.subrange(idx as int + 65, l.len() as int);
        assert(l2.subrange(0, idx as int) =~= l.subrange(0, idx as int));
    } else {
        lemma_place_keeps_prefix(l, idx + 65, t);
        let l2 = place_from(l, idx + 65, t)->0;
        assert(l2.subrange(0, idx as int) =~= l2.subrange(0, idx as int + 65).subrange(0, idx as int));
        assert(l.subrange(0, idx as int) =~= l.subrange(0, idx as int + 65).subrange(0, idx as int));
    }
}

/// Slot `idx` is unchanged by a placement whose scan starts at the next slot.
proof fn lemma_place_keeps_slot(l: Seq<u8>, idx: nat, t: Seq<u8>)
    requires
        t.len() == 65,
        idx + 65 <= l.len(),
        place_from(l, idx + 65, t) is Some,
    ensures
        slot(place_from(l, idx + 65, t)->0, idx) == slot(l, idx),
        place_from(l, idx + 65, t)->0.len() == l.len(),
{
    lemma_place_keeps_prefix(l, idx + 65, t);
    let l2 = place_from(l, idx + 65, t)->0;
    assert(slot(l2, idx) =~= l2.subrange(0, idx as int + 65).subrange(idx as int, idx as int + 65));
    assert(slot(l, idx) =~= l.subrange(0, idx as int + 65).subrange(idx as int, idx as int + 65));
}

/// A signature just placed is found again in place: placing it once more changes nothing.
proof fn lemma_place_settles(l: Seq<u8>, idx: nat, s: Seq<u8>)
    requires
        s.len() == 65,
        place_from(l, idx, s) is Some,
    ensures
        place_from(place_from(l, idx, s)->0, idx, s) == place_from(l, idx, s),
    decreases l.len() - idx,
{
    let l2 = place_from(l, idx, s)->0;
    if slot(l, idx) == s {
    } else if slot(l, idx) == zeros(65) {
        assert(slot(l2, idx) =~= s);
    } else {
        lemma_place_settles(l, idx + 65, s);
        lemma_place_keeps_slot(l, idx, s);
    }
}

/// A signature that is settled stays settled when another is placed by a scan from the same slot.
proof fn lemma_place_keeps_settled(l: Seq<u8>, idx: nat, s: Seq<u8>, t: Seq<u8>)
    requires
        s.len() == 65,
        t.len() == 65,
        s != zeros(65),
        place_from(l, idx, s) == Some(l),
        place_from(l, idx, t) is Some,
    ensures
        place_from(place_from(l, idx, t)->0, idx, s) == Some(place_from(l, idx, t)->0),
    decreases l.len() - idx,
{
    let l2 = place_from(l, idx, t)->0;
    if slot(l, idx) == s {
        if slot(l, idx) == t {
        } else {
            lemma_place_keeps_slot(l, idx, t);
        }
    } else if slot(l, idx) == zeros(65) {
        let l3 = l.subrange(0, idx as int) + s + l.subrange(idx as int + 65, l.len() as int);
        assert(slot(l3, idx) =~= s);
        assert(l3 != l);
    } else if slot(l, idx) == t {
    } else {
        lemma_place_keeps_settled(l, idx + 65, s, t);
        lemma_place_keeps_slot(l, idx, t);
    }
}

/// After placing all the signatures, each is settled in the result.
proof fn lemma_place_all_settled(l: Seq<u8>, start: nat, sigs: Seq<Seq<u8>>)
    requires
        place_all(l, start, sigs) is Some,
        forall|k: int| 0 <= k < sigs.len() ==> (#[trigger] sigs[k]).len() == 65 && sigs[k] != zeros(65),
    ensures
        forall|k: int| 0 <= k < sigs.len() ==> place_from(place_all(l, start, sigs)->0, start, #[trigger] sigs[k])
            == Some(place_all(l, start, sigs)->0),
    decreases sigs.len(),
{
    if sigs.len() > 0 {
        let pre = sigs.drop_last();
        assert forall|k: int| 0 <= k < pre.len() implies (#[trigger] pre[k]).len() == 65 && pre[k] != zeros(65) by {
            assert(pre[k] == sigs[k]);
        }
        lemma_place_all_settled(l, start, pre);
        let mid = place_all(l, start, pre)->0;
        let last = sigs.last();
        assert(last == sigs[sigs.len() - 1]);
        lemma_place_settles(mid, start, last);
        assert forall|k: int| 0 <= k < sigs.len() implies place_from(place_all(l, start, sigs)->0, start, #[trigger] sigs[k])
            == Some(place_all(l, start, sigs)->0) by {
            if k < sigs.len() - 1 {
                assert(sigs[k] == pre[k]);
                lemma_place_keeps_settled(mid, start, sigs[k], last);
            }
        }
    }
}

/// Placing signatures that are all settled changes nothing.
proof fn lemma_place_all_settled_noop(l: Seq<u8>, start: nat, sigs: Seq<Seq<u8>>)
    requires
        forall|k: int| 0 <= k < sigs.len() ==> place_from(l, start, #[trigger] sigs[k]) == Some(l),
    ensures
        place_all(l, start, sigs) == Some(l),
    decreases sigs.len(),
{
    if sigs.len() > 0 {
        let pre = sigs.drop_last();
        assert forall|k: int| 0 <= k < pre.len() implies place_from(l, start, #[trigger] pre[k]) == Some(l) by {
            assert(pre[k] == sigs[k]);
        }
        lemma_place_all_settled_noop(l, start, pre);
        assert(sigs.last() == sigs[sigs.len() - 1]);
    }
}

/// A settled signature stays settled while other signatures are placed.
proof fn lemma_place_all_keeps_settled(l: Seq<u8>, start: nat, s: Seq<u8>, sigs: Seq<Seq<u8>>)
    requires
        s.len() == 65,
        s != zeros(65),
        place_from(l, start, s) == Some(l),
        place_all(l, start, sigs) is Some,
        forall|k: int| 0 <= k < sigs.len() ==> (#[trigger] sigs[k]).len() == 65,
    ensures
        place_from(place_all(l, start, sigs)->0, start, s) == place_all(l, start, sigs),
    decreases sigs.len(),
{
    if sigs.len() > 0 {
        let pre = sigs.drop_last();
        assert forall|k: int| 0 <= k < pre.len() implies (#[trigger] pre[k]).len() == 65 by {
            assert(pre[k] == sigs[k]);
        }
        lemma_place_all_keeps_settled(l, start, s, pre);
        assert(sigs.last() == sigs[sigs.len() - 1]);
        lemma_place_keeps_settled(place_all(l, start, pre)->0, start, s, sigs.last());
    }
}

/// Two signers of one config may sign in either order: when both passes find
/// room, each order leaves every signature of both in the lock field, where
/// signing again finds it. (The slots they take may differ between the orders.)
pub proof fn lemma_multisig_either_order(l: Seq<u8>, start: nat, sa: Seq<Seq<u8>>, sb: Seq<Seq<u8>>)
    requires
        forall|k: int| 0 <= k < sa.len() ==> (#[trigger] sa[k]).len() == 65 && sa[k] != zeros(65),
        forall|k: int| 0 <= k < sb.len() ==> (#[trigger] sb[k]).len() == 65 && sb[k] != zeros(65),
        place_all(l, start, sa) is Some,
        place_all(place_all(l, start, sa)->0, start, sb) is Some,
        place_all(l, start, sb) is Some,
        place_all(place_all(l, start, sb)->0, start, sa) is Some,
    ensures
        ({
            let ab = place_all(place_all(l, start, sa)->0, start, sb)->0;
            let ba = place_all(place_all(l, start, sb)->0, start, sa)->0;
            &&& forall|k: int| 0 <= k < sa.len() ==> place_from(ab, start, #[trigger] sa[k]) == Some(ab)
            &&& forall|k: int| 0 <= k < sb.len() ==> place_from(ab, start, #[trigger] sb[k]) == Some(ab)
            &&& forall|k: int| 0 <= k < sa.len() ==> place_from(ba, start, #[trigger] sa[k]) == Some(ba)
            &&& forall|k: int| 0 <= k < sb.len() ==> place_from(ba, start, #[trigger] sb[k]) == Some(ba)
        }),
{
    let a = place_all(l, start, sa)->0;
    let b = place_all(l, start, sb)->0;
    lemma_place_all_settled(l, start, sa);
    lemma_place_all_settled(a, start, sb);
    lemma_place_all_settled(l, start, sb);
    lemma_place_all_settled(b, start, sa);
    assert forall|k: int| 0 <= k < sa.len() implies place_from(place_all(a, start, sb)->0, start, #[trigger] sa[k])
        == Some(place_all(a, start, sb)->0) by {
        lemma_place_all_keeps_settled(a, start, sa[k], sb);
    }
    assert forall|k: int| 0 <= k < sb.len() implies place_from(place_all(b, start, sa)->0, start, #[trigger] sb[k])
        == Some(place_all(b, start, sa)->0) by {
        lemma_place_all_keeps_settled(b, start, sb[k], sa);
    }
}

/// A wallet that knows none of the addresses makes no signature.
proof fn lemma_wallet_signatures_none<W: Wallet>(w: &W, addrs: Seq<[u8; 20]>, msg: Seq<u8>)
    ensures
        (forall|k: int| 0 <= k < addrs.len() ==> !w.knows(#[trigger] addrs[k]@))
            ==> wallet_signatures(w, addrs, msg).len() == 0,
    decreases addrs.len(),
{
    if addrs.len() > 0 {
        lemma_wallet_signatures_none(w, addrs.drop_last(), msg);
        if forall|k: int| 0 <= k < addrs.len() ==> !w.knows(#[trigger] addrs[k]@) {
            assert(!w.knows(addrs[addrs.len() - 1]@));
            assert forall|k: int| 0 <= k < addrs.drop_last().len() implies !w.knows(#[trigger] addrs.drop_last()[k]@) by {
                assert(addrs.drop_last()[k] == addrs[k]);
            }
        }
    }
}

/// The slots of a lock field from `idx` on, as a multiset.
pub open spec fn slots_from(l: Seq<u8>, idx: nat) -> Multiset<Seq<u8>>
    decreases l.len() - idx,
{
    if idx + 65 > l.len() {
        Multiset::empty()
    } else {
        slots_from(l, idx + 65).insert(slot(l, idx))
    }
}

/// The items of a sequence, as a multiset.
pub open spec fn items(s: Seq<Seq<u8>>) -> Multiset<Seq<u8>>
    decreases s.len(),
{
    if s.len() == 0 {
        Multiset::empty()
    } else {
        items(s.drop_last()).insert(s.last())
    }
}

/// `k` zeroed slots, as a multiset.
pub open spec fn zero_slots(k: nat) -> Multiset<Seq<u8>>
    decreases k,
{
    if k == 0 {
        Multiset::empty()
    } else {
        zero_slots((k - 1) as nat).insert(zeros(65))
    }
}

proof fn lemma_slots_from_same_tail(l: Seq<u8>, l2: Seq<u8>, idx: nat)
    requires
        l.len() == l2.len(),
        idx <= l.len(),
        l.subrange(idx as int, l.len() as int) == l2.subrange(idx as int, l.len() as int),
    ensures
        slots_from(l, idx) == slots_from(l2, idx),
    decreases l.len() - idx,
{
    if idx + 65 <= l.len() {
        assert(l.subrange(idx as int + 65, l.len() as int) =~= l.subrange(idx as int, l.len() as int).subrange(65, l.len() as int - idx as int));
        assert(l2.subrange(idx as int + 65, l.len() as int) =~= l2.subrange(idx as int, l2.len() as int).subrange(65, l.len() as int - idx as int));
        lemma_slots_from_same_tail(l, l2, idx + 65);
        assert(slot(l, idx) =~= l.subrange(idx as int, l.len() as int).subrange(0, 65));
        assert(slot(l2, idx) =~= l2.subrange(idx as int, l.len() as int).subrange(0, 65));
    }
}

/// A signature not yet in the slots takes the first zeroed one, if any.
proof fn lemma_place_fresh(l: Seq<u8>, idx: nat, s: Seq<u8>)
    requires
        s.len() == 65,
        s != zeros(65),
        !slots_from(l, idx).contains(s),
    ensures
        place_from(l, idx, s) is Some <==> slots_from(l, idx).contains(zeros(65)),
        place_from(l, idx, s) is Some ==> slots_from(place_from(l, idx, s)->0, idx).insert(zeros(65))
            == slots_from(l, idx).insert(s),
    decreases l.len() - idx,
{
    if idx + 65 > l.len() {
    } else if slot(l, idx) == s {
    } else if slot(l, idx) == zeros(65) {
        let l2 = l.subrange(0, idx as int) + s + l.subrange(idx as int + 65, l.len() as int);
        assert(l2.subrange(idx as int + 65, l.len() as int) =~= l.subrange(idx as int + 65, l.len() as int));
        lemma_slots_from_same_tail(l, l2, idx + 65);
        assert(slot(l2, idx) =~= s);
        assert(slots_from(l2, idx).insert(zeros(65)) =~= slots_from(l, idx).insert(s));
    } else {
        lemma_place_fresh(l, idx + 65, s);
        if place_from(l, idx + 65, s) is Some {
            lemma_place_keeps_slot(l, idx, s);
            let l2 = place_from(l, idx + 65, s)->0;
            assert(slots_from(l2, idx) == slots_from(l2, idx + 65).insert(slot(l2, idx)));
            assert(slots_from(l, idx) == slots_from(l, idx + 65).insert(slot(l, idx)));
            let a = slots_from(l2, idx + 65);
            let b = slots_from(l, idx + 65);
            let x = slot(l, idx);
            assert(a.insert(zeros(65)) == b.insert(s));
            assert forall|y: Seq<u8>| #[trigger] a.insert(x).insert(zeros(65)).count(y) == b.insert(x).insert(s).count(y) by {
                assert(a.insert(zeros(65)).count(y) == b.insert(s).count(y));
            }
            assert(slots_from(l2, idx).insert(zeros(65)) =~= slots_from(l, idx).insert(s));
        }
    }
}

/// Placing signatures keeps the lock's length and everything before `start`.
proof fn lemma_place_all_keeps_prefix(l: Seq<u8>, start: nat, sigs: Seq<Seq<u8>>)
    requires
        place_all(l, start, sigs) is Some,
        forall|k: int| 0 <= k < sigs.len() ==> (#[trigger] sigs[k]).len() == 65,
    ensures
        place_all(l, start, sigs)->0.len() == l.len(),
        place_all(l, start, sigs)->0.subrange(0, start as int) == l.subrange(0, start as int),
    decreases sigs.len(),
{
    if sigs.len() > 0 {
        let pre = sigs.drop_last();
        assert forall|k: int| 0 <= k < pre.len() implies (#[trigger] pre[k]).len() == 65 by {
            assert(pre[k] == sigs[k]);
        }
        lemma_place_all_keeps_prefix(l, start, pre);
        assert(sigs.last() == sigs[sigs.len() - 1]);
        lemma_place_keeps_prefix(place_all(l, start, pre)->0, start, sigs.last());
    }
}

/// Fresh, distinct, nonzero signatures: placing them all succeeds exactly when
/// there are enough zeroed slots, and each takes the place of one.
proof fn lemma_place_all_fresh(l: Seq<u8>, start: nat, sigs: Seq<Seq<u8>>)
    requires
        forall|k: int| 0 <= k < sigs.len() ==> (#[trigger] sigs[k]).len() == 65 && sigs[k] != zeros(65)
            && !slots_from(l, start).contains(sigs[k]),
        forall|j: int, k: int| 0 <= j < sigs.len() && 0 <= k < sigs.len() && j != k ==> sigs[j] != sigs[k],
    ensures
        place_all(l, start, sigs) is Some <==> slots_from(l, start).count(zeros(65)) >= sigs.len(),
        place_all(l, start, sigs) is Some ==> slots_from(place_all(l, start, sigs)->0, start).add(zero_slots(sigs.len()))
            == slots_from(l, start).add(items(sigs)),
    decreases sigs.len(),
{
    if sigs.len() == 0 {
        assert(slots_from(l, start).add(zero_slots(0)) =~= slots_from(l, start).add(items(sigs)));
    } else {
        let pre = sigs.drop_last();
        let last = sigs.last();
        assert(last == sigs[sigs.len() - 1]);
        assert forall|k: int| 0 <= k < pre.len() implies (#[trigger] pre[k]).len() == 65 && pre[k] != zeros(65)
            && !slots_from(l, start).contains(pre[k]) by {
            assert(pre[k] == sigs[k]);
        }
        assert forall|j: int, k: int| 0 <= j < pre.len() && 0 <= k < pre.len() && j != k implies pre[j] != pre[k] by {
            assert(pre[j] == sigs[j]);
            assert(pre[k] == sigs[k]);
        }
        lemma_place_all_fresh(l, start, pre);
        lemma_items_nonzero(pre);
        lemma_items_excludes(pre, last);
        lemma_zero_slots_count(pre.len());
        let s0 = slots_from(l, start);
        if place_all(l, start, pre) is Some {
            let mid = place_all(l, start, pre)->0;
            let sm = slots_from(mid, start);
            assert(sm.add(zero_slots(pre.len())) == s0.add(items(pre)));
            assert(sm.add(zero_slots(pre.len())).count(last) == s0.add(items(pre)).count(last));
            assert(sm.add(zero_slots(pre.len())).count(zeros(65)) == s0.add(items(pre)).count(zeros(65)));
            assert(!s0.contains(last));
            assert(sm.count(last) + zero_slots(pre.len()).count(last) == s0.count(last) + items(pre).count(last));
            assert(!sm.contains(last));
            assert(sm.count(zeros(65)) + pre.len() == s0.count(zeros(65)));
            lemma_place_fresh(mid, start, last);
            if place_from(mid, start, last) is Some {
                let fin = place_from(mid, start, last)->0;
                assert(slots_from(fin, start).insert(zeros(65)) == sm.insert(last));
                let f = slots_from(fin, start);
                let zp = zero_slots(pre.len());
                assert(zero_slots(sigs.len()) == zp.insert(zeros(65)));
                assert(items(sigs) == items(pre).insert(last));
                assert forall|y: Seq<u8>| #[trigger] f.add(zp.insert(zeros(65))).count(y) == s0.add(items(pre).insert(last)).count(y) by {
                    assert(f.insert(zeros(65)).count(y) == sm.insert(last).count(y));
                    assert(sm.add(zp).count(y) == s0.add(items(pre)).count(y));
                }
                assert(slots_from(fin, start).add(zero_slots(sigs.len())) =~= s0.add(items(sigs)));
            }
        } else {
            lemma_place_all_none(l, start, sigs, pre.len() as int);
            assert(sigs.subrange(0, pre.len() as int) =~= pre);
        }
    }
}

proof fn lemma_items_nonzero(s: Seq<Seq<u8>>)
    requires
        forall|k: int| 0 <= k < s.len() ==> #[trigger] s[k] != zeros(65),
    ensures
        items(s).count(zeros(65)) == 0,
    decreases s.len(),
{
    if s.len() > 0 {
        assert forall|k: int| 0 <= k < s.drop_last().len() implies #[trigger] s.drop_last()[k] != zeros(65) by {
            assert(s.drop_last()[k] == s[k]);
        }
        lemma_items_nonzero(s.drop_last());
        assert(s.last() == s[s.len() - 1]);
    }
}

proof fn lemma_items_excludes(s: Seq<Seq<u8>>, x: Seq<u8>)
    requires
        forall|k: int| 0 <= k < s.len() ==> #[trigger] s[k] != x,
    ensures
        items(s).count(x) == 0,
    decreases s.len(),
{
    if s.len() > 0 {
        assert forall|k: int| 0 <= k < s.drop_last().len() implies #[trigger] s.drop_last()[k] != x by {
            assert(s.drop_last()[k] == s[k]);
        }
        lemma_items_excludes(s.drop_last(), x);
        assert(s.last() == s[s.len() - 1]);
    }
}

proof fn lemma_zero_slots_count(k: nat)
    ensures
        zero_slots(k).count(zeros(65)) == k,
        forall|x: Seq<u8>| x != zeros(65) ==> zero_slots(k).count(x) == 0,
    decreases k,
{
    if k > 0 {
        lemma_zero_slots_count((k - 1) as nat);
    }
}

/// Placing one signer's signatures, then another's.
pub open spec fn place_both(l: Seq<u8>, start: nat, first: Seq<Seq<u8>>, second: Seq<Seq<u8>>) -> Option<Seq<u8>> {
    match place_all(l, start, first) {
        Some(m) => place_all(m, start, second),
        None => None,
    }
}

/// The signatures are 65 bytes, not all zero, not yet in the lock's slots, and distinct.
pub open spec fn fresh_signatures(l: Seq<u8>, start: nat, sigs: Seq<Seq<u8>>) -> bool {
    &&& forall|k: int| 0 <= k < sigs.len() ==> (#[trigger] sigs[k]).len() == 65 && sigs[k] != zeros(65)
        && !slots_from(l, start).contains(sigs[k])
    &&& forall|j: int, k: int| 0 <= j < sigs.len() && 0 <= k < sigs.len() && j != k ==> sigs[j] != sigs[k]
}

proof fn lemma_place_both(l: Seq<u8>, start: nat, sa: Seq<Seq<u8>>, sb: Seq<Seq<u8>>)
    requires
        fresh_signatures(l, start, sa + sb),
    ensures
        place_both(l, start, sa, sb) is Some <==> slots_from(l, start).count(zeros(65)) >= sa.len() + sb.len(),
        place_both(l, start, sa, sb) is Some ==> slots_from(place_both(l, start, sa, sb)->0, start)
            .add(zero_slots(sa.len())).add(zero_slots(sb.len())) == slots_from(l, start).add(items(sa)).add(items(sb)),
        place_both(l, start, sa, sb) is Some ==> place_both(l, start, sa, sb)->0.len() == l.len()
            && place_both(l, start, sa, sb)->0.subrange(0, start as int) == l.subrange(0, start as int),
{
    let ab = sa + sb;
    let s0 = slots_from(l, start);
    assert forall|k: int| 0 <= k < sa.len() implies (#[trigger] sa[k]).len() == 65 && sa[k] != zeros(65)
        && !s0.contains(sa[k]) by {
        assert(sa[k] == ab[k]);
    }
    assert forall|j: int, k: int| 0 <= j < sa.len() && 0 <= k < sa.len() && j != k implies sa[j] != sa[k] by {
        assert(sa[j] == ab[j]);
        assert(sa[k] == ab[k]);
    }
    lemma_place_all_fresh(l, start, sa);
    lemma_items_nonzero(sa);
    lemma_zero_slots_count(sa.len());
    lemma_zero_slots_count(sb.len());
    if place_all(l, start, sa) is Some {
        let m = place_all(l, start, sa)->0;
        let sm = slots_from(m, start);
        assert(sm.add(zero_slots(sa.len())) == s0.add(items(sa)));
        assert(sm.add(zero_slots(sa.len())).count(zeros(65)) == s0.add(items(sa)).count(zeros(65)));
        assert forall|k: int| 0 <= k < sb.len() implies (#[trigger] sb[k]).len() == 65 && sb[k] != zeros(65)
            && !sm.contains(sb[k]) by {
            assert(sb[k] == ab[sa.len() + k]);
            assert forall|j: int| 0 <= j < sa.len() implies #[trigger] sa[j] != sb[k] by {
                assert(sa[j] == ab[j]);
            }
            lemma_items_excludes(sa, sb[k]);
            assert(sm.add(zero_slots(sa.len())).count(sb[k]) == s0.add(items(sa)).count(sb[k]));
        }
        assert forall|j: int, k: int| 0 <= j < sb.len() && 0 <= k < sb.len() && j != k implies sb[j] != sb[k] by {
            assert(sb[j] == ab[sa.len() + j]);
            assert(sb[k] == ab[sa.len() + k]);
        }
        lemma_place_all_fresh(m, start, sb);
        assert forall|k: int| 0 <= k < sa.len() implies (#[trigger] sa[k]).len() == 65 by {}
        assert forall|k: int| 0 <= k < sb.len() implies (#[trigger] sb[k]).len() == 65 by {}
        lemma_place_all_keeps_prefix(l, start, sa);
        if place_all(m, start, sb) is Some {
            let f = slots_from(place_all(m, start, sb)->0, start);
            lemma_place_all_keeps_prefix(m, start, sb);
            assert forall|y: Seq<u8>| #[trigger] f.add(zero_slots(sa.len())).add(zero_slots(sb.len())).count(y)
                == s0.add(items(sa)).add(items(sb)).count(y) by {
                assert(f.add(zero_slots(sb.len())).count(y) == sm.add(items(sb)).count(y));
                assert(sm.add(zero_slots(sa.len())).count(y) == s0.add(items(sa)).count(y));
            }
            assert(f.add(zero_slots(sa.len())).add(zero_slots(sb.len())) =~= s0.add(items(sa)).add(items(sb)));
        }
    }
}

/// Two signers of one config whose signatures are distinct, not all zero and
/// not yet in the lock: signing in either order succeeds in both or in neither,
/// and when it succeeds both orders give locks of one length, with the same
/// bytes before the slots and the same slots taken as a multiset.
pub proof fn lemma_multisig_order_independent(l: Seq<u8>, start: nat, sa: Seq<Seq<u8>>, sb: Seq<Seq<u8>>)
    requires
        fresh_signatures(l, start, sa + sb),
    ensures
        place_both(l, start, sa, sb) is Some <==> place_both(l, start, sb, sa) is Some,
        place_both(l, start, sa, sb) is Some ==> ({
            let ab = place_both(l, start, sa, sb)->0;
            let ba = place_both(l, start, sb, sa)->0;
            &&& ab.len() == ba.len()
            &&& ab.subrange(0, start as int) == ba.subrange(0, start as int)
            &&& slots_from(ab, start) == slots_from(ba, start)
        }),
{
    let ab = sa + sb;
    let ba = sb + sa;
    assert forall|k: int| 0 <= k < ba.len() implies (#[trigger] ba[k]).len() == 65 && ba[k] != zeros(65)
        && !slots_from(l, start).contains(ba[k]) by {
        if k < sb.len() {
            assert(ba[k] == ab[sa.len() + k]);
        } else {
            assert(ba[k] == ab[k - sb.len()]);
        }
    }
    assert forall|j: int, k: int| 0 <= j < ba.len() && 0 <= k < ba.len() && j != k implies ba[j] != ba[k] by {
        let jj = if j < sb.len() { sa.len() + j } else { j - sb.len() };
        let kk = if k < sb.len() { sa.len() + k } else { k - sb.len() };
        assert(ba[j] == ab[jj]);
        assert(ba[k] == ab[kk]);
    }
    lemma_place_both(l, start, sa, sb);
    lemma_place_both(l, start, sb, sa);
    if place_both(l, start, sa, sb) is Some {
        let f1 = slots_from(place_both(l, start, sa, sb)->0, start);
        let f2 = slots_from(place_both(l, start, sb, sa)->0, start);
        let za = zero_slots(sa.len());
        let zb = zero_slots(sb.len());
        let s0 = slots_from(l, start);
        assert forall|y: Seq<u8>| #[trigger] f1.count(y) == f2.count(y) by {
            assert(f1.add(za).add(zb).count(y) == s0.add(items(sa)).add(items(sb)).count(y));
            assert(f2.add(zb).add(za).count(y) == s0.add(items(sb)).add(items(sa)).count(y));
        }
        assert(f1 =~= f2);
    }
}

} // verus!
