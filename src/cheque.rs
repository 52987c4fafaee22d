//! Builders for the two ways out of a cheque: the receiver claims it, or the
//! sender withdraws it once its time lock has passed.

use vstd::prelude::*;
use crate::amount::{decode_amount, encode_amount, le_value};
use crate::hash::{script_hash, script_hash_spec};
use crate::traits::TransactionDependencyProvider;
use crate::tx_builder::{all_resolved, deps_exactly, first_unresolved, resolve_all, BuilderError};
use crate::types::{
    clone_cell_output, clone_script, CellInput, CellOutput, CellOutputModel, OutPoint, Script,
    ScriptId, ScriptIdModel, ScriptModel, Transaction, script_id_of,
};

verus! {

/// The time lock that every input of a withdraw carries: six epochs, relative.
pub const CHEQUE_CELL_SINCE: u64 = 0xA000000000000006;

/// The cell at an input's out point, as the provider sees it.
pub open spec fn cell_at<P: TransactionDependencyProvider>(p: &P, op: OutPoint) -> CellOutputModel {
    p.cell_of(op@)->0
}

/// The data of the cell at an input's out point, as the provider sees it.
pub open spec fn data_at<P: TransactionDependencyProvider>(p: &P, op: OutPoint) -> Seq<u8> {
    p.data_of(op@)->0
}

/// The provider has both the cell and its data.
pub open spec fn present<P: TransactionDependencyProvider>(p: &P, op: OutPoint) -> bool {
    p.cell_of(op@) is Some && p.data_of(op@) is Some
}

/// Total capacity of the cells at the out points.
pub open spec fn capacity_sum<P: TransactionDependencyProvider>(p: &P, ops: Seq<OutPoint>) -> int
    decreases ops.len(),
{
    if ops.len() == 0 {
        0
    } else {
        capacity_sum(p, ops.drop_last()) + cell_at(p, ops.last()).capacity
    }
}

/// Total token amount held in the data of the cells at the out points.
pub open spec fn amount_sum<P: TransactionDependencyProvider>(p: &P, ops: Seq<OutPoint>) -> int
    decreases ops.len(),
{
    if ops.len() == 0 {
        0
    } else {
        amount_sum(p, ops.drop_last()) + le_value(data_at(p, ops.last()))
    }
}

/// The out points that a list of inputs consumes.
pub open spec fn out_points(ins: Seq<CellInput>) -> Seq<OutPoint> {
    ins.map_values(|i: CellInput| i.previous_output)
}

proof fn lemma_sums_mono<P: TransactionDependencyProvider>(p: &P, ops: Seq<OutPoint>, j: int)
    requires
        0 <= j <= ops.len(),
    ensures
        capacity_sum(p, ops.subrange(0, j)) <= capacity_sum(p, ops),
        amount_sum(p, ops.subrange(0, j)) <= amount_sum(p, ops),
    decreases ops.len(),
{
    if j < ops.len() {
        lemma_sums_mono(p, ops.drop_last(), j);
        assert(ops.drop_last().subrange(0, j) =~= ops.subrange(0, j));
    } else {
        assert(ops.subrange(0, j) =~= ops);
    }
}

proof fn lemma_sums_step<P: TransactionDependencyProvider>(p: &P, ops: Seq<OutPoint>, k: int)
    requires
        0 <= k < ops.len(),
    ensures
        capacity_sum(p, ops.subrange(0, k + 1)) == capacity_sum(p, ops.subrange(0, k)) + cell_at(p, ops[k]).capacity,
        amount_sum(p, ops.subrange(0, k + 1)) == amount_sum(p, ops.subrange(0, k)) + le_value(data_at(p, ops[k])),
{
    assert(ops.subrange(0, k + 1).drop_last() =~= ops.subrange(0, k));
}

/// The first 20 bytes of a hash equal bytes 20 to 40 of cheque args.
fn sender_prefix_matches(h: &[u8; 32], args: &Vec<u8>) -> (r: bool)
    requires
        args@.len() == 40,
    ensures
        r == (h@.subrange(0, 20) == args@.subrange(20, 40)),
{
    let mut i: usize = 0;
    while i < 20
        invariant
            i <= 20,
            args@.len() == 40,
            h@.len() == 32,
            forall|j: int| 0 <= j < i ==> h@[j] == args@[20 + j],
        decreases 20 - i,
    {
        if h[i] != args[20 + i] {
            assert(h@.subrange(0, 20)[i as int] != args@.subrange(20, 40)[i as int]);
            return false;
        }
        i = i + 1;
    }
    assert(h@.subrange(0, 20) =~= args@.subrange(20, 40));
    true
}

/// Whether a sender lock's hash matches the sender half of cheque lock args.
pub open spec fn sender_matches(sender: ScriptModel, args: Seq<u8>) -> bool {
    &&& args.len() == 40
    &&& script_hash_spec(sender).subrange(0, 20) == args.subrange(20, 40)
}

fn check_cheque_args(sender: &Script, lock: &Script) -> (r: Result<(), BuilderError>)
    ensures
        r is Ok <==> sender_matches(sender@, lock@.args),
        r is Err ==> r->Err_0 is InvalidParameter,
{
    if lock.args.len() != 40 {
        return Err(BuilderError::InvalidParameter("invalid cheque lock args length, expected: 40".to_owned()));
    }
    let h = script_hash(sender);
    if !sender_prefix_matches(&h, &lock.args) {
        return Err(BuilderError::InvalidParameter("sender lock script does not match cheque lock script args".to_owned()));
    }
    Ok(())
}

/// The first rule that a builder's inputs break: a cell could not be had, or a
/// rule of the cheque protocol does not hold.
#[derive(Clone, Copy, Debug, PartialEq, Eq, Structural)]
pub enum CheckFailure {
    Lookup,
    Invalid,
}

/// Whether the error is the one that a failure calls for.
pub open spec fn error_for(e: BuilderError, f: CheckFailure) -> bool {
    match f {
        CheckFailure::Lookup => e is DependencyLookup,
        CheckFailure::Invalid => e is InvalidParameter,
    }
}

/// Claims cheque cells for their receiver.
pub struct ChequeClaimBuilder {
    /// The cheque cells to claim: one lock script and one type script, 16 bytes of data each.
    pub inputs: Vec<CellInput>,
    /// The receiver's cell that takes the tokens; it keeps its lock, type and capacity.
    pub receiver_input: CellInput,
    /// The sender's lock script, whose hash the cheque lock args hold.
    pub sender_lock_script: Script,
}

impl ChequeClaimBuilder {
    /// The cheque inputs' out points.
    pub open spec fn cheque_ops(&self) -> Seq<OutPoint> {
        out_points(self.inputs@)
    }

    /// The receiver cell, as the provider sees it.
    pub open spec fn receiver_cell<P: TransactionDependencyProvider>(&self, p: &P) -> CellOutputModel {
        cell_at(p, self.receiver_input.previous_output)
    }

    /// The lock shared by the cheque cells: that of the first.
    pub open spec fn cheque_lock<P: TransactionDependencyProvider>(&self, p: &P) -> ScriptModel {
        cell_at(p, self.cheque_ops()[0]).lock
    }

    /// Every cell that the claim reads is there.
    pub open spec fn all_present<P: TransactionDependencyProvider>(&self, p: &P) -> bool {
        &&& present(p, self.receiver_input.previous_output)
        &&& forall|i: int| 0 <= i < self.inputs@.len() ==> present(p, #[trigger] self.cheque_ops()[i])
    }

    /// The claim's inputs meet every rule of the cheque protocol.
    pub open spec fn valid<P: TransactionDependencyProvider>(&self, p: &P) -> bool {
        let recv = self.receiver_cell(p);
        &&& self.inputs@.len() > 0
        &&& self.all_present(p)
        &&& recv.type_ is Some
        &&& data_at(p, self.receiver_input.previous_output).len() == 16
        &&& forall|i: int| 0 <= i < self.inputs@.len() ==> {
            let op = #[trigger] self.cheque_ops()[i];
            &&& data_at(p, op).len() == 16
            &&& cell_at(p, op).type_ == recv.type_
            &&& cell_at(p, op).lock == self.cheque_lock(p)
        }
        &&& sender_matches(self.sender_lock_script@, self.cheque_lock(p).args)
        &&& capacity_sum(p, self.cheque_ops()) <= u64::MAX
        &&& amount_sum(p, self.cheque_ops()) + le_value(data_at(p, self.receiver_input.previous_output)) <= u128::MAX
    }

    /// What the check of cheque `j` finds, its running sums included.
    pub open spec fn cheque_failure<P: TransactionDependencyProvider>(&self, p: &P, j: int) -> Option<CheckFailure> {
        let ops = self.cheque_ops();
        let op = ops[j];
        if !present(p, op) {
            Some(CheckFailure::Lookup)
        } else if data_at(p, op).len() != 16 || cell_at(p, op).type_ != self.receiver_cell(p).type_
            || cell_at(p, op).lock != self.cheque_lock(p)
            || amount_sum(p, ops.subrange(0, j + 1)) > u128::MAX
            || capacity_sum(p, ops.subrange(0, j + 1)) > u64::MAX {
            Some(CheckFailure::Invalid)
        } else {
            None
        }
    }

    /// The first failure among the checks of cheques `0..k`.
    pub open spec fn failure_upto<P: TransactionDependencyProvider>(&self, p: &P, k: int) -> Option<CheckFailure>
        decreases k,
    {
        if k <= 0 {
            None
        } else {
            match self.failure_upto(p, k - 1) {
                Some(f) => Some(f),
                None => self.cheque_failure(p, k - 1),
            }
        }
    }

    /// The first failure of the claim's checks, taken in order: the inputs, the
    /// receiver cell, the first cheque cell, each cheque, then the sender lock and
    /// the receiver's new amount.
    pub open spec fn first_failure<P: TransactionDependencyProvider>(&self, p: &P) -> Option<CheckFailure> {
        let recv_op = self.receiver_input.previous_output;
        if self.inputs@.len() == 0 {
            Some(CheckFailure::Invalid)
        } else if !present(p, recv_op) {
            Some(CheckFailure::Lookup)
        } else if self.receiver_cell(p).type_ is None || data_at(p, recv_op).len() != 16 {
            Some(CheckFailure::Invalid)
        } else if p.cell_of(self.cheque_ops()[0]@) is None {
            Some(CheckFailure::Lookup)
        } else {
            match self.failure_upto(p, self.inputs@.len() as int) {
                Some(f) => Some(f),
                None => if !sender_matches(self.sender_lock_script@, self.cheque_lock(p).args)
                    || amount_sum(p, self.cheque_ops()) + le_value(data_at(p, recv_op)) > u128::MAX {
                    Some(CheckFailure::Invalid)
                } else {
                    None
                },
            }
        }
    }

    proof fn lemma_failure_stays<P: TransactionDependencyProvider>(&self, p: &P, j: int, k: int)
        requires
            0 <= j <= k,
            self.failure_upto(p, j) is Some,
        ensures
            self.failure_upto(p, k) == self.failure_upto(p, j),
        decreases k - j,
    {
        if j < k {
            self.lemma_failure_stays(p, j, k - 1);
        }
    }

    /// The scripts whose code deps the claim needs: receiver type, receiver lock, cheque lock.
    pub open spec fn dep_ids<P: TransactionDependencyProvider>(&self, p: &P) -> Seq<ScriptIdModel> {
        seq![
            script_id_of(self.receiver_cell(p).type_->0),
            script_id_of(self.receiver_cell(p).lock),
            script_id_of(self.cheque_lock(p)),
        ]
    }

    /// The claim transaction built from valid inputs.
    pub open spec fn built<R: crate::traits::CellDepResolver, P: TransactionDependencyProvider>(
        &self,
        r: &R,
        p: &P,
        tx: Transaction,
    ) -> bool {
        let recv_op = self.receiver_input.previous_output;
        &&& tx.version == 0
        &&& tx.header_deps@.len() == 0
        &&& tx.witnesses@.len() == 0
        &&& tx.inputs@ == self.inputs@.push(self.receiver_input)
        &&& tx.outputs@.len() == 2
        &&& tx.outputs_data@.len() == 2
        &&& tx.outputs@[0]@ == self.receiver_cell(p)
        &&& tx.outputs@[1]@ == (CellOutputModel {
            capacity: capacity_sum(p, self.cheque_ops()) as u64,
            lock: self.sender_lock_script@,
            type_: None,
        })
        &&& tx.outputs_data@[0]@.len() == 16
        &&& le_value(tx.outputs_data@[0]@) == le_value(data_at(p, recv_op)) + amount_sum(p, self.cheque_ops())
        &&& tx.outputs_data@[1]@.len() == 0
        &&& deps_exactly(r, tx.cell_deps@, self.dep_ids(p))
    }

    /// Builds the claim: the cheque inputs then the receiver input; the receiver
    /// cell again, holding the sum of the amounts; and a plain cell returning the
    /// cheques' capacity to the sender.
    #[verifier::loop_isolation(false)]
    pub fn build_base<R: crate::traits::CellDepResolver, P: TransactionDependencyProvider>(
        &self,
        resolver: &R,
        provider: &P,
    ) -> (res: Result<Transaction, BuilderError>)
        ensures
            self.inputs@.len() == 0 ==> (res matches Err(e) && e is InvalidParameter),
            res is Ok <==> (self.valid(provider) && all_resolved(resolver, self.dep_ids(provider))),
            res is Ok ==> self.built(resolver, provider, res->Ok_0),
            res is Ok ==> capacity_sum(provider, out_points(res->Ok_0.inputs@))
                == res->Ok_0.outputs@[0].capacity + res->Ok_0.outputs@[1].capacity,
            res matches Err(e) ==> match e {
                BuilderError::InvalidParameter(_) => !self.valid(provider),
                BuilderError::DependencyLookup(_) => !self.all_present(provider),
                BuilderError::ResolveCellDepFailed(id) => self.valid(provider)
                    && resolver.resolved(id@) is None
                    && first_unresolved(resolver, self.dep_ids(provider), id@),
            },
            self.first_failure(provider) is Some <==> (res matches Err(e) && !(e is ResolveCellDepFailed)),
            self.first_failure(provider) is Some ==> error_for(res->Err_0, self.first_failure(provider)->0),
    {
        if self.inputs.len() == 0 {
            return Err(BuilderError::InvalidParameter("empty cheque inputs".to_owned()));
        }
        let ghost ops = self.cheque_ops();
        let recv_op = self.receiver_input.previous_output;
        let receiver_cell = match provider.get_cell(&recv_op) {
            Ok(c) => c,
            Err(e) => return Err(BuilderError::DependencyLookup(e)),
        };
        let receiver_data = match provider.get_cell_data(&recv_op) {
            Ok(d) => d,
            Err(e) => return Err(BuilderError::DependencyLookup(e)),
        };
        let receiver_type = match &receiver_cell.type_ {
            Some(t) => t,
            None => return Err(BuilderError::InvalidParameter("receiver input missing type script".to_owned())),
        };
        if receiver_data.len() != 16 {
            return Err(BuilderError::InvalidParameter("invalid receiver input cell data length, expected: 16".to_owned()));
        }
        let receiver_amount = decode_amount(receiver_data.as_slice());

        let first_op = self.inputs[0].previous_output;
        assert(ops[0] == first_op);
        let cheque_lock = match provider.get_cell(&first_op) {
            Ok(c) => c.lock,
            Err(e) => return Err(BuilderError::DependencyLookup(e)),
        };
        let mut total_amount: u128 = 0;
        let mut total_capacity: u64 = 0;
        let mut k: usize = 0;
        while k < self.inputs.len()
            invariant
                k <= self.inputs@.len(),
                ops == self.cheque_ops(),
                ops.len() == self.inputs@.len(),
                cheque_lock@ == self.cheque_lock(provider),
                present(provider, recv_op),
                receiver_cell@ == self.receiver_cell(provider),
                receiver_cell.type_ == Some(*receiver_type),
                forall|i: int| 0 <= i < k ==> {
                    let op = #[trigger] ops[i];
                    &&& present(provider, op)
                    &&& data_at(provider, op).len() == 16
                    &&& cell_at(provider, op).type_ == self.receiver_cell(provider).type_
                    &&& cell_at(provider, op).lock == self.cheque_lock(provider)
                },
                total_amount as int == amount_sum(provider, ops.subrange(0, k as int)),
                total_capacity as int == capacity_sum(provider, ops.subrange(0, k as int)),
                self.failure_upto(provider, k as int) is None,
            decreases self.inputs@.len() - k,
        {
            let op = self.inputs[k].previous_output;
            assert(ops[k as int] == op);
            let cell = match provider.get_cell(&op) {
                Ok(c) => c,
                Err(e) => {
                    proof { self.lemma_failure_stays(provider, k + 1, ops.len() as int); }
                    return Err(BuilderError::DependencyLookup(e));
                },
            };
            let data = match provider.get_cell_data(&op) {
                Ok(d) => d,
                Err(e) => {
                    proof { self.lemma_failure_stays(provider, k + 1, ops.len() as int); }
                    return Err(BuilderError::DependencyLookup(e));
                },
            };
            if data.len() != 16 {
                proof { self.lemma_failure_stays(provider, k + 1, ops.len() as int); }
                return Err(BuilderError::InvalidParameter("invalid cheque input cell data length, expected: 16".to_owned()));
            }
            let same_type = match &cell.type_ {
                Some(t) => t.same_as(receiver_type),
                None => false,
            };
            if !same_type {
                proof { self.lemma_failure_stays(provider, k + 1, ops.len() as int); }
                return Err(BuilderError::InvalidParameter("cheque input's type script not same with receiver input's type script".to_owned()));
            }
            if !cell.lock.same_as(&cheque_lock) {
                proof { self.lemma_failure_stays(provider, k + 1, ops.len() as int); }
                return Err(BuilderError::InvalidParameter("all cheque input lock script must be the same".to_owned()));
            }
            let amount = decode_amount(data.as_slice());
            proof {
                lemma_sums_step(provider, ops, k as int);
                lemma_sums_mono(provider, ops, k + 1);
            }
            if amount > u128::MAX - total_amount {
                proof { self.lemma_failure_stays(provider, k + 1, ops.len() as int); }
                return Err(BuilderError::InvalidParameter("cheque amount overflow".to_owned()));
            }
            if cell.capacity > u64::MAX - total_capacity {
                proof { self.lemma_failure_stays(provider, k + 1, ops.len() as int); }
                return Err(BuilderError::InvalidParameter("cheque capacity overflow".to_owned()));
            }
            total_amount = total_amount + amount;
            total_capacity = total_capacity + cell.capacity;
            k = k + 1;
        }
        assert(ops.subrange(0, ops.len() as int) =~= ops);
        check_cheque_args(&self.sender_lock_script, &cheque_lock)?;
        if receiver_amount > u128::MAX - total_amount {
            return Err(BuilderError::InvalidParameter("receiver amount overflow".to_owned()));
        }
        let ids: Vec<ScriptId> = vec![
            ScriptId::from_script(receiver_type),
            ScriptId::from_script(&receiver_cell.lock),
            ScriptId::from_script(&cheque_lock),
        ];
        assert(ids@.map_values(|i: ScriptId| i@) =~= self.dep_ids(provider));
        let cell_deps = resolve_all(resolver, &ids)?;

        let mut inputs = self.inputs.clone();
        inputs.push(self.receiver_input);
        let receiver_output = clone_cell_output(&receiver_cell);
        let sender_output = CellOutput::new(total_capacity, clone_script(&self.sender_lock_script), None);
        let receiver_output_data = encode_amount(receiver_amount + total_amount);
        let tx = Transaction {
            version: 0,
            cell_deps,
            header_deps: Vec::new(),
            inputs,
            outputs: vec![receiver_output, sender_output],
            outputs_data: vec![receiver_output_data, Vec::new()],
            witnesses: Vec::new(),
        };
        proof {
            let ins = tx.inputs@;
            assert(out_points(ins).drop_last() =~= ops);
        }
        Ok(tx)
    }
}

/// Withdraws cheque cells back to their sender after the time lock.
pub struct ChequeWithdrawBuilder {
    /// The cheque cells to withdraw: one lock script and one type script, 16 bytes of data each.
    pub out_points: Vec<OutPoint>,
    /// The sender's lock script, whose hash the cheque lock args hold.
    pub sender_lock_script: Script,
}

impl ChequeWithdrawBuilder {
    /// The lock shared by the cheque cells: that of the first.
    pub open spec fn cheque_lock<P: TransactionDependencyProvider>(&self, p: &P) -> ScriptModel {
        cell_at(p, self.out_points@[0]).lock
    }

    /// The type script shared by the cheque cells: that of the first.
    pub open spec fn cheque_type<P: TransactionDependencyProvider>(&self, p: &P) -> Option<ScriptModel> {
        cell_at(p, self.out_points@[0]).type_
    }

    /// Every cell that the withdraw reads is there.
    pub open spec fn all_present<P: TransactionDependencyProvider>(&self, p: &P) -> bool {
        forall|i: int| 0 <= i < self.out_points@.len() ==> present(p, #[trigger] self.out_points@[i])
    }

    /// The withdraw's inputs meet every rule of the cheque protocol.
    pub open spec fn valid<P: TransactionDependencyProvider>(&self, p: &P) -> bool {
        &&& self.out_points@.len() > 0
        &&& self.all_present(p)
        &&& self.cheque_type(p) is Some
        &&& forall|i: int| 0 <= i < self.out_points@.len() ==> {
            let op = #[trigger] self.out_points@[i];
            &&& data_at(p, op).len() == 16
            &&& cell_at(p, op).type_ == self.cheque_type(p)
            &&& cell_at(p, op).lock == self.cheque_lock(p)
        }
        &&& sender_matches(self.sender_lock_script@, self.cheque_lock(p).args)
        &&& capacity_sum(p, self.out_points@) <= u64::MAX
        &&& amount_sum(p, self.out_points@) <= u128::MAX
    }

    /// What the check of cheque `j` finds, its running sums included.
    pub open spec fn cheque_failure<P: TransactionDependencyProvider>(&self, p: &P, j: int) -> Option<CheckFailure> {
        let ops = self.out_points@;
        let op = ops[j];
        if !present(p, op) {
            Some(CheckFailure::Lookup)
        } else if cell_at(p, op).type_ != self.cheque_type(p) || cell_at(p, op).lock != self.cheque_lock(p)
            || data_at(p, op).len() != 16
            || amount_sum(p, ops.subrange(0, j + 1)) > u128::MAX
            || capacity_sum(p, ops.subrange(0, j + 1)) > u64::MAX {
            Some(CheckFailure::Invalid)
        } else {
            None
        }
    }

    /// The first failure among the checks of cheques `0..k`.
    pub open spec fn failure_upto<P: TransactionDependencyProvider>(&self, p: &P, k: int) -> Option<CheckFailure>
        decreases k,
    {
        if k <= 0 {
            None
        } else {
            match self.failure_upto(p, k - 1) {
                Some(f) => Some(f),
                None => self.cheque_failure(p, k - 1),
            }
        }
    }

    /// The first failure of the withdraw's checks, taken in order: the inputs, the
    /// first cheque cell and its type, each cheque, then the sender lock.
    pub open spec fn first_failure<P: TransactionDependencyProvider>(&self, p: &P) -> Option<CheckFailure> {
        if self.out_points@.len() == 0 {
            Some(CheckFailure::Invalid)
        } else if p.cell_of(self.out_points@[0]@) is None {
            Some(CheckFailure::Lookup)
        } else if self.cheque_type(p) is None {
            Some(CheckFailure::Invalid)
        } else {
            match self.failure_upto(p, self.out_points@.len() as int) {
                Some(f) => Some(f),
                None => if !sender_matches(self.sender_lock_script@, self.cheque_lock(p).args) {
                    Some(CheckFailure::Invalid)
                } else {
                    None
                },
            }
        }
    }

    proof fn lemma_failure_stays<P: TransactionDependencyProvider>(&self, p: &P, j: int, k: int)
        requires
            0 <= j <= k,
            self.failure_upto(p, j) is Some,
        ensures
            self.failure_upto(p, k) == self.failure_upto(p, j),
        decreases k - j,
    {
        if j < k {
            self.lemma_failure_stays(p, j, k - 1);
        }
    }

    /// The scripts whose code deps the withdraw needs: cheque lock, then type.
    pub open spec fn dep_ids<P: TransactionDependencyProvider>(&self, p: &P) -> Seq<ScriptIdModel> {
        seq![script_id_of(self.cheque_lock(p)), script_id_of(self.cheque_type(p)->0)]
    }

    /// The withdraw transaction built from valid inputs.
    pub open spec fn built<R: crate::traits::CellDepResolver, P: TransactionDependencyProvider>(
        &self,
        r: &R,
        p: &P,
        tx: Transaction,
    ) -> bool {
        &&& tx.version == 0
        &&& tx.header_deps@.len() == 0
        &&& tx.witnesses@.len() == 0
        &&& tx.inputs@.len() == self.out_points@.len()
        &&& forall|i: int| 0 <= i < tx.inputs@.len() ==> #[trigger] tx.inputs@[i] == (CellInput {
            previous_output: self.out_points@[i],
            since: CHEQUE_CELL_SINCE,
        })
        &&& tx.outputs@.len() == 1
        &&& tx.outputs_data@.len() == 1
        &&& tx.outputs@[0]@ == (CellOutputModel {
            capacity: capacity_sum(p, self.out_points@) as u64,
            lock: self.sender_lock_script@,
            type_: self.cheque_type(p),
        })
        &&& tx.outputs_data@[0]@.len() == 16
        &&& le_value(tx.outputs_data@[0]@) == amount_sum(p, self.out_points@)
        &&& deps_exactly(r, tx.cell_deps@, self.dep_ids(p))
    }

    /// Builds the withdraw: each cheque as an input under the cheque time lock,
    /// and one cell for the sender with the cheques' type, capacity and amount.
    #[verifier::loop_isolation(false)]
    pub fn build_base<R: crate::traits::CellDepResolver, P: TransactionDependencyProvider>(
        &self,
        resolver: &R,
        provider: &P,
    ) -> (res: Result<Transaction, BuilderError>)
        ensures
            self.out_points@.len() == 0 ==> (res matches Err(e) && e is InvalidParameter),
            res is Ok <==> (self.valid(provider) && all_resolved(resolver, self.dep_ids(provider))),
            res is Ok ==> self.built(resolver, provider, res->Ok_0),
            res is Ok ==> capacity_sum(provider, out_points(res->Ok_0.inputs@)) == res->Ok_0.outputs@[0].capacity,
            res matches Err(e) ==> match e {
                BuilderError::InvalidParameter(_) => !self.valid(provider),
                BuilderError::DependencyLookup(_) => !self.all_present(provider),
                BuilderError::ResolveCellDepFailed(id) => self.valid(provider)
                    && resolver.resolved(id@) is None
                    && first_unresolved(resolver, self.dep_ids(provider), id@),
            },
            self.first_failure(provider) is Some <==> (res matches Err(e) && !(e is ResolveCellDepFailed)),
            self.first_failure(provider) is Some ==> error_for(res->Err_0, self.first_failure(provider)->0),
    {
        if self.out_points.len() == 0 {
            return Err(BuilderError::InvalidParameter("empty withdraw inputs".to_owned()));
        }
        let ghost ops = self.out_points@;
        let first = match provider.get_cell(&self.out_points[0]) {
            Ok(c) => c,
            Err(e) => return Err(BuilderError::DependencyLookup(e)),
        };
        let cheque_lock = first.lock;
        let cheque_type = match first.type_ {
            Some(t) => t,
            None => return Err(BuilderError::InvalidParameter("cheque input missing type script".to_owned())),
        };
        let mut inputs: Vec<CellInput> = Vec::new();
        let mut total_amount: u128 = 0;
        let mut total_capacity: u64 = 0;
        let mut k: usize = 0;
        while k < self.out_points.len()
            invariant
                k <= ops.len(),
                ops == self.out_points@,
                cheque_lock@ == self.cheque_lock(provider),
                Some(cheque_type@) == self.cheque_type(provider),
                inputs@.len() == k,
                forall|i: int| 0 <= i < k ==> #[trigger] inputs@[i] == (CellInput {
                    previous_output: ops[i],
                    since: CHEQUE_CELL_SINCE,
                }),
                forall|i: int| 0 <= i < k ==> {
                    let op = #[trigger] ops[i];
                    &&& present(provider, op)
                    &&& data_at(provider, op).len() == 16
                    &&& cell_at(provider, op).type_ == self.cheque_type(provider)
                    &&& cell_at(provider, op).lock == self.cheque_lock(provider)
                },
                total_amount as int == amount_sum(provider, ops.subrange(0, k as int)),
                total_capacity as int == capacity_sum(provider, ops.subrange(0, k as int)),
                self.failure_upto(provider, k as int) is None,
            decreases ops.len() - k,
        {
            let op = self.out_points[k];
            let cell = match provider.get_cell(&op) {
                Ok(c) => c,
                Err(e) => {
                    proof { self.lemma_failure_stays(provider, k + 1, ops.len() as int); }
                    return Err(BuilderError::DependencyLookup(e));
                },
            };
            let data = match provider.get_cell_data(&op) {
                Ok(d) => d,
                Err(e) => {
                    proof { self.lemma_failure_stays(provider, k + 1, ops.len() as int); }
                    return Err(BuilderError::DependencyLookup(e));
                },
            };
            let same_type = match &cell.type_ {
                Some(t) => t.same_as(&cheque_type),
                None => false,
            };
            if !same_type {
                proof { self.lemma_failure_stays(provider, k + 1, ops.len() as int); }
                return Err(BuilderError::InvalidParameter("all cheque input type script must be the same".to_owned()));
            }
            if !cell.lock.same_as(&cheque_lock) {
                proof { self.lemma_failure_stays(provider, k + 1, ops.len() as int); }
                return Err(BuilderError::InvalidParameter("all cheque input lock script must be the same".to_owned()));
            }
            if data.len() != 16 {
                proof { self.lemma_failure_stays(provider, k + 1, ops.len() as int); }
                return Err(BuilderError::InvalidParameter("invalid cheque input cell data length, expected: 16".to_owned()));
            }
            let amount = decode_amount(data.as_slice());
            proof {
                lemma_sums_step(provider, ops, k as int);
                lemma_sums_mono(provider, ops, k + 1);
            }
            if amount > u128::MAX - total_amount {
                proof { self.lemma_failure_stays(provider, k + 1, ops.len() as int); }
                return Err(BuilderError::InvalidParameter("cheque amount overflow".to_owned()));
            }
            if cell.capacity > u64::MAX - total_capacity {
                proof { self.lemma_failure_stays(provider, k + 1, ops.len() as int); }
                return Err(BuilderError::InvalidParameter("cheque capacity overflow".to_owned()));
            }
            total_amount = total_amount + amount;
            total_capacity = total_capacity + cell.capacity;
            inputs.push(CellInput::new(op, CHEQUE_CELL_SINCE));
            k = k + 1;
        }
        assert(ops.subrange(0, ops.len() as int) =~= ops);
        check_cheque_args(&self.sender_lock_script, &cheque_lock)?;
        let ids: Vec<ScriptId> = vec![ScriptId::from_script(&cheque_lock), ScriptId::from_script(&cheque_type)];
        assert(ids@.map_values(|i: ScriptId| i@) =~= self.dep_ids(provider));
        let cell_deps = resolve_all(resolver, &ids)?;
        let sender_output = CellOutput::new(total_capacity, clone_script(&self.sender_lock_script), Some(cheque_type));
        let tx = Transaction {
            version: 0,
            cell_deps,
            header_deps: Vec::new(),
            inputs,
            outputs: vec![sender_output],
            outputs_data: vec![encode_amount(total_amount)],
            witnesses: Vec::new(),
        };
        assert(out_points(tx.inputs@) =~= ops);
        Ok(tx)
    }
}

} // verus!
