//! Plain-value model of the chain's scripts, cells and transactions.

use vstd::prelude::*;

verus! {

/// How a script's code hash is matched against cells on chain.
#[derive(Clone, Copy, Debug, PartialEq, Eq, Structural)]
pub enum ScriptHashType {
    Data,
    Type,
    Data1,
}

impl ScriptHashType {
    /// The byte that stands for this hash type in the chain's encoding.
    pub open spec fn spec_byte(self) -> u8 {
        match self {
            ScriptHashType::Data => 0u8,
            ScriptHashType::Type => 1u8,
            ScriptHashType::Data1 => 2u8,
        }
    }

    pub fn to_byte(self) -> (r: u8)
        ensures
            r == self.spec_byte(),
    {
        match self {
            ScriptHashType::Data => 0u8,
            ScriptHashType::Type => 1u8,
            ScriptHashType::Data1 => 2u8,
        }
    }
}

/// Byte-wise equality of two byte strings.
pub fn bytes_eq(a: &[u8], b: &[u8]) -> (r: bool)
    ensures
        r == (a@ == b@),
{
    if a.len() != b.len() {
        return false;
    }
    let mut i: usize = 0;
    while i < a.len()
        invariant
            a@.len() == b@.len(),
            i <= a@.len(),
            a@.subrange(0, i as int) == b@.subrange(0, i as int),
        decreases a@.len() - i,
    {
        if a[i] != b[i] {
            assert(a@[i as int] != b@[i as int]);
            return false;
        }
        assert(a@.subrange(0, i + 1) == a@.subrange(0, i as int).push(a@[i as int]));
        assert(b@.subrange(0, i + 1) == b@.subrange(0, i as int).push(b@[i as int]));
        i = i + 1;
    }
    assert(a@ == a@.subrange(0, a@.len() as int));
    assert(b@ == b@.subrange(0, b@.len() as int));
    true
}

/// The bytes of `a` from position `from` up to `to`.
pub fn sub_bytes(a: &[u8], from: usize, to: usize) -> (r: Vec<u8>)
    requires
        from <= to <= a@.len(),
    ensures
        r@ == a@.subrange(from as int, to as int),
{
    let mut out: Vec<u8> = Vec::new();
    let mut k: usize = from;
    while k < to
        invariant
            from <= k <= to,
            to <= a@.len(),
            out@ == a@.subrange(from as int, k as int),
        decreases to - k,
    {
        out.push(a[k]);
        assert(a@.subrange(from as int, k + 1) =~= a@.subrange(from as int, k as int).push(a@[k as int]));
        k = k + 1;
    }
    out
}

/// A script: the code it runs (code hash and hash type) and its arguments.
#[derive(Clone, Debug)]
pub struct Script {
    pub code_hash: [u8; 32],
    pub hash_type: ScriptHashType,
    pub args: Vec<u8>,
}

/// Mathematical value of a script.
pub struct ScriptModel {
    pub code_hash: Seq<u8>,
    pub hash_type: ScriptHashType,
    pub args: Seq<u8>,
}

impl View for Script {
    type V = ScriptModel;

    open spec fn view(&self) -> ScriptModel {
        ScriptModel { code_hash: self.code_hash@, hash_type: self.hash_type, args: self.args@ }
    }
}

impl Script {
    pub fn new(code_hash: [u8; 32], hash_type: ScriptHashType, args: Vec<u8>) -> (r: Script)
        ensures
            r.code_hash == code_hash,
            r.hash_type == hash_type,
            r.args == args,
    {
        Script { code_hash, hash_type, args }
    }

    /// Two scripts are equal when code hash, hash type and args are.
    pub fn same_as(&self, other: &Script) -> (r: bool)
        ensures
            r == (self@ == other@),
    {
        bytes_eq(self.code_hash.as_slice(), other.code_hash.as_slice())
            && self.hash_type == other.hash_type
            && bytes_eq(self.args.as_slice(), other.args.as_slice())
    }
}

/// The identity of a script's code: code hash and hash type, without args.
#[derive(Clone, Copy, Debug)]
pub struct ScriptId {
    pub code_hash: [u8; 32],
    pub hash_type: ScriptHashType,
}

/// Mathematical value of a script id.
pub struct ScriptIdModel {
    pub code_hash: Seq<u8>,
    pub hash_type: ScriptHashType,
}

impl View for ScriptId {
    type V = ScriptIdModel;

    open spec fn view(&self) -> ScriptIdModel {
        ScriptIdModel { code_hash: self.code_hash@, hash_type: self.hash_type }
    }
}

/// The id of a script value.
pub open spec fn script_id_of(s: ScriptModel) -> ScriptIdModel {
    ScriptIdModel { code_hash: s.code_hash, hash_type: s.hash_type }
}

impl ScriptId {
    pub fn new(code_hash: [u8; 32], hash_type: ScriptHashType) -> (r: ScriptId)
        ensures
            r.code_hash == code_hash,
            r.hash_type == hash_type,
    {
        ScriptId { code_hash, hash_type }
    }

    /// The id of a script.
    pub fn from_script(s: &Script) -> (r: ScriptId)
        ensures
            r@ == script_id_of(s@),
    {
        ScriptId { code_hash: s.code_hash, hash_type: s.hash_type }
    }
}

/// A reference to an output of a transaction: its hash and the output's index.
#[derive(Clone, Copy, Debug)]
pub struct OutPoint {
    pub tx_hash: [u8; 32],
    pub index: u32,
}

/// Mathematical value of an out point.
pub struct OutPointModel {
    pub tx_hash: Seq<u8>,
    pub index: u32,
}

impl View for OutPoint {
    type V = OutPointModel;

    open spec fn view(&self) -> OutPointModel {
        OutPointModel { tx_hash: self.tx_hash@, index: self.index }
    }
}

impl OutPoint {
    pub fn new(tx_hash: [u8; 32], index: u32) -> (r: OutPoint)
        ensures
            r.tx_hash == tx_hash,
            r.index == index,
    {
        OutPoint { tx_hash, index }
    }

    pub fn same_as(&self, other: &OutPoint) -> (r: bool)
        ensures
            r == (self@ == other@),
    {
        bytes_eq(self.tx_hash.as_slice(), other.tx_hash.as_slice()) && self.index == other.index
    }
}

/// An input of a transaction: the cell it consumes and its time lock.
#[derive(Clone, Copy, Debug)]
pub struct CellInput {
    pub previous_output: OutPoint,
    pub since: u64,
}

/// Mathematical value of a cell input.
pub struct CellInputModel {
    pub previous_output: OutPointModel,
    pub since: u64,
}

impl View for CellInput {
    type V = CellInputModel;

    open spec fn view(&self) -> CellInputModel {
        CellInputModel { previous_output: self.previous_output@, since: self.since }
    }
}

impl CellInput {
    pub fn new(previous_output: OutPoint, since: u64) -> (r: CellInput)
        ensures
            r.previous_output == previous_output,
            r.since == since,
    {
        CellInput { previous_output, since }
    }
}

/// A cell's capacity, lock script and optional type script (its data is held apart).
#[derive(Clone, Debug)]
pub struct CellOutput {
    pub capacity: u64,
    pub lock: Script,
    pub type_: Option<Script>,
}

/// Mathematical value of a cell output.
pub struct CellOutputModel {
    pub capacity: u64,
    pub lock: ScriptModel,
    pub type_: Option<ScriptModel>,
}

/// The model of an optional script.
pub open spec fn opt_script_view(s: Option<Script>) -> Option<ScriptModel> {
    match s {
        Some(x) => Some(x@),
        None => None,
    }
}

impl View for CellOutput {
    type V = CellOutputModel;

    open spec fn view(&self) -> CellOutputModel {
        CellOutputModel {
            capacity: self.capacity,
            lock: self.lock@,
            type_: opt_script_view(self.type_),
        }
    }
}

/// A copy of a script whose value is the same.
pub fn clone_script(s: &Script) -> (r: Script)
    ensures
        r@ == s@,
{
    Script { code_hash: s.code_hash, hash_type: s.hash_type, args: s.args.clone() }
}

/// A copy of an optional script whose value is the same.
pub fn clone_opt_script(s: &Option<Script>) -> (r: Option<Script>)
    ensures
        opt_script_view(r) == opt_script_view(*s),
{
    match s {
        Some(x) => Some(clone_script(x)),
        None => None,
    }
}

/// A copy of a cell output whose value is the same.
pub fn clone_cell_output(c: &CellOutput) -> (r: CellOutput)
    ensures
        r@ == c@,
{
    CellOutput { capacity: c.capacity, lock: clone_script(&c.lock), type_: clone_opt_script(&c.type_) }
}

impl CellOutput {
    pub fn new(capacity: u64, lock: Script, type_: Option<Script>) -> (r: CellOutput)
        ensures
            r.capacity == capacity,
            r.lock == lock,
            r.type_ == type_,
    {
        CellOutput { capacity, lock, type_ }
    }
}

/// How a cell dep is to be read: as the code cell itself, or as a group of deps.
#[derive(Clone, Copy, Debug, PartialEq, Eq, Structural)]
pub enum DepType {
    Code,
    DepGroup,
}

/// A code dependency of a transaction.
#[derive(Clone, Copy, Debug)]
pub struct CellDep {
    pub out_point: OutPoint,
    pub dep_type: DepType,
}

/// Mathematical value of a cell dep.
pub struct CellDepModel {
    pub out_point: OutPointModel,
    pub dep_type: DepType,
}

impl View for CellDep {
    type V = CellDepModel;

    open spec fn view(&self) -> CellDepModel {
        CellDepModel { out_point: self.out_point@, dep_type: self.dep_type }
    }
}

impl CellDep {
    pub fn new(out_point: OutPoint, dep_type: DepType) -> (r: CellDep)
        ensures
            r.out_point == out_point,
            r.dep_type == dep_type,
    {
        CellDep { out_point, dep_type }
    }

    pub fn same_as(&self, other: &CellDep) -> (r: bool)
        ensures
            r == (self@ == other@),
    {
        self.out_point.same_as(&other.out_point) && self.dep_type == other.dep_type
    }
}

/// A transaction: deps, inputs, outputs with their data, and witnesses.
#[derive(Clone, Debug)]
pub struct Transaction {
    pub version: u32,
    pub cell_deps: Vec<CellDep>,
    pub header_deps: Vec<[u8; 32]>,
    pub inputs: Vec<CellInput>,
    pub outputs: Vec<CellOutput>,
    pub outputs_data: Vec<Vec<u8>>,
    pub witnesses: Vec<Vec<u8>>,
}

/// The part of a transaction that its hash covers: all but the witnesses.
pub struct RawTransactionModel {
    pub version: u32,
    pub cell_deps: Seq<CellDepModel>,
    pub header_deps: Seq<Seq<u8>>,
    pub inputs: Seq<CellInputModel>,
    pub outputs: Seq<CellOutputModel>,
    pub outputs_data: Seq<Seq<u8>>,
}

impl Transaction {
    pub open spec fn raw_model(&self) -> RawTransactionModel {
        RawTransactionModel {
            version: self.version,
            cell_deps: self.cell_deps@.map_values(|d: CellDep| d@),
            header_deps: self.header_deps@.map_values(|h: [u8; 32]| h@),
            inputs: self.inputs@.map_values(|i: CellInput| i@),
            outputs: self.outputs@.map_values(|o: CellOutput| o@),
            outputs_data: self.outputs_data@.map_values(|d: Vec<u8>| d@),
        }
    }

    /// The witnesses as byte strings.
    pub open spec fn witness_seq(&self) -> Seq<Seq<u8>> {
        self.witnesses@.map_values(|w: Vec<u8>| w@)
    }
}

/// The three optional fields of a witness record.
#[derive(Clone, Debug)]
pub struct WitnessArgs {
    pub lock: Option<Vec<u8>>,
    pub input_type: Option<Vec<u8>>,
    pub output_type: Option<Vec<u8>>,
}

/// The model of an optional byte string.
pub open spec fn opt_bytes_view(b: Option<Vec<u8>>) -> Option<Seq<u8>> {
    match b {
        Some(v) => Some(v@),
        None => None,
    }
}

/// Mathematical value of a witness record.
pub struct WitnessArgsModel {
    pub lock: Option<Seq<u8>>,
    pub input_type: Option<Seq<u8>>,
    pub output_type: Option<Seq<u8>>,
}

impl View for WitnessArgs {
    type V = WitnessArgsModel;

    open spec fn view(&self) -> WitnessArgsModel {
        WitnessArgsModel {
            lock: opt_bytes_view(self.lock),
            input_type: opt_bytes_view(self.input_type),
            output_type: opt_bytes_view(self.output_type),
        }
    }
}

impl WitnessArgs {
    /// The record with all three fields absent.
    pub fn empty() -> (r: WitnessArgs)
        ensures
            r.lock is None,
            r.input_type is None,
            r.output_type is None,
    {
        WitnessArgs { lock: None, input_type: None, output_type: None }
    }
}

/// The inputs of a transaction that one signer acts on, sharing one script.
#[derive(Clone, Debug)]
pub struct ScriptGroup {
    pub script: Script,
    pub input_indices: Vec<usize>,
    pub output_indices: Vec<usize>,
}

} // verus!
