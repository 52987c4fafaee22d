//! The collaborators that builders and signers consume.

use vstd::prelude::*;
use crate::types::{CellDep, CellDepModel, CellOutput, CellOutputModel, OutPoint, OutPointModel, ScriptId, ScriptIdModel, Transaction};

verus! {

/// Why a cell or its data could not be had.
#[derive(Clone, Debug)]
pub enum TransactionDependencyError {
    NotFound(String),
    Other(String),
}

/// Why the wallet could not sign.
#[derive(Clone, Debug)]
pub enum WalletError {
    IdNotFound,
    Other(String),
}

/// The model of an optional cell dep.
pub open spec fn opt_dep_view(d: Option<CellDep>) -> Option<CellDepModel> {
    match d {
        Some(x) => Some(x@),
        None => None,
    }
}

/// Looks up the code dep of a script id.
///
/// The `spec` methods of these traits are the models that the library's
/// contracts speak of; an implementation outside verified code gives them
/// bodies that are never run.
pub trait CellDepResolver {
    /// The dep that this resolver holds for an id, if any.
    spec fn resolved(&self, id: ScriptIdModel) -> Option<CellDepModel>;

    fn resolve(&self, id: &ScriptId) -> (r: Option<CellDep>)
        ensures
            opt_dep_view(r) == self.resolved(id@),
    ;
}

/// Supplies the cells that a transaction consumes.
pub trait TransactionDependencyProvider {
    /// The live cell at an out point, as this provider sees it.
    spec fn cell_of(&self, op: OutPointModel) -> Option<CellOutputModel>;

    /// The data of the live cell at an out point, as this provider sees it.
    spec fn data_of(&self, op: OutPointModel) -> Option<Seq<u8>>;

    fn get_cell(&self, op: &OutPoint) -> (r: Result<CellOutput, TransactionDependencyError>)
        ensures
            r is Ok <==> self.cell_of(op@) is Some,
            r is Ok ==> self.cell_of(op@) == Some(r->Ok_0@),
    ;

    fn get_cell_data(&self, op: &OutPoint) -> (r: Result<Vec<u8>, TransactionDependencyError>)
        ensures
            r is Ok <==> self.data_of(op@) is Some,
            r is Ok ==> self.data_of(op@) == Some(r->Ok_0@),
    ;
}

/// Holds the keys; signs messages for the ids it knows.
pub trait Wallet {
    /// Whether this wallet holds the key of an id.
    spec fn knows(&self, id: Seq<u8>) -> bool;

    /// The signature that this wallet makes over a message for an id.
    spec fn signature_of(&self, id: Seq<u8>, message: Seq<u8>) -> Seq<u8>;

    fn match_id(&self, id: &[u8]) -> (r: bool)
        ensures
            r == self.knows(id@),
    ;

    /// Signs a message for an id; the transaction and the provider are there for
    /// wallets that show or check what they sign.
    fn sign<P: TransactionDependencyProvider>(
        &self,
        id: &[u8],
        message: &[u8],
        tx: &Transaction,
        tx_dep_provider: &P,
    ) -> (r: Result<Vec<u8>, WalletError>)
        ensures
            r is Ok ==> r->Ok_0@ == self.signature_of(id@, message@),
            r is Ok ==> r->Ok_0@.len() == 65,
    ;
}

} // verus!
