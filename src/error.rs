use vstd::prelude::*;

verus! {

/// Why a coordinator refused or could not complete an operation.
#[derive(Debug, Clone, Copy, PartialEq, Eq, Structural)]
pub enum ChcError {
    /// The transaction id handed in is not the number of committed transactions.
    WrongTransactionId,
    /// The first item of a batch does not name the current head as its parent.
    HashMismatch,
    /// The item at this index of a batch breaks the chain.
    InvalidChain(usize),
    /// No answer came back: `None` when the exchange itself failed (connection,
    /// timeout), `Some(status)` when the service answered with a failure status
    /// and no error of its own.
    ServiceUnreachable(Option<u16>),
    /// An answer came back that the wire schema cannot read.
    DeserializationError,
}

} // verus!
