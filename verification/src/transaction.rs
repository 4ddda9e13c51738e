//! The typed transaction records that one input row denotes.
use vstd::prelude::*;

use crate::amount::Amount;
use crate::client::ClientId;

verus! {

/// Identifies a transfer record; unique across the whole input stream.
#[derive(Clone, Copy, Debug, PartialEq, Eq, Structural, Hash)]
pub struct TransactionId(pub u32);

/// A deposit or a withdrawal. It is kept for the rest of the run, both so
/// that later dispute-class records can refer to it and so that a second
/// record with the same id can be recognized and ignored.
#[derive(Clone, Copy, Debug)]
pub struct Transfer {
    pub id: TransactionId,
    pub client_id: ClientId,
    pub typ: TransferType,
}

/// The two kinds of transfer. Only a deposit can be disputed, so only the
/// deposit side carries dispute state.
#[derive(Clone, Copy, Debug)]
pub enum TransferType {
    Deposit(DepositedTransaction),
    Withdrawal { amount: Amount },
}

/// The stored side of a deposit: its amount and whether it is currently
/// under dispute.
#[derive(Clone, Copy, Debug)]
pub struct DepositedTransaction {
    pub amount: Amount,
    pub disputed: bool,
}

/// A dispute, resolve or chargeback instruction referring to an earlier
/// transfer. It is consumed immediately, never stored.
#[derive(Clone, Copy, Debug)]
pub struct Dispute {
    pub disputed_tx_id: TransactionId,
    pub client_id: ClientId,
    pub state: DisputeState,
}

/// Which step of the dispute lifecycle an instruction asks for.
#[derive(Clone, Copy, Debug, PartialEq, Eq, Structural)]
pub enum DisputeState {
    Dispute,
    Resolve,
    Chargeback,
}

/// The amount a transfer moves, whichever kind it is.
pub open spec fn transfer_amount(t: Transfer) -> u64 {
    match t.typ {
        TransferType::Deposit(d) => d.amount@,
        TransferType::Withdrawal { amount } => amount@,
    }
}

/// `t` is a deposit.
pub open spec fn is_deposit(t: Transfer) -> bool {
    t.typ is Deposit
}

/// `t` is a deposit currently under dispute.
pub open spec fn is_disputed(t: Transfer) -> bool {
    match t.typ {
        TransferType::Deposit(d) => d.disputed,
        TransferType::Withdrawal { .. } => false,
    }
}

/// `t` with its dispute flag set to `b`; a withdrawal is unchanged.
pub open spec fn with_disputed(t: Transfer, b: bool) -> Transfer {
    match t.typ {
        TransferType::Deposit(d) => Transfer {
            typ: TransferType::Deposit(DepositedTransaction { amount: d.amount, disputed: b }),
            ..t
        },
        TransferType::Withdrawal { .. } => t,
    }
}

} // verus!
