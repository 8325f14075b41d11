use vstd::prelude::*;

verus! {

/// Every way an operation of the token can be refused.
#[derive(Clone, Copy, Debug, PartialEq, Eq, Structural)]
pub enum TokenError {
    AlreadyInitialized,
    AlreadyRegistered,
    NotRegistered,
    ReceiverNotRegistered,
    SelfTransfer,
    ZeroAmount,
    InsufficientBalance,
    InsufficientDeposit,
    InsufficientStorageBalance,
    PositiveBalanceNotForced,
    Overflow,
    /// The caller may not perform a privileged operation.
    Unauthorized,
}

} // verus!
