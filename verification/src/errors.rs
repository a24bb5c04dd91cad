//! Why a call is refused. A refused call leaves the contract unchanged.
use vstd::prelude::*;

verus! {

#[derive(Clone, Copy, PartialEq, Eq, Structural, Debug)]
pub enum ContractError {
    NotPrivileged,
    OnlyOwner,
    ContractInactive,
    EndpointCallableOnlyByAcceptedCallers,
    IncorrectNumberOfEsdtTransfers,
    InvalidTokenIdentifier,
    InvalidLockPeriod,
    InvalidAmountSent,
    BondAlreadyCreated,
    BondNotFound,
    InvalidPayment,
    InvalidTimelineToProof,
    InvalidTimelineToRefund,
    PenaltiesExceedWithdrawalAmount,
    RefundNotFound,
    AlreadyActive,
    AlreadyInStorage,
    NotInStorage,
    CompensationNotFound,
    InvalidPenaltyValue,
    InvalidTimestamp,
    UnknownObject,
    ObjectAlreadyRegistered,
    /// A big-integer subtraction whose result would be negative.
    NegativeSubtraction,
    DivisionByZero,
    /// A 64-bit timestamp, identifier or index computation left its range.
    IntegerOverflow,
}

/// The message the chain reports for a refusal.
pub open spec fn error_message(e: ContractError) -> Seq<char> {
    match e {
        ContractError::NotPrivileged => "Not privileged"@,
        ContractError::OnlyOwner => "Endpoint can only be called by owner"@,
        ContractError::ContractInactive => "Contract not ready"@,
        ContractError::EndpointCallableOnlyByAcceptedCallers => "Endpoint callable only by accepted callers"@,
        ContractError::IncorrectNumberOfEsdtTransfers => "incorrect number of ESDT transfers"@,
        ContractError::InvalidTokenIdentifier => "Invalid token identifier"@,
        ContractError::InvalidLockPeriod => "Invalid lock period"@,
        ContractError::InvalidAmountSent => "Invalid amount"@,
        ContractError::BondAlreadyCreated => "Bond already created"@,
        ContractError::BondNotFound => "Bond not found"@,
        ContractError::InvalidPayment => "Invalid payment"@,
        ContractError::InvalidTimelineToProof => "Invalid timeline to proof"@,
        ContractError::InvalidTimelineToRefund => "Invalid timeline to refund"@,
        ContractError::PenaltiesExceedWithdrawalAmount => "Penalties exceed withdrawal amount"@,
        ContractError::RefundNotFound => "Refund not found"@,
        ContractError::AlreadyActive => "Already active"@,
        ContractError::AlreadyInStorage => "Already in storage"@,
        ContractError::NotInStorage => "Not in storage"@,
        ContractError::CompensationNotFound => "Compensation not found"@,
        ContractError::InvalidPenaltyValue => "Invalid penalty value"@,
        ContractError::InvalidTimestamp => "Invalid timestamp"@,
        ContractError::UnknownObject => "Unknown object"@,
        ContractError::ObjectAlreadyRegistered => "Object already registered"@,
        ContractError::NegativeSubtraction => "cannot subtract because result would be negative"@,
        ContractError::DivisionByZero => "division by zero"@,
        ContractError::IntegerOverflow => "arithmetic overflow"@,
    }
}

impl ContractError {
    /// The message the chain reports for this refusal.
    pub fn message(&self) -> (r: &'static str)
        ensures
            r@ == error_message(*self),
    {
        match self {
            ContractError::NotPrivileged => "Not privileged",
            ContractError::OnlyOwner => "Endpoint can only be called by owner",
            ContractError::ContractInactive => "Contract not ready",
            ContractError::EndpointCallableOnlyByAcceptedCallers => "Endpoint callable only by accepted callers",
            ContractError::IncorrectNumberOfEsdtTransfers => "incorrect number of ESDT transfers",
            ContractError::InvalidTokenIdentifier => "Invalid token identifier",
            ContractError::InvalidLockPeriod => "Invalid lock period",
            ContractError::InvalidAmountSent => "Invalid amount",
            ContractError::BondAlreadyCreated => "Bond already created",
            ContractError::BondNotFound => "Bond not found",
            ContractError::InvalidPayment => "Invalid payment",
            ContractError::InvalidTimelineToProof => "Invalid timeline to proof",
            ContractError::InvalidTimelineToRefund => "Invalid timeline to refund",
            ContractError::PenaltiesExceedWithdrawalAmount => "Penalties exceed withdrawal amount",
            ContractError::RefundNotFound => "Refund not found",
            ContractError::AlreadyActive => "Already active",
            ContractError::AlreadyInStorage => "Already in storage",
            ContractError::NotInStorage => "Not in storage",
            ContractError::CompensationNotFound => "Compensation not found",
            ContractError::InvalidPenaltyValue => "Invalid penalty value",
            ContractError::InvalidTimestamp => "Invalid timestamp",
            ContractError::UnknownObject => "Unknown object",
            ContractError::ObjectAlreadyRegistered => "Object already registered",
            ContractError::NegativeSubtraction => "cannot subtract because result would be negative",
            ContractError::DivisionByZero => "division by zero",
            ContractError::IntegerOverflow => "arithmetic overflow",
        }
    }
}

} // verus!
