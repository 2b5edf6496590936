use vstd::prelude::*;

verus! {

/// Every failure an operation of the lottery can report.
#[derive(Debug, Clone, Copy, PartialEq, Eq, Structural)]
pub enum LotteryError {
    RateLimited,
    Unauthorized,
    AlreadyInitialized,
    OutOfTickets,
    InvalidInput,
    InvalidAdmin,
    InvalidPayoutStructure,
    TimeLockAlreadySet,
    InvalidDrawTime,
    InvalidRandomSeed,
    NoTicketsSold,
    InvalidWalletAddress,
    InvalidDeposit,
    DuplicateTicketPurchase,
    AclViolation,
}

/// The numeric code of each error, in declaration order starting at zero.
pub open spec fn error_code(e: LotteryError) -> u32 {
    match e {
        LotteryError::RateLimited => 0,
        LotteryError::Unauthorized => 1,
        LotteryError::AlreadyInitialized => 2,
        LotteryError::OutOfTickets => 3,
        LotteryError::InvalidInput => 4,
        LotteryError::InvalidAdmin => 5,
        LotteryError::InvalidPayoutStructure => 6,
        LotteryError::TimeLockAlreadySet => 7,
        LotteryError::InvalidDrawTime => 8,
        LotteryError::InvalidRandomSeed => 9,
        LotteryError::NoTicketsSold => 10,
        LotteryError::InvalidWalletAddress => 11,
        LotteryError::InvalidDeposit => 12,
        LotteryError::DuplicateTicketPurchase => 13,
        LotteryError::AclViolation => 14,
    }
}

impl LotteryError {
    /// The code under which a host reports this error.
    pub fn code(&self) -> (r: u32)
        ensures
            r == error_code(*self),
    {
        match self {
            LotteryError::RateLimited => 0,
            LotteryError::Unauthorized => 1,
            LotteryError::AlreadyInitialized => 2,
            LotteryError::OutOfTickets => 3,
            LotteryError::InvalidInput => 4,
            LotteryError::InvalidAdmin => 5,
            LotteryError::InvalidPayoutStructure => 6,
            LotteryError::TimeLockAlreadySet => 7,
            LotteryError::InvalidDrawTime => 8,
            LotteryError::InvalidRandomSeed => 9,
            LotteryError::NoTicketsSold => 10,
            LotteryError::InvalidWalletAddress => 11,
            LotteryError::InvalidDeposit => 12,
            LotteryError::DuplicateTicketPurchase => 13,
            LotteryError::AclViolation => 14,
        }
    }
}

} // verus!
