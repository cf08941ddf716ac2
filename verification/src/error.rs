use vstd::prelude::*;
use vstd::std_specs::convert::FromSpecImpl;

verus! {

/// The program's own failure reasons.
#[derive(Debug, Clone, Copy, PartialEq, Eq, Structural)]
pub enum ClmmError {
    PoolNotInitialized,
    InvalidTickRange,
    MathOverflow,
    PositionNotFound,
    InsufficientLiquidity,
}

/// The number each failure reason is reported under (its position in the
/// declaration of `ClmmError`).
pub open spec fn spec_error_code(e: ClmmError) -> u32 {
    match e {
        ClmmError::PoolNotInitialized => 0,
        ClmmError::InvalidTickRange => 1,
        ClmmError::MathOverflow => 2,
        ClmmError::PositionNotFound => 3,
        ClmmError::InsufficientLiquidity => 4,
    }
}

impl ClmmError {
    /// The custom error code under which this failure is reported.
    pub fn code(&self) -> (r: u32)
        ensures
            r == spec_error_code(*self),
    {
        match self {
            ClmmError::PoolNotInitialized => 0,
            ClmmError::InvalidTickRange => 1,
            ClmmError::MathOverflow => 2,
            ClmmError::PositionNotFound => 3,
            ClmmError::InsufficientLiquidity => 4,
        }
    }
}

/// Why the runtime rejects an instruction.
#[derive(Debug, Clone, Copy, PartialEq, Eq, Structural)]
pub enum ProgramError {
    /// Fewer accounts were passed than the instruction reads.
    NotEnoughAccountKeys,
    /// The pool account cannot be written.
    InvalidAccountData,
    /// The pool account is smaller than a pool.
    AccountDataTooSmall,
    /// The instruction data does not decode, or a step of it failed.
    InvalidInstructionData,
    /// A failure of this program, by its `ClmmError` code.
    Custom(u32),
}

impl From<ClmmError> for ProgramError {
    fn from(e: ClmmError) -> (r: ProgramError) {
        ProgramError::Custom(e.code())
    }
}

impl FromSpecImpl<ClmmError> for ProgramError {
    open spec fn obeys_from_spec() -> bool {
        true
    }

    open spec fn from_spec(e: ClmmError) -> ProgramError {
        ProgramError::Custom(spec_error_code(e))
    }
}

} // verus!
