use vstd::prelude::*;

verus! {

/// Failures detected by this program's own validation.
#[derive(Debug, Clone, Copy, PartialEq, Eq, Structural)]
pub enum ProcessingError {
    /// A record was read before the account holding it was created.
    UninitializedAccount,
    /// The supplied account address differs from the derived address.
    InvalidPDA,
    /// The serialized record would not fit in the account's capacity.
    InvalidDataLength,
}

/// The failure codes an invocation of the program can surface.
///
/// `Custom` carries the numeric code of a [`ProcessingError`]; the
/// other variants stand for conditions the surrounding runtime also
/// recognizes (a missing signature, malformed instruction bytes, too
/// short an account list, allocation at an occupied address).
#[derive(Debug, Clone, Copy, PartialEq, Eq, Structural)]
pub enum ProgramError {
    Custom(u32),
    MissingRequiredSignature,
    InvalidInstructionData,
    NotEnoughAccountKeys,
    AccountAlreadyInUse,
}

impl ProcessingError {
    /// The numeric code under which this error surfaces as `Custom`.
    pub open spec fn spec_code(self) -> u32 {
        match self {
            ProcessingError::UninitializedAccount => 0u32,
            ProcessingError::InvalidPDA => 1u32,
            ProcessingError::InvalidDataLength => 2u32,
        }
    }

    pub fn code(self) -> (r: u32)
        ensures
            r == self.spec_code(),
    {
        match self {
            ProcessingError::UninitializedAccount => 0u32,
            ProcessingError::InvalidPDA => 1u32,
            ProcessingError::InvalidDataLength => 2u32,
        }
    }
}

impl From<ProcessingError> for ProgramError {
    fn from(e: ProcessingError) -> (r: ProgramError) {
        ProgramError::Custom(e.code())
    }
}

impl vstd::std_specs::convert::FromSpecImpl<ProcessingError> for ProgramError {
    open spec fn obeys_from_spec() -> bool {
        true
    }

    open spec fn from_spec(e: ProcessingError) -> ProgramError {
        ProgramError::Custom(e.spec_code())
    }
}

/// The result of one invocation of the program.
pub type ProgramResult = Result<(), ProgramError>;

} // verus!
