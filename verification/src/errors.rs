//! The two ways in which a generator can fail, and their numeric codes.
use vstd::prelude::*;

verus! {

/// Errors in this library.
#[derive(Debug, Copy, Clone, PartialEq, Eq, Structural)]
pub enum ErrorCode {
    /// The hardware instruction is not supported.
    UnsupportedInstruction,
    /// There was a hardware failure.
    HardwareFailure,
}

/// The error is not one of this library.
#[derive(Debug, Copy, Clone, PartialEq, Eq, Structural)]
pub struct NotAnErrorCode;

/// The first numeric code that belongs to this library.
pub const RDRAND_TAG: u32 = 0xFD34_7D00;

impl ErrorCode {
    /// The number of this error among the library's errors.
    pub open spec fn index(self) -> nat {
        match self {
            ErrorCode::UnsupportedInstruction => 0,
            ErrorCode::HardwareFailure => 1,
        }
    }

    /// The numeric code that stands for this error.
    pub open spec fn code(self) -> u32 {
        (RDRAND_TAG + self.index()) as u32
    }

    /// The error for which a numeric code stands, if it is one of this library.
    pub open spec fn of_code(code: Option<u32>) -> Result<ErrorCode, NotAnErrorCode> {
        if code == Some(ErrorCode::UnsupportedInstruction.code()) {
            Ok(ErrorCode::UnsupportedInstruction)
        } else if code == Some(ErrorCode::HardwareFailure.code()) {
            Ok(ErrorCode::HardwareFailure)
        } else {
            Err(NotAnErrorCode)
        }
    }

    /// What this error says of itself.
    pub open spec fn text(self) -> Seq<char> {
        match self {
            ErrorCode::UnsupportedInstruction => "the hardware instruction is not supported"@,
            ErrorCode::HardwareFailure => "hardware generator failure"@,
        }
    }

    /// What this error says of itself.
    pub fn message(&self) -> (text: &'static str)
        ensures
            text@ == self.text(),
    {
        match self {
            ErrorCode::UnsupportedInstruction => "the hardware instruction is not supported",
            ErrorCode::HardwareFailure => "hardware generator failure",
        }
    }

    /// Tells which error a numeric code stands for.
    pub fn from_code(code: Option<u32>) -> (r: Result<ErrorCode, NotAnErrorCode>)
        ensures
            r == ErrorCode::of_code(code),
    {
        match code {
            Some(c) => {
                if c == RDRAND_TAG {
                    Ok(ErrorCode::UnsupportedInstruction)
                } else if c == RDRAND_TAG + 1 {
                    Ok(ErrorCode::HardwareFailure)
                } else {
                    Err(NotAnErrorCode)
                }
            },
            None => Err(NotAnErrorCode),
        }
    }
}

impl NotAnErrorCode {
    /// What this error says of itself.
    pub fn message(&self) -> (text: &'static str)
        ensures
            text@ == "the error is not an rdrand error"@,
    {
        "the error is not an rdrand error"
    }
}

/// The codes of the two errors are not zero, and each code stands for its
/// own error again.
pub proof fn lemma_code_round_trip(error: ErrorCode)
    ensures
        error.code() != 0,
        error.code() >= 0xC000_0000u32,
        ErrorCode::of_code(Some(error.code())) == Ok::<ErrorCode, NotAnErrorCode>(error),
        ErrorCode::of_code(None) == Err::<ErrorCode, NotAnErrorCode>(NotAnErrorCode),
{
}

/// The error type of `rand_core`.
#[verifier::external_type_specification]
#[verifier::external_body]
pub struct ExRandCoreError(rand_core::Error);

/// The numeric code that `rand_core::Error::code` finds in an error, if any.
pub uninterp spec fn carried_code(error: rand_core::Error) -> Option<u32>;

/// The error that `rand_core` makes of a numeric code.
pub uninterp spec fn coded_error(code: u32) -> rand_core::Error;

/// `rand_core::Error::CUSTOM_START`, the first code that `rand_core` leaves to
/// its users. Its documentation fixes the value.
#[verifier::external_body]
fn custom_start() -> (start: u32)
    ensures
        start == 0xC000_0000u32,
{
    rand_core::Error::CUSTOM_START
}

/// `rand_core::Error::from` of a code that is not zero. The error it makes is
/// a function of the code, and `code` finds that code in it again.
#[verifier::external_body]
fn error_of_code(code: u32) -> (error: rand_core::Error)
    requires
        code != 0,
    ensures
        error == coded_error(code),
        carried_code(error) == Some(code),
{
    rand_core::Error::from(core::num::NonZeroU32::new(code).unwrap())
}

/// `rand_core::Error::code`: the code that the error was made of, or `None`
/// where it was made of something else.
#[verifier::external_body]
fn code_of_error(error: &rand_core::Error) -> (code: Option<u32>)
    ensures
        code == carried_code(*error),
{
    error.code().map(core::num::NonZeroU32::get)
}

impl ErrorCode {
    /// The numeric code that stands for this error in `rand_core`.
    pub fn as_randcore_code(self) -> (code: u32)
        ensures
            code == self.code(),
            code != 0,
    {
        let tag: u32 = custom_start() + 0x3D34_7D00;
        match self {
            ErrorCode::UnsupportedInstruction => tag,
            ErrorCode::HardwareFailure => tag + 1,
        }
    }
}

impl From<ErrorCode> for rand_core::Error {
    fn from(code: ErrorCode) -> (error: rand_core::Error)
        ensures
            carried_code(error) == Some(code.code()),
    {
        error_of_code(code.as_randcore_code())
    }
}

impl vstd::std_specs::convert::FromSpecImpl<ErrorCode> for rand_core::Error {
    open spec fn obeys_from_spec() -> bool {
        true
    }

    open spec fn from_spec(code: ErrorCode) -> rand_core::Error {
        coded_error(code.code())
    }
}

impl TryFrom<&rand_core::Error> for ErrorCode {
    type Error = NotAnErrorCode;

    fn try_from(error: &rand_core::Error) -> (r: Result<ErrorCode, NotAnErrorCode>) {
        ErrorCode::from_code(code_of_error(error))
    }
}

impl vstd::std_specs::convert::TryFromSpecImpl<&rand_core::Error> for ErrorCode {
    open spec fn obeys_try_from_spec() -> bool {
        true
    }

    open spec fn try_from_spec(error: &rand_core::Error) -> Result<ErrorCode, NotAnErrorCode> {
        ErrorCode::of_code(carried_code(*error))
    }
}

impl TryFrom<rand_core::Error> for ErrorCode {
    type Error = NotAnErrorCode;

    fn try_from(error: rand_core::Error) -> (r: Result<ErrorCode, NotAnErrorCode>) {
        ErrorCode::from_code(code_of_error(&error))
    }
}

impl vstd::std_specs::convert::TryFromSpecImpl<rand_core::Error> for ErrorCode {
    open spec fn obeys_try_from_spec() -> bool {
        true
    }

    open spec fn try_from_spec(error: rand_core::Error) -> Result<ErrorCode, NotAnErrorCode> {
        ErrorCode::of_code(carried_code(error))
    }
}

} // verus!
