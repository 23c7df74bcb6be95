use core::convert::{TryFrom, TryInto};
use core::num::NonZeroU32;
use rand_core::Error;
use rdrand::{ErrorCode, NotAnErrorCode};

fn assert_send<T: Send>() {}

fn assert_sync<T: Sync>() {}

fn assert_copy<T: Copy>() {}

fn assert_clone<T: Clone>() {}

#[test]
fn error_code_send() {
    assert_send::<ErrorCode>();
}

#[test]
fn error_code_sync() {
    assert_sync::<ErrorCode>();
}

#[test]
fn error_code_copy() {
    assert_copy::<ErrorCode>();
}

#[test]
fn error_code_clone() {
    assert_clone::<ErrorCode>();
}

#[test]
fn conversion_roundtrip_unsupported_hardware() {
    let core_rand: Error = ErrorCode::UnsupportedInstruction.into();
    let code: ErrorCode = core_rand.try_into().expect("should convert back");
    assert!(matches!(code, ErrorCode::UnsupportedInstruction));
}

#[test]
fn conversion_roundtrip_hardware_failure() {
    let core_rand: Error = ErrorCode::HardwareFailure.into();
    let code: ErrorCode = core_rand.try_into().expect("should convert back");
    assert!(matches!(code, ErrorCode::HardwareFailure));
}

#[test]
fn codes_have_their_exact_values() {
    assert_eq!(ErrorCode::UnsupportedInstruction.as_randcore_code(), 0xFD34_7D00);
    assert_eq!(ErrorCode::HardwareFailure.as_randcore_code(), 0xFD34_7D01);
    assert_eq!(rdrand::errors::RDRAND_TAG, Error::CUSTOM_START + 0x3D34_7D00);
}

#[test]
fn conversion_carries_the_code() {
    let error: Error = ErrorCode::HardwareFailure.into();
    assert_eq!(error.code(), NonZeroU32::new(0xFD34_7D01));
    let error: Error = ErrorCode::UnsupportedInstruction.into();
    assert_eq!(error.code(), NonZeroU32::new(0xFD34_7D00));
}

#[test]
fn conversion_by_reference() {
    let error: Error = ErrorCode::HardwareFailure.into();
    assert_eq!(ErrorCode::try_from(&error), Ok(ErrorCode::HardwareFailure));
    let error: Error = ErrorCode::UnsupportedInstruction.into();
    assert_eq!(ErrorCode::try_from(&error), Ok(ErrorCode::UnsupportedInstruction));
}

#[test]
fn foreign_errors_are_not_error_codes() {
    for code in [1u32, 0xFD34_7CFF, 0xFD34_7D02, 0xC000_0000, u32::MAX] {
        let error = Error::from(NonZeroU32::new(code).unwrap());
        assert_eq!(ErrorCode::try_from(&error), Err(NotAnErrorCode));
        assert_eq!(ErrorCode::try_from(error), Err(NotAnErrorCode));
    }
}

#[test]
fn from_code_tells_the_codes_apart() {
    assert_eq!(ErrorCode::from_code(Some(0xFD34_7D00)), Ok(ErrorCode::UnsupportedInstruction));
    assert_eq!(ErrorCode::from_code(Some(0xFD34_7D01)), Ok(ErrorCode::HardwareFailure));
    assert_eq!(ErrorCode::from_code(Some(0xFD34_7D02)), Err(NotAnErrorCode));
    assert_eq!(ErrorCode::from_code(Some(0)), Err(NotAnErrorCode));
    assert_eq!(ErrorCode::from_code(None), Err(NotAnErrorCode));
}

#[test]
fn messages() {
    assert_eq!(
        ErrorCode::UnsupportedInstruction.message(),
        "the hardware instruction is not supported"
    );
    assert_eq!(ErrorCode::HardwareFailure.message(), "hardware generator failure");
    assert_eq!(NotAnErrorCode.message(), "the error is not an rdrand error");
}
