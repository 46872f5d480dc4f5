use vstd::prelude::*;
use vstd::std_specs::convert::FromSpecImpl;
use crate::transport::{RecvError, SendError, TryRecvError};

verus! {

/// Makes `std::sync::mpsc::TryRecvError` known to the verifier as the enum that
/// the standard library documents: the two variants `Empty` and `Disconnected`,
/// neither with a field. Nothing else is claimed of it.
#[verifier::external_type_specification]
pub struct ExStdTryRecvError(std::sync::mpsc::TryRecvError);

/// Makes `std::sync::mpsc::RecvError` known to the verifier as the struct without
/// fields that the standard library documents. Nothing else is claimed of it.
#[verifier::external_type_specification]
pub struct ExStdRecvError(std::sync::mpsc::RecvError);

/// Makes `std::sync::mpsc::SendError` known to the verifier as the struct that
/// the standard library documents: one public field, the message that could not
/// be sent. Nothing else is claimed of it.
#[verifier::external_type_specification]
#[verifier::reject_recursive_types(T)]
pub struct ExStdSendError<T>(std::sync::mpsc::SendError<T>);

/// A non-blocking receive on a channel of the standard library fails because the
/// channel is empty or because it is disconnected, and for no other reason.
impl From<std::sync::mpsc::TryRecvError> for TryRecvError<std::sync::mpsc::TryRecvError> {
    fn from(value: std::sync::mpsc::TryRecvError) -> (error: Self) {
        match value {
            std::sync::mpsc::TryRecvError::Empty => TryRecvError::Empty,
            std::sync::mpsc::TryRecvError::Disconnected => TryRecvError::Disconnected,
        }
    }
}

impl FromSpecImpl<std::sync::mpsc::TryRecvError> for TryRecvError<std::sync::mpsc::TryRecvError> {
    open spec fn obeys_from_spec() -> bool {
        true
    }

    open spec fn from_spec(value: std::sync::mpsc::TryRecvError) -> Self {
        match value {
            std::sync::mpsc::TryRecvError::Empty => TryRecvError::Empty,
            std::sync::mpsc::TryRecvError::Disconnected => TryRecvError::Disconnected,
        }
    }
}

/// A blocking receive on a channel of the standard library fails only because
/// the channel is disconnected.
impl From<std::sync::mpsc::RecvError> for RecvError<std::sync::mpsc::RecvError> {
    fn from(value: std::sync::mpsc::RecvError) -> (error: Self) {
        RecvError::Disconnected
    }
}

impl FromSpecImpl<std::sync::mpsc::RecvError> for RecvError<std::sync::mpsc::RecvError> {
    open spec fn obeys_from_spec() -> bool {
        true
    }

    open spec fn from_spec(value: std::sync::mpsc::RecvError) -> Self {
        RecvError::Disconnected
    }
}

/// A send on a channel of the standard library fails only because the channel is
/// disconnected, and hands the message back.
impl<U> From<std::sync::mpsc::SendError<U>> for SendError<U, std::sync::mpsc::SendError<U>> {
    fn from(value: std::sync::mpsc::SendError<U>) -> (error: Self) {
        SendError::Disconnected(value.0)
    }
}

impl<U> FromSpecImpl<std::sync::mpsc::SendError<U>> for SendError<U, std::sync::mpsc::SendError<U>> {
    open spec fn obeys_from_spec() -> bool {
        true
    }

    open spec fn from_spec(value: std::sync::mpsc::SendError<U>) -> Self {
        SendError::Disconnected(value.0)
    }
}

} // verus!
