//! The conditions that the bridge reports, and how a result crosses the
//! boundary to the host.

use vstd::prelude::*;

verus! {

/// A condition that the bridge reports to the host.
#[derive(Clone, Copy, Debug, PartialEq, Eq, Structural)]
pub enum BridgeError {
    /// A write was asked of an index that is backed by a snapshot.
    IllegalMutation,
    /// The host handed over bytes or a name that could not be decoded.
    InvalidArgument,
    /// The handle names no live object: it was freed, or never given out.
    UseAfterFree,
    /// The handle names a live object of another kind than the call expects.
    TypeConfusion,
    /// A fault inside the bridge that no caller input explains.
    NativeFault,
}

impl BridgeError {
    /// The text that the host is shown for this condition.
    pub open spec fn text(self) -> Seq<char> {
        match self {
            BridgeError::IllegalMutation => "Unable to modify snapshot."@,
            BridgeError::InvalidArgument => "Unable to decode an argument."@,
            BridgeError::UseAfterFree => "The handle does not name a live object."@,
            BridgeError::TypeConfusion => "The handle names an object of another kind."@,
            BridgeError::NativeFault => "Unexpected fault in native code."@,
        }
    }

    /// The text that the host is shown for this condition.
    pub fn message(&self) -> (r: String)
        ensures
            r@ == self.text(),
    {
        match self {
            BridgeError::IllegalMutation => "Unable to modify snapshot.".to_owned(),
            BridgeError::InvalidArgument => "Unable to decode an argument.".to_owned(),
            BridgeError::UseAfterFree => "The handle does not name a live object.".to_owned(),
            BridgeError::TypeConfusion => "The handle names an object of another kind.".to_owned(),
            BridgeError::NativeFault => "Unexpected fault in native code.".to_owned(),
        }
    }
}

/// The mark of a call that did not run to its end: its stack was unwound.
#[derive(Clone, Copy, Debug, PartialEq, Eq, Structural)]
pub struct Unwound;

/// What a call across the boundary hands to the host: the value it returns,
/// and the condition, if any, that is raised on the host's error channel.
#[derive(Debug)]
pub struct Outcome<T> {
    /// The returned value; the call's default where a condition is raised.
    pub value: T,
    /// The condition raised for the host, if any.
    pub raised: Option<BridgeError>,
}

impl<T> Outcome<T> {
    /// The outcome read as a result: the condition where one is raised, the
    /// value where none is.
    pub open spec fn result(self) -> Result<T, BridgeError> {
        match self.raised {
            Some(e) => Err(e),
            None => Ok(self.value),
        }
    }
}

/// What the host is handed for each way in which a call can end.
pub open spec fn translated<T>(
    res: Result<Result<T, BridgeError>, Unwound>,
    default: T,
) -> Outcome<T> {
    match res {
        Ok(Ok(value)) => Outcome { value, raised: None },
        Ok(Err(e)) => Outcome { value: default, raised: Some(e) },
        Err(_) => Outcome { value: default, raised: Some(BridgeError::NativeFault) },
    }
}

/// Translates the end of a call for the host. A call that ran to its end
/// with a value hands that value over and raises nothing. One that ended with
/// a condition hands over `default` and raises the condition. One that was
/// unwound hands over `default` and raises [`BridgeError::NativeFault`].
pub fn unwrap_exc_or<T>(res: Result<Result<T, BridgeError>, Unwound>, default: T) -> (r: Outcome<T>)
    ensures
        r == translated(res, default),
{
    match res {
        Ok(Ok(value)) => Outcome { value, raised: None },
        Ok(Err(e)) => Outcome { value: default, raised: Some(e) },
        Err(_) => Outcome { value: default, raised: Some(BridgeError::NativeFault) },
    }
}

} // verus!
