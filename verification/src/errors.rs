//! The ways in which a conversion or a reconstruction fails.
use vstd::prelude::*;
use vstd::string::StringExecFns;

verus! {

/// The invariant that a page of events broke.
#[derive(Clone, Copy, Debug, PartialEq, Eq, Structural)]
pub enum InternalFault {
    /// Undoing an event would leave the account with less than nothing.
    NegativeBalance,
    /// The account is neither the sender nor the receiver of an event.
    NotSenderOrReceiver,
    /// An event is younger than the one that precedes it in the page.
    PageOrder,
}

/// Why a request was given up. No failure is turned into a default value, and
/// the first one ends the work on the page.
#[derive(Clone, Copy, Debug, PartialEq, Eq, Structural)]
pub enum ErrorKind {
    /// The text is not a decimal number, or the number is not an integer.
    MalformedNumeric,
    /// The number, or a balance computed from it, does not fit the integer type.
    OutOfRange,
    /// A counterparty is not a well-formed account identifier.
    AccountAddressInvalid,
    /// A parameter of the request is not acceptable.
    InvalidInput,
    /// The events contradict each other or the known balance.
    InternalError(InternalFault),
}

impl InternalFault {
    /// A sentence for the log.
    pub fn message(&self) -> (text: String)
        ensures
            text@ == match *self {
                InternalFault::NegativeBalance => "Balance could not be negative"@,
                InternalFault::NotSenderOrReceiver => "The account should be sender or receiver"@,
                InternalFault::PageOrder => "The events are not ordered from the newest to the oldest"@,
            },
    {
        match self {
            InternalFault::NegativeBalance => String::from_str("Balance could not be negative"),
            InternalFault::NotSenderOrReceiver => String::from_str(
                "The account should be sender or receiver",
            ),
            InternalFault::PageOrder => String::from_str(
                "The events are not ordered from the newest to the oldest",
            ),
        }
    }
}

impl ErrorKind {
    /// A sentence for the log.
    pub fn message(&self) -> (text: String)
        ensures
            text@ == match *self {
                ErrorKind::MalformedNumeric => "The value is not a decimal integer"@,
                ErrorKind::OutOfRange => "The value does not fit the integer type"@,
                ErrorKind::AccountAddressInvalid => "The account identifier is not well-formed"@,
                ErrorKind::InvalidInput => "The request parameter is not acceptable"@,
                ErrorKind::InternalError(fault) => match fault {
                    InternalFault::NegativeBalance => "Balance could not be negative"@,
                    InternalFault::NotSenderOrReceiver => "The account should be sender or receiver"@,
                    InternalFault::PageOrder => "The events are not ordered from the newest to the oldest"@,
                },
            },
    {
        match self {
            ErrorKind::MalformedNumeric => String::from_str("The value is not a decimal integer"),
            ErrorKind::OutOfRange => String::from_str("The value does not fit the integer type"),
            ErrorKind::AccountAddressInvalid => String::from_str(
                "The account identifier is not well-formed",
            ),
            ErrorKind::InvalidInput => String::from_str("The request parameter is not acceptable"),
            ErrorKind::InternalError(fault) => fault.message(),
        }
    }
}

} // verus!
