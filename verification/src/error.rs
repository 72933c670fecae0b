//! Errors of the section writer.

use vstd::prelude::*;

verus! {

/// Which internal limit was exceeded.
#[derive(Clone, Copy, Debug, PartialEq, Eq)]
pub enum InternalFault {
    /// A data packet would be longer than its 16-bit length field can say.
    PacketLength,
    /// The section would be longer than its 64-bit length field can say.
    SectionLength,
    /// The number of points would no longer fit its 64-bit counter.
    PointCount,
}

/// Why an operation of the section writer failed.
#[derive(Clone, Debug, PartialEq, Eq)]
pub enum Error {
    /// A point has no value for the named field of the prototype.
    MissingField { name: String },
    /// The value of the named field cannot be represented by the field's data type.
    Encoding { name: String },
    /// A limit of the format was exceeded; the data is not at fault.
    Internal { fault: InternalFault },
}

/// An error with its field name as a sequence of characters.
pub enum ErrorView {
    MissingField { name: Seq<char> },
    Encoding { name: Seq<char> },
    Internal { fault: InternalFault },
}

impl View for Error {
    type V = ErrorView;

    open spec fn view(&self) -> ErrorView {
        match *self {
            Error::MissingField { name } => ErrorView::MissingField { name: name@ },
            Error::Encoding { name } => ErrorView::Encoding { name: name@ },
            Error::Internal { fault } => ErrorView::Internal { fault },
        }
    }
}

} // verus!
