use vstd::prelude::*;
use vstd::string::StringExecFns;

verus! {

/// The ways in which an operation of this library can fail.
#[derive(Clone, Copy, Debug, PartialEq, Eq, Structural)]
pub enum DnsError {
    /// A read went past the end of the data, or a write past the capacity.
    BufferEnd,
    /// A compressed name needed more pointer jumps than are allowed.
    NameLimit,
    /// No zone covers the name.
    NotAuthoritative,
    /// A request was malformed.
    FormatError,
}

impl DnsError {
    /// A short description of the error.
    pub fn message(&self) -> (s: String)
        ensures
            s@ == match *self {
                DnsError::BufferEnd => "end of buffer"@,
                DnsError::NameLimit => "limit of 5 jumps exceeded"@,
                DnsError::NotAuthoritative => "zone not found"@,
                DnsError::FormatError => "malformed request"@,
            },
    {
        match *self {
            DnsError::BufferEnd => String::from_str("end of buffer"),
            DnsError::NameLimit => String::from_str("limit of 5 jumps exceeded"),
            DnsError::NotAuthoritative => String::from_str("zone not found"),
            DnsError::FormatError => String::from_str("malformed request"),
        }
    }
}

} // verus!
