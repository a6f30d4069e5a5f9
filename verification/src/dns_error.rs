use vstd::prelude::*;

verus! {

/// Errors of the DNS codec and resolver core.
#[derive(Clone, Copy, Debug, PartialEq, Eq, Structural)]
pub enum DnsError {
    /// A read or write would touch an index at or past the end of the
    /// fixed 512-byte packet buffer.
    BufferOverflow,
    /// A domain name could not be decoded: the pointer-jump limit was
    /// exceeded, or the name is otherwise unusable.
    MalformedName,
    /// A label of more than 63 octets was handed to the name encoder.
    LabelTooLong,
    /// An `UNKNOWN` resource record was handed to the record encoder.
    UnsupportedRecord,
    /// A socket failure reported by the surrounding I/O layer.
    NetworkError,
}

impl DnsError {
    /// A short human-readable description of the error.
    pub fn describe(&self) -> (r: &'static str)
        ensures
            self is BufferOverflow ==> r@ == "end of buffer"@,
            self is MalformedName ==> r@ == "malformed name"@,
            self is LabelTooLong ==> r@ == "label exceeds 63 characters"@,
            self is UnsupportedRecord ==> r@ == "unsupported record type"@,
            self is NetworkError ==> r@ == "network error"@,
    {
        match self {
            DnsError::BufferOverflow => "end of buffer",
            DnsError::MalformedName => "malformed name",
            DnsError::LabelTooLong => "label exceeds 63 characters",
            DnsError::UnsupportedRecord => "unsupported record type",
            DnsError::NetworkError => "network error",
        }
    }
}

} // verus!
