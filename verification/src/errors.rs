use vstd::prelude::*;

verus! {

/// Errors surfaced by the codec and the resolution engine.
///
/// Every malformed or adversarial wire input is reported through one of
/// these variants; no function of this crate panics on wire data.
#[derive(Debug, Clone, Copy, PartialEq, Eq, Structural)]
pub enum DnsError {
    /// The buffer is shorter than a length field or a section count declares.
    Truncated,
    /// A compression pointer targets its own position or a later one, or
    /// otherwise fails the backward-progress check.
    MalformedCompression,
    /// A question's class field holds a value other than IN (1).
    UnsupportedClass,
    /// A decoded name's label bytes are not valid UTF-8.
    InvalidLabel,
    /// A name handed to the encoder has a label longer than 255 bytes.
    LabelTooLong,
    /// A type-A record whose declared data length is not exactly 4.
    BadRdLength,
    /// The transport collaborator failed to send or receive.
    TransportFailure,
    /// A response offers neither an answer, nor glue, nor an authority
    /// to follow.
    NoProgress,
    /// The resolution engine exhausted its referral-hop budget.
    HopLimitExceeded,
}

} // verus!
