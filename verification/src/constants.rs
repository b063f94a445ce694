use vstd::prelude::*;

verus! {

/// The most response bytes a single UDP read accepts.
pub const UDP_DNS_RESPONSE_SIZE: usize = 1024;

/// The fixed size of the message header.
pub const DNS_HEADER_SIZE: usize = 12;

/// The bytes of a question after its name: type and class.
pub const DNS_QUESTION_SIZE: usize = 4;

/// The bytes of a record between its name and its payload: type, class,
/// time to live and declared payload length.
pub const DNS_RECORD_SIZE: usize = 10;

/// The wire code of the Internet class.
pub const CLASS_IN: u16 = 1;

/// The header flag asking the server to recurse on the client's behalf.
pub const RECURSION_DESIRED: u16 = 1 << 8;

/// The flags value for querying a nameserver directly, asking no
/// recursion of it.
pub const AUTHORITATIVE_NAMESERVER: u16 = 0;

/// The most referrals one resolution may follow before it gives up.
pub const MAX_REFERRAL_HOPS: u32 = 64;

} // verus!
