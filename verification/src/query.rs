use rand::Rng;
use vstd::prelude::*;
use vstd::string::StringSliceAdditionalSpecFns;

use crate::class::Class;
use crate::dns_header::spec_header_bytes;
use crate::dns_header::DNSHeader;
use crate::dns_question::spec_question_bytes;
use crate::dns_question::DNSQuestion;
use crate::errors::DnsError;
use crate::name::encode_dns_name;
use crate::name::name_is_encodable;
use crate::name::spec_encode_name;
use crate::name::spec_name_encodable;
use crate::record_type::RecordType;

verus! {

/// The wire form of a query packet: a header with the given transaction
/// id and flags declaring one question and nothing else, followed by one
/// question for `name` with the given type and class IN.
pub open spec fn spec_build_query(id: u16, name: Seq<u8>, record_type: RecordType, flags: u16) -> Seq<
    u8,
> {
    spec_header_bytes(
        DNSHeader {
            id,
            flags,
            num_questions: 1u16,
            num_answers: 0u16,
            num_authorities: 0u16,
            num_additionals: 0u16,
        },
    ) + spec_question_bytes(spec_encode_name(name), record_type, Class::In)
}

/// Relies on `rand::thread_rng` and `Rng::gen_range` for an unpredictable
/// 16-bit transaction id; nothing is assumed of the value drawn.
#[verifier::external_body]
fn random_id() -> u16 {
    rand::thread_rng().gen_range(0..=u16::MAX)
}

/// Builds the query packet for a caller-chosen transaction id; every byte
/// of the result is fixed by the arguments.
pub fn build_query_with_id(id: u16, domain_name: &str, record_type: RecordType, flags: u16) -> (r:
    Vec<u8>)
    requires
        spec_name_encodable(domain_name.spec_bytes()),
    ensures
        r@ == spec_build_query(id, domain_name.spec_bytes(), record_type, flags),
{
    let header = DNSHeader::new(id, flags);
    let question = DNSQuestion::new(encode_dns_name(domain_name), record_type, Class::In);
    let mut bytes = header.to_bytes();
    let question_bytes = question.to_bytes();
    bytes.extend_from_slice(question_bytes.as_slice());
    proof {
        assert(bytes@ =~= spec_build_query(id, domain_name.spec_bytes(), record_type, flags));
    }
    bytes
}

/// Builds a query packet with a fresh, unpredictable transaction id;
/// apart from that id's two bytes the packet is fixed by the arguments.
pub fn build_query(domain_name: &str, record_type: RecordType, flags: u16) -> (r: Vec<u8>)
    requires
        spec_name_encodable(domain_name.spec_bytes()),
    ensures
        exists|id: u16|
            r@ == spec_build_query(id, domain_name.spec_bytes(), record_type, flags),
{
    let id = random_id();
    let r = build_query_with_id(id, domain_name, record_type, flags);
    proof {
        assert(r@ == spec_build_query(id, domain_name.spec_bytes(), record_type, flags));
    }
    r
}

/// Builds a query packet as `build_query` does, for any name at all:
/// a name with a label too long for a length prefix is reported as
/// `LabelTooLong` instead of being encoded.
pub fn build_query_checked(domain_name: &str, record_type: RecordType, flags: u16) -> (r: Result<
    Vec<u8>,
    DnsError,
>)
    ensures
        spec_name_encodable(domain_name.spec_bytes()) ==> (r matches Ok(b) && exists|id: u16|
            b@ == spec_build_query(id, domain_name.spec_bytes(), record_type, flags)),
        !spec_name_encodable(domain_name.spec_bytes()) ==> r == Err::<Vec<u8>, DnsError>(
            DnsError::LabelTooLong,
        ),
{
    if !name_is_encodable(domain_name) {
        return Err(DnsError::LabelTooLong);
    }
    Ok(build_query(domain_name, record_type, flags))
}

} // verus!
