use vstd::prelude::*;

use crate::errors::DnsError;
use crate::wire::push_be16;
use crate::wire::spec_be16;
use crate::wire::spec_u16_at;
use crate::wire::u16_from_be;

verus! {

/// The fixed 12-byte message header: six 16-bit big-endian fields in the
/// order id, flags, question count, answer count, authority count,
/// additional count.
#[derive(Debug, Clone, Copy, PartialEq, Eq, Structural)]
pub struct DNSHeader {
    pub id: u16,
    pub flags: u16,
    pub num_questions: u16,
    pub num_answers: u16,
    pub num_authorities: u16,
    pub num_additionals: u16,
}

/// The 12 bytes a header is written as.
pub open spec fn spec_header_bytes(h: DNSHeader) -> Seq<u8> {
    spec_be16(h.id) + spec_be16(h.flags) + spec_be16(h.num_questions) + spec_be16(h.num_answers)
        + spec_be16(h.num_authorities) + spec_be16(h.num_additionals)
}

/// The header read from the first 12 bytes of `d`.
pub open spec fn spec_parse_header(d: Seq<u8>) -> DNSHeader {
    DNSHeader {
        id: spec_u16_at(d, 0),
        flags: spec_u16_at(d, 2),
        num_questions: spec_u16_at(d, 4),
        num_answers: spec_u16_at(d, 6),
        num_authorities: spec_u16_at(d, 8),
        num_additionals: spec_u16_at(d, 10),
    }
}

impl DNSHeader {
    /// Builds a query header: one question, no other entries.
    pub fn new(id: u16, flags: u16) -> (r: Self)
        ensures
            r == (DNSHeader {
                id,
                flags,
                num_questions: 1u16,
                num_answers: 0u16,
                num_authorities: 0u16,
                num_additionals: 0u16,
            }),
    {
        Self {
            id,
            flags,
            num_questions: 1,
            num_answers: 0,
            num_authorities: 0,
            num_additionals: 0,
        }
    }

    /// Returns the declared number of question entries.
    pub fn num_questions(&self) -> (r: u16)
        ensures
            r == self.num_questions,
    {
        self.num_questions
    }

    /// Returns the declared number of answer records.
    pub fn num_answers(&self) -> (r: u16)
        ensures
            r == self.num_answers,
    {
        self.num_answers
    }

    /// Returns the declared number of authority records.
    pub fn num_authorities(&self) -> (r: u16)
        ensures
            r == self.num_authorities,
    {
        self.num_authorities
    }

    /// Returns the declared number of additional records.
    pub fn num_additionals(&self) -> (r: u16)
        ensures
            r == self.num_additionals,
    {
        self.num_additionals
    }

    /// Writes the header as its fixed 12-byte wire form.
    pub fn to_bytes(&self) -> (r: Vec<u8>)
        ensures
            r@ == spec_header_bytes(*self),
            r@.len() == 12,
    {
        let mut out: Vec<u8> = Vec::new();
        push_be16(&mut out, self.id);
        push_be16(&mut out, self.flags);
        push_be16(&mut out, self.num_questions);
        push_be16(&mut out, self.num_answers);
        push_be16(&mut out, self.num_authorities);
        push_be16(&mut out, self.num_additionals);
        proof {
            assert(out@ =~= spec_header_bytes(*self));
        }
        out
    }

    /// Reads a header from the first 12 bytes of `data`; a shorter buffer
    /// is a truncation error.
    pub fn parse(data: &[u8]) -> (r: Result<DNSHeader, DnsError>)
        ensures
            r == if data@.len() < 12 {
                Err::<DNSHeader, DnsError>(DnsError::Truncated)
            } else {
                Ok::<DNSHeader, DnsError>(spec_parse_header(data@))
            },
    {
        if data.len() < 12 {
            return Err(DnsError::Truncated);
        }
        Ok(DNSHeader {
            id: u16_from_be(data[0], data[1]),
            flags: u16_from_be(data[2], data[3]),
            num_questions: u16_from_be(data[4], data[5]),
            num_answers: u16_from_be(data[6], data[7]),
            num_authorities: u16_from_be(data[8], data[9]),
            num_additionals: u16_from_be(data[10], data[11]),
        })
    }
}

} // verus!
