use vstd::prelude::*;
use vstd::slice::slice_subrange;
use vstd::slice::slice_to_vec;
use vstd::string::StrSliceExecFns;
use vstd::utf8::decode_utf8_encode_utf8;
use vstd::utf8::valid_utf8;

use crate::errors::DnsError;
use crate::ipv4::Ipv4Addr;
use crate::name::decode_name;
use crate::name::spec_decode_name;
use crate::record_data::RecordData;
use crate::record_data::RecordDataModel;
use crate::record_type::RecordType;
use crate::wire::spec_u16_at;
use crate::wire::spec_u32_at;
use crate::wire::u16_from_be;
use crate::wire::u32_from_be;

verus! {

/// One resource record: the owner name in its decoded dotted form, the
/// type and raw class codes, the time to live, and the typed payload.
#[derive(Debug, PartialEq, Eq)]
pub struct DNSRecord {
    pub name: Vec<u8>,
    pub type_: RecordType,
    pub class: u16,
    pub ttl: u32,
    pub data: RecordData,
}

/// A record as plain values.
pub ghost struct RecordModel {
    pub name: Seq<u8>,
    pub type_: RecordType,
    pub class: u16,
    pub ttl: u32,
    pub data: RecordDataModel,
}

impl View for DNSRecord {
    type V = RecordModel;

    open spec fn view(&self) -> RecordModel {
        RecordModel {
            name: self.name@,
            type_: self.type_,
            class: self.class,
            ttl: self.ttl,
            data: self.data@,
        }
    }
}

/// The record found at `pos`, together with the number of bytes it
/// occupies there: its owner name (possibly compressed), ten fixed bytes
/// (type, class, time to live, declared data length), and its payload.
/// An A payload must declare exactly 4 data bytes; an NS or CNAME payload
/// is a possibly compressed name whose size at `pos` the name decoder
/// reports; any other payload occupies exactly the declared length.
pub open spec fn spec_parse_record(data: Seq<u8>, pos: int) -> Result<(RecordModel, int), DnsError> {
    match spec_decode_name(data, pos) {
        Err(e) => Err(e),
        Ok((nb, c)) => if !valid_utf8(nb) {
            Err(DnsError::InvalidLabel)
        } else {
            let p = pos + c;
            if p + 10 > data.len() {
                Err(DnsError::Truncated)
            } else {
                let rt = RecordType::spec_from_code(spec_u16_at(data, p));
                let class = spec_u16_at(data, p + 2);
                let ttl = spec_u32_at(data, p + 4);
                let rdlen = spec_u16_at(data, p + 8);
                let q = p + 10;
                if rt is A {
                    if rdlen != 4 {
                        Err(DnsError::BadRdLength)
                    } else if q + 4 > data.len() {
                        Err(DnsError::Truncated)
                    } else {
                        Ok(
                            (
                                RecordModel {
                                    name: nb,
                                    type_: rt,
                                    class,
                                    ttl,
                                    data: RecordDataModel::A(
                                        Ipv4Addr {
                                            o0: data[q],
                                            o1: data[q + 1],
                                            o2: data[q + 2],
                                            o3: data[q + 3],
                                        },
                                    ),
                                },
                                q + 4 - pos,
                            ),
                        )
                    }
                } else if rt is NS || rt is CNAME {
                    match spec_decode_name(data, q) {
                        Err(e) => Err(e),
                        Ok((nb2, c2)) => if !valid_utf8(nb2) {
                            Err(DnsError::InvalidLabel)
                        } else {
                            Ok(
                                (
                                    RecordModel {
                                        name: nb,
                                        type_: rt,
                                        class,
                                        ttl,
                                        data: RecordDataModel::NS(nb2),
                                    },
                                    q + c2 - pos,
                                ),
                            )
                        },
                    }
                } else {
                    if q + rdlen > data.len() {
                        Err(DnsError::Truncated)
                    } else {
                        Ok(
                            (
                                RecordModel {
                                    name: nb,
                                    type_: rt,
                                    class,
                                    ttl,
                                    data: RecordDataModel::Other(
                                        data.subrange(q, q + rdlen as int),
                                    ),
                                },
                                q + rdlen - pos,
                            ),
                        )
                    }
                }
            }
        },
    }
}

impl DNSRecord {
    /// Returns the owner name's decoded dotted bytes.
    pub fn name(&self) -> (r: &[u8])
        ensures
            r@ == self.name@,
    {
        self.name.as_slice()
    }

    /// Returns the record type.
    pub fn type_(&self) -> (r: RecordType)
        ensures
            r == self.type_,
    {
        self.type_
    }

    /// Returns the raw class code, stored unvalidated.
    pub fn class(&self) -> (r: u16)
        ensures
            r == self.class,
    {
        self.class
    }

    /// Returns the time to live in seconds.
    pub fn ttl(&self) -> (r: u32)
        ensures
            r == self.ttl,
    {
        self.ttl
    }

    /// Returns the typed payload.
    pub fn data(&self) -> (r: &RecordData)
        ensures
            r@ == self.data@,
    {
        &self.data
    }

    /// Reads the record at `cursor` and reports how many bytes it occupies
    /// there, so a caller can step through concatenated records.
    pub fn parse(data: &[u8], cursor: usize) -> (r: Result<(DNSRecord, usize), DnsError>)
        ensures
            (match spec_parse_record(data@, cursor as int) {
                Err(e) => r == Err::<(DNSRecord, usize), DnsError>(e),
                Ok(m) => {
                    &&& r matches Ok(p)
                    &&& p.0@ == m.0
                    &&& p.1 == m.1
                },
            }),
            r matches Ok(p) ==> 1 <= p.1 && cursor + p.1 <= data@.len(),
    {
        let n = data.len();
        let (name_str, name_len) = match decode_name(data, cursor) {
            Ok(v) => v,
            Err(e) => {
                return Err(e);
            },
        };
        let name_bytes = name_str.as_str().as_bytes_vec();
        proof {
            let nb = spec_decode_name(data@, cursor as int)->Ok_0.0;
            decode_utf8_encode_utf8(nb);
            assert(name_bytes@ == nb);
        }
        let p = cursor + name_len;
        if n - p < 10 {
            return Err(DnsError::Truncated);
        }
        let type_ = RecordType::from_code(u16_from_be(data[p], data[p + 1]));
        let class = u16_from_be(data[p + 2], data[p + 3]);
        let ttl = u32_from_be(data[p + 4], data[p + 5], data[p + 6], data[p + 7]);
        let data_length = u16_from_be(data[p + 8], data[p + 9]);
        let q = p + 10;
        match type_ {
            RecordType::A => {
                if data_length != 4 {
                    return Err(DnsError::BadRdLength);
                }
                if n - q < 4 {
                    return Err(DnsError::Truncated);
                }
                let ip = Ipv4Addr::new(data[q], data[q + 1], data[q + 2], data[q + 3]);
                Ok(
                    (
                        DNSRecord { name: name_bytes, type_, class, ttl, data: RecordData::A(ip) },
                        q + 4 - cursor,
                    ),
                )
            },
            RecordType::NS | RecordType::CNAME => {
                match decode_name(data, q) {
                    Err(e) => Err(e),
                    Ok((ns_name, ns_len)) => {
                        proof {
                            let nb2 = spec_decode_name(data@, q as int)->Ok_0.0;
                            decode_utf8_encode_utf8(nb2);
                        }
                        Ok(
                            (
                                DNSRecord {
                                    name: name_bytes,
                                    type_,
                                    class,
                                    ttl,
                                    data: RecordData::NS(ns_name),
                                },
                                q + ns_len - cursor,
                            ),
                        )
                    },
                }
            },
            _ => {
                let rdl = data_length as usize;
                if n - q < rdl {
                    return Err(DnsError::Truncated);
                }
                let read_data = slice_to_vec(slice_subrange(data, q, q + rdl));
                Ok(
                    (
                        DNSRecord {
                            name: name_bytes,
                            type_,
                            class,
                            ttl,
                            data: RecordData::Other(read_data),
                        },
                        q + rdl - cursor,
                    ),
                )
            },
        }
    }
}

} // verus!
