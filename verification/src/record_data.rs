use vstd::prelude::*;
use vstd::utf8::encode_utf8;

use crate::ipv4::Ipv4Addr;

verus! {

/// A record's typed payload: an IPv4 address for type A, a decoded domain
/// name for NS or CNAME, and the raw bytes for every other type.
#[allow(non_camel_case_types)]
#[derive(Debug, PartialEq, Eq)]
pub enum RecordData {
    A(Ipv4Addr),
    NS(String),
    Other(Vec<u8>),
}

/// The payload as plain values: a name or an opaque payload is its byte
/// sequence (a name's bytes are its dotted form).
pub ghost enum RecordDataModel {
    A(Ipv4Addr),
    NS(Seq<u8>),
    Other(Seq<u8>),
}

impl View for RecordData {
    type V = RecordDataModel;

    open spec fn view(&self) -> RecordDataModel {
        match self {
            RecordData::A(ip) => RecordDataModel::A(*ip),
            RecordData::NS(name) => RecordDataModel::NS(encode_utf8(name@)),
            RecordData::Other(bytes) => RecordDataModel::Other(bytes@),
        }
    }
}

impl RecordData {
    /// Returns the address when this is an A payload.
    #[allow(non_snake_case)]
    pub fn get_A(&self) -> (r: Option<&Ipv4Addr>)
        ensures
            match *self {
                RecordData::A(ip) => r matches Some(p) && *p == ip,
                _ => r is None,
            },
    {
        match self {
            RecordData::A(ip) => Some(ip),
            _ => None,
        }
    }

    /// Returns the domain name when this is an NS (or CNAME) payload.
    #[allow(non_snake_case)]
    pub fn get_NS(&self) -> (r: Option<&str>)
        ensures
            match *self {
                RecordData::NS(name) => r matches Some(s) && s@ == name@,
                _ => r is None,
            },
    {
        match self {
            RecordData::NS(name) => Some(name.as_str()),
            _ => None,
        }
    }

    /// Returns the raw bytes when this is an uninterpreted payload.
    #[allow(non_snake_case)]
    pub fn get_Other(&self) -> (r: Option<&[u8]>)
        ensures
            match *self {
                RecordData::Other(bytes) => r matches Some(s) && s@ == bytes@,
                _ => r is None,
            },
    {
        match self {
            RecordData::Other(bytes) => Some(bytes.as_slice()),
            _ => None,
        }
    }
}

} // verus!
