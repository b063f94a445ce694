use vstd::prelude::*;

verus! {

/// A resource record's type. Only A, NS and CNAME are interpreted; every
/// other wire code decodes to `NotImplemented`, whose record data is kept
/// as opaque bytes rather than rejected.
#[allow(non_camel_case_types)]
#[derive(Debug, Clone, Copy, PartialEq, Eq, Structural)]
pub enum RecordType {
    A,
    NS,
    CNAME,
    NotImplemented,
}

impl RecordType {
    /// The wire code this type is written as.
    pub open spec fn spec_code(self) -> u16 {
        match self {
            RecordType::A => 1,
            RecordType::NS => 2,
            RecordType::CNAME => 5,
            RecordType::NotImplemented => 6,
        }
    }

    /// The type a wire code is read as.
    pub open spec fn spec_from_code(value: u16) -> RecordType {
        if value == 1 {
            RecordType::A
        } else if value == 2 {
            RecordType::NS
        } else if value == 5 {
            RecordType::CNAME
        } else {
            RecordType::NotImplemented
        }
    }

    /// Returns the wire code this type is written as.
    pub fn code(&self) -> (r: u16)
        ensures
            r == self.spec_code(),
    {
        match self {
            RecordType::A => 1,
            RecordType::NS => 2,
            RecordType::CNAME => 5,
            RecordType::NotImplemented => 6,
        }
    }

    /// Reads a type from its wire code; unknown codes map to
    /// `NotImplemented`.
    pub fn from_code(value: u16) -> (r: RecordType)
        ensures
            r == RecordType::spec_from_code(value),
    {
        if value == 1 {
            RecordType::A
        } else if value == 2 {
            RecordType::NS
        } else if value == 5 {
            RecordType::CNAME
        } else {
            RecordType::NotImplemented
        }
    }
}

} // verus!
