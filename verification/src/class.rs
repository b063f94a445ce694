use vstd::prelude::*;

use crate::errors::DnsError;

verus! {

/// A question's class. Only the Internet class (wire code 1) is supported;
/// decoding any other code is an `UnsupportedClass` error.
#[derive(Debug, Clone, Copy, PartialEq, Eq, Structural)]
pub enum Class {
    In,
}

impl Class {
    /// The wire code of this class.
    pub open spec fn spec_code(self) -> u16 {
        match self {
            Class::In => 1,
        }
    }

    /// Returns the wire code of this class.
    pub fn code(&self) -> (r: u16)
        ensures
            r == self.spec_code(),
    {
        match self {
            Class::In => 1,
        }
    }

    /// Reads a class from its wire code; any code but IN (1) is rejected.
    pub fn from_code(value: u16) -> (r: Result<Class, DnsError>)
        ensures
            r == if value == 1 {
                Ok::<Class, DnsError>(Class::In)
            } else {
                Err::<Class, DnsError>(DnsError::UnsupportedClass)
            },
    {
        if value == 1 {
            Ok(Class::In)
        } else {
            Err(DnsError::UnsupportedClass)
        }
    }
}

} // verus!
