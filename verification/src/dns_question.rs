use vstd::prelude::*;

use crate::class::Class;
use crate::record_type::RecordType;
use crate::wire::push_be16;
use crate::wire::spec_be16;

verus! {

/// One question entry: a wire-encoded name (length-prefixed labels, as
/// `encode_dns_name` produces) followed by the 16-bit type and class codes.
#[derive(Debug, PartialEq, Eq)]
pub struct DNSQuestion {
    pub name: Vec<u8>,
    pub type_: RecordType,
    pub class: Class,
}

/// A question as plain values; the name is its wire-encoded bytes.
pub ghost struct QuestionModel {
    pub name: Seq<u8>,
    pub type_: RecordType,
    pub class: Class,
}

impl View for DNSQuestion {
    type V = QuestionModel;

    open spec fn view(&self) -> QuestionModel {
        QuestionModel { name: self.name@, type_: self.type_, class: self.class }
    }
}

/// The bytes a question is written as.
pub open spec fn spec_question_bytes(name: Seq<u8>, type_: RecordType, class: Class) -> Seq<u8> {
    name + spec_be16(type_.spec_code()) + spec_be16(class.spec_code())
}

impl DNSQuestion {
    /// Builds a question from an already wire-encoded name.
    pub fn new(name: Vec<u8>, type_: RecordType, class: Class) -> (r: Self)
        ensures
            r.name@ == name@,
            r.type_ == type_,
            r.class == class,
    {
        Self { name, type_, class }
    }

    /// Writes the question as its wire form: the stored name bytes followed
    /// by the big-endian type and class codes.
    pub fn to_bytes(&self) -> (r: Vec<u8>)
        ensures
            r@ == spec_question_bytes(self.name@, self.type_, self.class),
    {
        let mut out: Vec<u8> = Vec::new();
        out.extend_from_slice(self.name.as_slice());
        push_be16(&mut out, self.type_.code());
        push_be16(&mut out, self.class.code());
        proof {
            assert(out@ =~= spec_question_bytes(self.name@, self.type_, self.class));
        }
        out
    }
}

} // verus!
