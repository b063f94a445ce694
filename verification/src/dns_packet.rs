use vstd::prelude::*;
use vstd::string::StrSliceExecFns;
use vstd::utf8::decode_utf8_encode_utf8;
use vstd::utf8::valid_utf8;

use crate::class::Class;
use crate::dns_header::spec_parse_header;
use crate::dns_header::DNSHeader;
use crate::dns_question::DNSQuestion;
use crate::dns_question::QuestionModel;
use crate::dns_record::spec_parse_record;
use crate::dns_record::DNSRecord;
use crate::dns_record::RecordModel;
use crate::errors::DnsError;
use crate::name::decode_name;
use crate::name::encode_dns_name;
use crate::name::lemma_decoded_name_encodable;
use crate::name::spec_decode_name;
use crate::name::spec_encode_name;
use crate::record_type::RecordType;
use crate::wire::spec_u16_at;
use crate::wire::u16_from_be;

verus! {

/// The question found at `pos`: a possibly compressed name followed by the
/// 16-bit type and class codes. The name is stored re-encoded as plain
/// labels; a class code other than IN (1) is rejected.
pub open spec fn spec_parse_question(data: Seq<u8>, pos: int) -> Result<
    (QuestionModel, int),
    DnsError,
> {
    match spec_decode_name(data, pos) {
        Err(e) => Err(e),
        Ok((nb, c)) => if !valid_utf8(nb) {
            Err(DnsError::InvalidLabel)
        } else {
            let p = pos + c;
            if p + 4 > data.len() {
                Err(DnsError::Truncated)
            } else if spec_u16_at(data, p + 2) != 1 {
                Err(DnsError::UnsupportedClass)
            } else {
                Ok(
                    (
                        QuestionModel {
                            name: spec_encode_name(nb),
                            type_: RecordType::spec_from_code(spec_u16_at(data, p)),
                            class: Class::In,
                        },
                        p + 4 - pos,
                    ),
                )
            }
        },
    }
}

/// The `n` questions found one after another from `pos` on, together with
/// the offset just past them.
pub open spec fn spec_parse_questions(data: Seq<u8>, pos: int, n: int) -> Result<
    (Seq<QuestionModel>, int),
    DnsError,
>
    decreases n,
{
    if n <= 0 {
        Ok((seq![], pos))
    } else {
        match spec_parse_question(data, pos) {
            Err(e) => Err(e),
            Ok((q, c)) => match spec_parse_questions(data, pos + c, n - 1) {
                Err(e) => Err(e),
                Ok((qs, end)) => Ok((seq![q] + qs, end)),
            },
        }
    }
}

/// The `n` records found one after another from `pos` on, together with
/// the offset just past them.
pub open spec fn spec_parse_records(data: Seq<u8>, pos: int, n: int) -> Result<
    (Seq<RecordModel>, int),
    DnsError,
>
    decreases n,
{
    if n <= 0 {
        Ok((seq![], pos))
    } else {
        match spec_parse_record(data, pos) {
            Err(e) => Err(e),
            Ok((r, c)) => match spec_parse_records(data, pos + c, n - 1) {
                Err(e) => Err(e),
                Ok((rs, end)) => Ok((seq![r] + rs, end)),
            },
        }
    }
}

/// A whole response buffer: the 12-byte header, then exactly as many
/// questions, answers, authorities and additionals as the header declares.
/// A buffer exhausted before every declared entry is read is truncated;
/// bytes after the last declared entry are ignored.
pub open spec fn spec_parse_packet(data: Seq<u8>) -> Result<PacketModel, DnsError> {
    if data.len() < 12 {
        Err(DnsError::Truncated)
    } else {
        let h = spec_parse_header(data);
        match spec_parse_questions(data, 12, h.num_questions as int) {
            Err(e) => Err(e),
            Ok((qs, after_questions)) => match spec_parse_records(data, after_questions, h.num_answers as int) {
                Err(e) => Err(e),
                Ok((answers, after_answers)) => match spec_parse_records(data, after_answers, h.num_authorities as int) {
                    Err(e) => Err(e),
                    Ok((authorities, after_authorities)) => match spec_parse_records(
                        data,
                        after_authorities,
                        h.num_additionals as int,
                    ) {
                        Err(e) => Err(e),
                        Ok((additionals, _)) => Ok(
                            PacketModel { header: h, questions: qs, answers, authorities, additionals },
                        ),
                    },
                },
            },
        }
    }
}

proof fn lemma_parse_questions_count(data: Seq<u8>, pos: int, n: int)
    requires
        n >= 0,
    ensures
        spec_parse_questions(data, pos, n) matches Ok(p) ==> p.0.len() == n,
    decreases n,
{
    if n > 0 {
        match spec_parse_question(data, pos) {
            Ok((q, c)) => {
                lemma_parse_questions_count(data, pos + c, n - 1);
            },
            Err(_) => {},
        }
    }
}

proof fn lemma_parse_records_count(data: Seq<u8>, pos: int, n: int)
    requires
        n >= 0,
    ensures
        spec_parse_records(data, pos, n) matches Ok(p) ==> p.0.len() == n,
    decreases n,
{
    if n > 0 {
        match spec_parse_record(data, pos) {
            Ok((r, c)) => {
                lemma_parse_records_count(data, pos + c, n - 1);
            },
            Err(_) => {},
        }
    }
}

/// Every packet the parser accepts keeps the header's invariant: each of
/// the four sections holds exactly as many entries as the header's
/// matching count declares.
pub proof fn lemma_packet_counts_match_header(data: Seq<u8>)
    ensures
        spec_parse_packet(data) matches Ok(m) ==> {
            &&& m.questions.len() == m.header.num_questions
            &&& m.answers.len() == m.header.num_answers
            &&& m.authorities.len() == m.header.num_authorities
            &&& m.additionals.len() == m.header.num_additionals
        },
{
    if data.len() >= 12 {
        let h = spec_parse_header(data);
        lemma_parse_questions_count(data, 12, h.num_questions as int);
        match spec_parse_questions(data, 12, h.num_questions as int) {
            Ok((_, after_questions)) => {
                lemma_parse_records_count(data, after_questions, h.num_answers as int);
                match spec_parse_records(data, after_questions, h.num_answers as int) {
                    Ok((_, after_answers)) => {
                        lemma_parse_records_count(data, after_answers, h.num_authorities as int);
                        match spec_parse_records(data, after_answers, h.num_authorities as int) {
                            Ok((_, after_authorities)) => {
                                lemma_parse_records_count(data, after_authorities, h.num_additionals as int);
                            },
                            Err(_) => {},
                        }
                    },
                    Err(_) => {},
                }
            },
            Err(_) => {},
        }
    }
}

/// One parsed message: the header and the four record sections, whose
/// lengths equal the header's counts.
#[derive(Debug, PartialEq, Eq)]
pub struct DNSPacket {
    pub header: DNSHeader,
    pub questions: Vec<DNSQuestion>,
    pub answers: Vec<DNSRecord>,
    pub authorities: Vec<DNSRecord>,
    pub additionals: Vec<DNSRecord>,
}

/// A packet as plain values.
pub ghost struct PacketModel {
    pub header: DNSHeader,
    pub questions: Seq<QuestionModel>,
    pub answers: Seq<RecordModel>,
    pub authorities: Seq<RecordModel>,
    pub additionals: Seq<RecordModel>,
}

impl View for DNSPacket {
    type V = PacketModel;

    open spec fn view(&self) -> PacketModel {
        PacketModel {
            header: self.header,
            questions: self.questions@.map_values(|q: DNSQuestion| q@),
            answers: self.answers@.map_values(|r: DNSRecord| r@),
            authorities: self.authorities@.map_values(|r: DNSRecord| r@),
            additionals: self.additionals@.map_values(|r: DNSRecord| r@),
        }
    }
}

/// Reads the question at `pos` and reports how many bytes it occupies.
fn parse_question_at(data: &[u8], pos: usize) -> (r: Result<(DNSQuestion, usize), DnsError>)
    ensures
        (match spec_parse_question(data@, pos as int) {
            Err(e) => r == Err::<(DNSQuestion, usize), DnsError>(e),
            Ok(m) => {
                &&& r matches Ok(p)
                &&& p.0@ == m.0
                &&& p.1 == m.1
            },
        }),
        r matches Ok(p) ==> 1 <= p.1 && pos + p.1 <= data@.len(),
{
    let n = data.len();
    let (name_str, name_len) = match decode_name(data, pos) {
        Ok(v) => v,
        Err(e) => {
            return Err(e);
        },
    };
    let p = pos + name_len;
    if n - p < 4 {
        return Err(DnsError::Truncated);
    }
    let type_ = RecordType::from_code(u16_from_be(data[p], data[p + 1]));
    let class = match Class::from_code(u16_from_be(data[p + 2], data[p + 3])) {
        Ok(c) => c,
        Err(e) => {
            return Err(e);
        },
    };
    proof {
        let nb = spec_decode_name(data@, pos as int)->Ok_0.0;
        lemma_decoded_name_encodable(data@, pos as int);
        decode_utf8_encode_utf8(nb);
    }
    let wire_name = encode_dns_name(name_str.as_str());
    Ok((DNSQuestion { name: wire_name, type_, class }, p + 4 - pos))
}

/// Reads `n` questions one after another from `pos` on.
fn parse_questions(data: &[u8], pos: usize, n: u16) -> (r: Result<(Vec<DNSQuestion>, usize), DnsError>)
    requires
        pos <= data@.len(),
    ensures
        (match spec_parse_questions(data@, pos as int, n as int) {
            Err(e) => r == Err::<(Vec<DNSQuestion>, usize), DnsError>(e),
            Ok(m) => {
                &&& r matches Ok(p)
                &&& p.0@.map_values(|q: DNSQuestion| q@) == m.0
                &&& p.1 == m.1
            },
        }),
        r matches Ok(p) ==> pos <= p.1 <= data@.len(),
{
    let buf_len = data.len();
    let mut out: Vec<DNSQuestion> = Vec::new();
    let mut cur: usize = pos;
    let mut i: u16 = 0;
    proof {
        assert(out@.map_values(|q: DNSQuestion| q@) =~= Seq::<QuestionModel>::empty());
    }
    while i < n
        invariant
            i <= n,
            buf_len == data@.len(),
            pos <= cur <= data@.len(),
            (match spec_parse_questions(data@, cur as int, (n - i) as int) {
                Ok(m) => spec_parse_questions(data@, pos as int, n as int) == Ok::<_, DnsError>(
                    (out@.map_values(|q: DNSQuestion| q@) + m.0, m.1),
                ),
                Err(e) => spec_parse_questions(data@, pos as int, n as int) == Err::<
                    (Seq<QuestionModel>, int),
                    DnsError,
                >(e),
            }),
        decreases n - i,
    {
        match parse_question_at(data, cur) {
            Err(e) => {
                return Err(e);
            },
            Ok((q, c)) => {
                let ghost prev_out = out@.map_values(|q: DNSQuestion| q@);
                let ghost qm = q@;
                out.push(q);
                cur = cur + c;
                i = i + 1;
                proof {
                    assert(out@.map_values(|q: DNSQuestion| q@) =~= prev_out.push(qm));
                    match spec_parse_questions(data@, cur as int, (n - i) as int) {
                        Ok(m) => {
                            assert(prev_out + (seq![qm] + m.0) =~= prev_out.push(qm) + m.0);
                        },
                        Err(_) => {},
                    }
                }
            },
        }
    }
    proof {
        assert(out@.map_values(|q: DNSQuestion| q@) + Seq::<QuestionModel>::empty() =~= out@.map_values(
            |q: DNSQuestion| q@,
        ));
    }
    Ok((out, cur))
}

/// Reads `n` records one after another from `pos` on.
fn parse_records(data: &[u8], pos: usize, n: u16) -> (r: Result<(Vec<DNSRecord>, usize), DnsError>)
    requires
        pos <= data@.len(),
    ensures
        (match spec_parse_records(data@, pos as int, n as int) {
            Err(e) => r == Err::<(Vec<DNSRecord>, usize), DnsError>(e),
            Ok(m) => {
                &&& r matches Ok(p)
                &&& p.0@.map_values(|r: DNSRecord| r@) == m.0
                &&& p.1 == m.1
            },
        }),
        r matches Ok(p) ==> pos <= p.1 <= data@.len(),
{
    let buf_len = data.len();
    let mut out: Vec<DNSRecord> = Vec::new();
    let mut cur: usize = pos;
    let mut i: u16 = 0;
    proof {
        assert(out@.map_values(|r: DNSRecord| r@) =~= Seq::<RecordModel>::empty());
    }
    while i < n
        invariant
            i <= n,
            buf_len == data@.len(),
            pos <= cur <= data@.len(),
            (match spec_parse_records(data@, cur as int, (n - i) as int) {
                Ok(m) => spec_parse_records(data@, pos as int, n as int) == Ok::<_, DnsError>(
                    (out@.map_values(|r: DNSRecord| r@) + m.0, m.1),
                ),
                Err(e) => spec_parse_records(data@, pos as int, n as int) == Err::<
                    (Seq<RecordModel>, int),
                    DnsError,
                >(e),
            }),
        decreases n - i,
    {
        match DNSRecord::parse(data, cur) {
            Err(e) => {
                return Err(e);
            },
            Ok((rec, c)) => {
                let ghost prev_out = out@.map_values(|r: DNSRecord| r@);
                let ghost rm = rec@;
                out.push(rec);
                cur = cur + c;
                i = i + 1;
                proof {
                    assert(out@.map_values(|r: DNSRecord| r@) =~= prev_out.push(rm));
                    match spec_parse_records(data@, cur as int, (n - i) as int) {
                        Ok(m) => {
                            assert(prev_out + (seq![rm] + m.0) =~= prev_out.push(rm) + m.0);
                        },
                        Err(_) => {},
                    }
                }
            },
        }
    }
    proof {
        assert(out@.map_values(|r: DNSRecord| r@) + Seq::<RecordModel>::empty() =~= out@.map_values(
            |r: DNSRecord| r@,
        ));
    }
    Ok((out, cur))
}

impl DNSPacket {
    /// Returns the header.
    pub fn header(&self) -> (r: &DNSHeader)
        ensures
            *r == self.header,
    {
        &self.header
    }

    /// Returns the question section.
    pub fn questions(&self) -> (r: &[DNSQuestion])
        ensures
            r@ == self.questions@,
    {
        self.questions.as_slice()
    }

    /// Returns the answer section.
    pub fn answers(&self) -> (r: &[DNSRecord])
        ensures
            r@ == self.answers@,
    {
        self.answers.as_slice()
    }

    /// Returns the authority section.
    pub fn authorities(&self) -> (r: &[DNSRecord])
        ensures
            r@ == self.authorities@,
    {
        self.authorities.as_slice()
    }

    /// Returns the additional section.
    pub fn additionals(&self) -> (r: &[DNSRecord])
        ensures
            r@ == self.additionals@,
    {
        self.additionals.as_slice()
    }

    /// Parses a whole response buffer: header, then exactly the declared
    /// number of questions, answers, authorities and additionals, each
    /// entry advancing a shared cursor by the bytes it occupies.
    pub fn parse(data: &[u8]) -> (r: Result<DNSPacket, DnsError>)
        ensures
            (match spec_parse_packet(data@) {
                Err(e) => r == Err::<DNSPacket, DnsError>(e),
                Ok(m) => {
                    &&& r matches Ok(p)
                    &&& p@ == m
                },
            }),
    {
        let header = match DNSHeader::parse(data) {
            Ok(h) => h,
            Err(e) => {
                return Err(e);
            },
        };
        let (questions, after_questions) = match parse_questions(data, 12, header.num_questions()) {
            Ok(v) => v,
            Err(e) => {
                return Err(e);
            },
        };
        let (answers, after_answers) = match parse_records(data, after_questions, header.num_answers()) {
            Ok(v) => v,
            Err(e) => {
                return Err(e);
            },
        };
        let (authorities, after_authorities) = match parse_records(data, after_answers, header.num_authorities()) {
            Ok(v) => v,
            Err(e) => {
                return Err(e);
            },
        };
        let (additionals, _) = match parse_records(data, after_authorities, header.num_additionals()) {
            Ok(v) => v,
            Err(e) => {
                return Err(e);
            },
        };
        Ok(DNSPacket { header, questions, answers, authorities, additionals })
    }
}

} // verus!
