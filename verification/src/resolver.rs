use vstd::pervasive::unreached;
use vstd::prelude::*;
use vstd::utf8::encode_utf8;

use crate::constants::MAX_REFERRAL_HOPS;
use crate::dns_packet::DNSPacket;
use crate::dns_packet::PacketModel;
use crate::dns_record::DNSRecord;
use crate::dns_record::RecordModel;
use crate::errors::DnsError;
use crate::ipv4::Ipv4Addr;
use crate::record_data::RecordDataModel;
use crate::record_type::RecordType;

verus! {

// ---------------------------------------------------------------------------
// Picking records out of a section
// ---------------------------------------------------------------------------
/// The index of the first record whose payload is an address, if any.
pub open spec fn spec_first_a(rs: Seq<RecordModel>) -> Option<int>
    decreases rs.len(),
{
    if rs.len() == 0 {
        None
    } else if rs[0].data is A {
        Some(0)
    } else {
        match spec_first_a(rs.drop_first()) {
            Some(i) => Some(i + 1),
            None => None,
        }
    }
}

/// The index of the first record whose payload is a domain name, if any.
pub open spec fn spec_first_ns(rs: Seq<RecordModel>) -> Option<int>
    decreases rs.len(),
{
    if rs.len() == 0 {
        None
    } else if rs[0].data is NS {
        Some(0)
    } else {
        match spec_first_ns(rs.drop_first()) {
            Some(i) => Some(i + 1),
            None => None,
        }
    }
}

pub proof fn lemma_first_a_props(rs: Seq<RecordModel>)
    ensures
        match spec_first_a(rs) {
            Some(i) => 0 <= i < rs.len() && rs[i].data is A && forall|j: int|
                0 <= j < i ==> !((#[trigger] rs[j]).data is A),
            None => forall|j: int| 0 <= j < rs.len() ==> !((#[trigger] rs[j]).data is A),
        },
    decreases rs.len(),
{
    if rs.len() > 0 && !(rs[0].data is A) {
        lemma_first_a_props(rs.drop_first());
        match spec_first_a(rs) {
            Some(i) => {
                assert(rs.drop_first()[i - 1] == rs[i]);
                assert forall|j: int| 0 <= j < i implies !((#[trigger] rs[j]).data is A) by {
                    if j > 0 {
                        assert(rs.drop_first()[j - 1] == rs[j]);
                    }
                }
            },
            None => {
                assert forall|j: int| 0 <= j < rs.len() implies !((#[trigger] rs[j]).data is A) by {
                    if j > 0 {
                        assert(rs.drop_first()[j - 1] == rs[j]);
                    }
                }
            },
        }
    }
}

pub proof fn lemma_first_ns_props(rs: Seq<RecordModel>)
    ensures
        match spec_first_ns(rs) {
            Some(i) => 0 <= i < rs.len() && rs[i].data is NS && forall|j: int|
                0 <= j < i ==> !((#[trigger] rs[j]).data is NS),
            None => forall|j: int| 0 <= j < rs.len() ==> !((#[trigger] rs[j]).data is NS),
        },
    decreases rs.len(),
{
    if rs.len() > 0 && !(rs[0].data is NS) {
        lemma_first_ns_props(rs.drop_first());
        match spec_first_ns(rs) {
            Some(i) => {
                assert(rs.drop_first()[i - 1] == rs[i]);
                assert forall|j: int| 0 <= j < i implies !((#[trigger] rs[j]).data is NS) by {
                    if j > 0 {
                        assert(rs.drop_first()[j - 1] == rs[j]);
                    }
                }
            },
            None => {
                assert forall|j: int| 0 <= j < rs.len() implies !((#[trigger] rs[j]).data is NS) by {
                    if j > 0 {
                        assert(rs.drop_first()[j - 1] == rs[j]);
                    }
                }
            },
        }
    }
}

proof fn lemma_first_a_skip(rs: Seq<RecordModel>, i: int)
    requires
        0 <= i <= rs.len(),
        forall|j: int| 0 <= j < i ==> !((#[trigger] rs[j]).data is A),
    ensures
        spec_first_a(rs) == match spec_first_a(rs.skip(i)) {
            Some(j) => Some(i + j),
            None => None::<int>,
        },
    decreases i,
{
    if i == 0 {
        assert(rs.skip(0) =~= rs);
    } else {
        lemma_first_a_skip(rs.drop_first(), i - 1);
        assert(rs.drop_first().skip(i - 1) =~= rs.skip(i));
    }
}

proof fn lemma_first_ns_skip(rs: Seq<RecordModel>, i: int)
    requires
        0 <= i <= rs.len(),
        forall|j: int| 0 <= j < i ==> !((#[trigger] rs[j]).data is NS),
    ensures
        spec_first_ns(rs) == match spec_first_ns(rs.skip(i)) {
            Some(j) => Some(i + j),
            None => None::<int>,
        },
    decreases i,
{
    if i == 0 {
        assert(rs.skip(0) =~= rs);
    } else {
        lemma_first_ns_skip(rs.drop_first(), i - 1);
        assert(rs.drop_first().skip(i - 1) =~= rs.skip(i));
    }
}

/// Returns the first record of the answer section whose payload is an
/// address: the record that resolves the query, when there is one.
pub fn get_answer(packet: &DNSPacket) -> (r: Option<&DNSRecord>)
    ensures
        match spec_first_a(packet@.answers) {
            Some(i) => r matches Some(rec) && rec@ == packet@.answers[i],
            None => r is None,
        },
{
    let n = packet.answers.len();
    let mut i: usize = 0;
    while i < n
        invariant
            i <= n,
            n == packet.answers@.len(),
            forall|j: int| 0 <= j < i ==> !((#[trigger] packet@.answers[j]).data is A),
        decreases n - i,
    {
        let rec = &packet.answers[i];
        proof {
            assert(rec@ == packet@.answers[i as int]);
        }
        if rec.data.get_A().is_some() {
            proof {
                lemma_first_a_skip(packet@.answers, i as int);
                assert(packet@.answers.skip(i as int)[0] == packet@.answers[i as int]);
            }
            return Some(rec);
        }
        i = i + 1;
    }
    proof {
        lemma_first_a_skip(packet@.answers, n as int);
        assert(packet@.answers.skip(n as int) =~= Seq::<RecordModel>::empty());
    }
    None
}

/// Returns the first address found in the additional section: the glue
/// that names the next server to ask, when there is any.
pub fn get_name_server_ip(packet: &DNSPacket) -> (r: Option<&Ipv4Addr>)
    ensures
        match spec_first_a(packet@.additionals) {
            Some(i) => r matches Some(ip) && packet@.additionals[i].data == RecordDataModel::A(
                *ip,
            ),
            None => r is None,
        },
{
    let n = packet.additionals.len();
    let mut i: usize = 0;
    while i < n
        invariant
            i <= n,
            n == packet.additionals@.len(),
            forall|j: int| 0 <= j < i ==> !((#[trigger] packet@.additionals[j]).data is A),
        decreases n - i,
    {
        let rec = &packet.additionals[i];
        proof {
            assert(rec@ == packet@.additionals[i as int]);
        }
        match &rec.data {
            crate::record_data::RecordData::A(ip) => {
                proof {
                    lemma_first_a_skip(packet@.additionals, i as int);
                    assert(packet@.additionals.skip(i as int)[0] == packet@.additionals[i as int]);
                }
                return Some(ip);
            },
            _ => {},
        }
        i = i + 1;
    }
    proof {
        lemma_first_a_skip(packet@.additionals, n as int);
        assert(packet@.additionals.skip(n as int) =~= Seq::<RecordModel>::empty());
    }
    None
}

/// Returns the first domain-name payload found in the authority section:
/// the nameserver to resolve next, when there is any.
pub fn get_name_server(packet: &DNSPacket) -> (r: Option<&str>)
    ensures
        match spec_first_ns(packet@.authorities) {
            Some(i) => r matches Some(s) && packet@.authorities[i].data == RecordDataModel::NS(
                encode_utf8(s@),
            ),
            None => r is None,
        },
{
    let n = packet.authorities.len();
    let mut i: usize = 0;
    while i < n
        invariant
            i <= n,
            n == packet.authorities@.len(),
            forall|j: int| 0 <= j < i ==> !((#[trigger] packet@.authorities[j]).data is NS),
        decreases n - i,
    {
        let rec = &packet.authorities[i];
        proof {
            assert(rec@ == packet@.authorities[i as int]);
        }
        match &rec.data {
            crate::record_data::RecordData::NS(name) => {
                proof {
                    lemma_first_ns_skip(packet@.authorities, i as int);
                    assert(packet@.authorities.skip(i as int)[0] == packet@.authorities[i as int]);
                }
                return Some(name.as_str());
            },
            _ => {},
        }
        i = i + 1;
    }
    proof {
        lemma_first_ns_skip(packet@.authorities, n as int);
        assert(packet@.authorities.skip(n as int) =~= Seq::<RecordModel>::empty());
    }
    None
}

// ---------------------------------------------------------------------------
// The iterative resolution engine
//
// The engine is a state machine: it holds a stack of pending queries and
// decides, from each response, whether the resolution is finished, which
// server to ask next, or that no progress is possible. Sending a query
// and receiving its response is the caller's part; the engine never
// touches the network.
// ---------------------------------------------------------------------------
/// One pending query: a domain name asked of one nameserver.
#[derive(Debug)]
pub struct Frame {
    pub domain: String,
    pub record_type: RecordType,
    pub nameserver: Ipv4Addr,
}

/// A pending query as plain values; the domain is the byte sequence of
/// its dotted form.
pub ghost struct FrameModel {
    pub domain: Seq<u8>,
    pub record_type: RecordType,
    pub nameserver: Ipv4Addr,
}

impl View for Frame {
    type V = FrameModel;

    open spec fn view(&self) -> FrameModel {
        FrameModel {
            domain: encode_utf8(self.domain@),
            record_type: self.record_type,
            nameserver: self.nameserver,
        }
    }
}

/// The engine's state: the stack of pending queries, the last one on top
/// and on the wire, and the referral budget that remains.
#[derive(Debug)]
pub struct ResolverState {
    pub frames: Vec<Frame>,
    pub budget: u32,
}

/// The state as plain values.
pub ghost struct StateModel {
    pub frames: Seq<FrameModel>,
    pub budget: u32,
}

impl View for ResolverState {
    type V = StateModel;

    open spec fn view(&self) -> StateModel {
        StateModel { frames: self.frames@.map_values(|f: Frame| f@), budget: self.budget }
    }
}

/// Where one transition lands: either the resolution is finished with an
/// address, or the engine wants one more query answered.
#[derive(Debug)]
pub enum Resolution {
    Querying(ResolverState),
    Resolved(Ipv4Addr),
}

/// A transition's landing point as plain values.
pub ghost enum ResolutionModel {
    Querying(StateModel),
    Resolved(Ipv4Addr),
}

impl View for Resolution {
    type V = ResolutionModel;

    open spec fn view(&self) -> ResolutionModel {
        match self {
            Resolution::Querying(s) => ResolutionModel::Querying(s@),
            Resolution::Resolved(ip) => ResolutionModel::Resolved(*ip),
        }
    }
}

/// The address payload of a record known to hold one.
pub open spec fn spec_a_ip(d: RecordDataModel) -> Ipv4Addr {
    match d {
        RecordDataModel::A(ip) => ip,
        _ => Ipv4Addr { o0: 0, o1: 0, o2: 0, o3: 0 },
    }
}

/// The name payload of a record known to hold one.
pub open spec fn spec_ns_name(d: RecordDataModel) -> Seq<u8> {
    match d {
        RecordDataModel::NS(name) => name,
        _ => seq![],
    }
}

/// The fixed root nameserver every resolution starts from.
pub open spec fn spec_root_server() -> Ipv4Addr {
    Ipv4Addr { o0: 198, o1: 41, o2: 0, o3: 4 }
}

/// Returns the fixed root nameserver every resolution starts from.
pub fn root_server() -> (r: Ipv4Addr)
    ensures
        r == spec_root_server(),
{
    Ipv4Addr::new(198, 41, 0, 4)
}

/// Where the engine goes from state `s` on receiving the response `p` to
/// the top frame's query. In order: a spent budget fails; an address in
/// the answer section resolves the top frame (finishing the resolution,
/// or handing the parent frame its nameserver's address); an address in
/// the additional section is glue, re-aiming the top frame; a name in the
/// authority section opens a fresh sub-resolution of that nameserver from
/// the root; a response with none of these is `NoProgress`.
pub open spec fn spec_advance(s: StateModel, p: PacketModel) -> Result<ResolutionModel, DnsError> {
    if s.budget == 0 {
        Err(DnsError::HopLimitExceeded)
    } else {
        let top = s.frames.last();
        match spec_first_a(p.answers) {
            Some(i) => {
                let ip = spec_a_ip(p.answers[i].data);
                if s.frames.len() == 1 {
                    Ok(ResolutionModel::Resolved(ip))
                } else {
                    let parent = s.frames[s.frames.len() - 2];
                    Ok(
                        ResolutionModel::Querying(
                            StateModel {
                                frames: s.frames.take(s.frames.len() - 2).push(
                                    FrameModel { nameserver: ip, ..parent },
                                ),
                                budget: (s.budget - 1) as u32,
                            },
                        ),
                    )
                }
            },
            None => match spec_first_a(p.additionals) {
                Some(i) => Ok(
                    ResolutionModel::Querying(
                        StateModel {
                            frames: s.frames.take(s.frames.len() - 1).push(
                                FrameModel {
                                    nameserver: spec_a_ip(p.additionals[i].data),
                                    ..top
                                },
                            ),
                            budget: (s.budget - 1) as u32,
                        },
                    ),
                ),
                None => match spec_first_ns(p.authorities) {
                    Some(i) => Ok(
                        ResolutionModel::Querying(
                            StateModel {
                                frames: s.frames.push(
                                    FrameModel {
                                        domain: spec_ns_name(p.authorities[i].data),
                                        record_type: RecordType::A,
                                        nameserver: spec_root_server(),
                                    },
                                ),
                                budget: (s.budget - 1) as u32,
                            },
                        ),
                    ),
                    None => Err(DnsError::NoProgress),
                },
            },
        }
    }
}

impl ResolverState {
    /// Starts resolving `domain`: one frame aimed at the root server,
    /// with the full referral budget.
    pub fn start(domain: String, record_type: RecordType) -> (r: Self)
        ensures
            r@.frames =~= seq![
                FrameModel {
                    domain: encode_utf8(domain@),
                    record_type,
                    nameserver: spec_root_server(),
                },
            ],
            r@.budget == MAX_REFERRAL_HOPS,
    {
        let mut frames: Vec<Frame> = Vec::new();
        frames.push(Frame { domain, record_type, nameserver: root_server() });
        ResolverState { frames, budget: MAX_REFERRAL_HOPS }
    }

    /// Returns the nameserver the pending query is aimed at.
    pub fn current_nameserver(&self) -> (r: Ipv4Addr)
        requires
            self@.frames.len() > 0,
        ensures
            r == self@.frames.last().nameserver,
    {
        self.frames[self.frames.len() - 1].nameserver
    }

    /// Returns the domain name the pending query asks about.
    pub fn current_domain(&self) -> (r: &str)
        requires
            self@.frames.len() > 0,
        ensures
            encode_utf8(r@) == self@.frames.last().domain,
    {
        self.frames[self.frames.len() - 1].domain.as_str()
    }

    /// Returns the record type the pending query asks for.
    pub fn current_record_type(&self) -> (r: RecordType)
        requires
            self@.frames.len() > 0,
        ensures
            r == self@.frames.last().record_type,
    {
        self.frames[self.frames.len() - 1].record_type
    }

    /// Takes the response to the pending query and moves the engine one
    /// step, exactly as `spec_advance` lays down.
    pub fn advance(self, packet: &DNSPacket) -> (r: Result<Resolution, DnsError>)
        requires
            self@.frames.len() >= 1,
        ensures
            (match spec_advance(self@, packet@) {
                Err(e) => r == Err::<Resolution, DnsError>(e),
                Ok(m) => {
                    &&& r matches Ok(res)
                    &&& res@ == m
                },
            }),
    {
        let ghost s = self@;
        if self.budget == 0 {
            return Err(DnsError::HopLimitExceeded);
        }
        let mut frames = self.frames;
        let budget = self.budget;
        proof {
            lemma_first_a_props(packet@.answers);
            lemma_first_a_props(packet@.additionals);
            lemma_first_ns_props(packet@.authorities);
        }
        match get_answer(packet) {
            Some(answer) => {
                let ip = match answer.data.get_A() {
                    Some(p) => *p,
                    None => unreached(),
                };
                if frames.len() == 1 {
                    return Ok(Resolution::Resolved(ip));
                }
                frames.pop();
                let mut parent = match frames.pop() {
                    Some(f) => f,
                    None => unreached(),
                };
                parent.nameserver = ip;
                frames.push(parent);
                let next = ResolverState { frames, budget: budget - 1 };
                proof {
                    let i = spec_first_a(packet@.answers)->Some_0;
                    let m = StateModel {
                        frames: s.frames.take(s.frames.len() - 2).push(
                            FrameModel {
                                nameserver: spec_a_ip(packet@.answers[i].data),
                                ..s.frames[s.frames.len() - 2]
                            },
                        ),
                        budget: (s.budget - 1) as u32,
                    };
                    assert(next@.frames =~= m.frames);
                }
                return Ok(Resolution::Querying(next));
            },
            None => {},
        }
        match get_name_server_ip(packet) {
            Some(glue) => {
                let glue_ip = *glue;
                let mut top = match frames.pop() {
                    Some(f) => f,
                    None => unreached(),
                };
                top.nameserver = glue_ip;
                frames.push(top);
                let next = ResolverState { frames, budget: budget - 1 };
                proof {
                    let i = spec_first_a(packet@.additionals)->Some_0;
                    let m = StateModel {
                        frames: s.frames.take(s.frames.len() - 1).push(
                            FrameModel {
                                nameserver: spec_a_ip(packet@.additionals[i].data),
                                ..s.frames.last()
                            },
                        ),
                        budget: (s.budget - 1) as u32,
                    };
                    assert(next@.frames =~= m.frames);
                }
                return Ok(Resolution::Querying(next));
            },
            None => {},
        }
        match get_name_server(packet) {
            Some(ns_name) => {
                let ns_domain = ns_name.to_owned();
                frames.push(
                    Frame { domain: ns_domain, record_type: RecordType::A, nameserver: root_server() },
                );
                let next = ResolverState { frames, budget: budget - 1 };
                proof {
                    let i = spec_first_ns(packet@.authorities)->Some_0;
                    let m = StateModel {
                        frames: s.frames.push(
                            FrameModel {
                                domain: spec_ns_name(packet@.authorities[i].data),
                                record_type: RecordType::A,
                                nameserver: spec_root_server(),
                            },
                        ),
                        budget: (s.budget - 1) as u32,
                    };
                    assert(next@.frames =~= m.frames);
                }
                return Ok(Resolution::Querying(next));
            },
            None => {},
        }
        Err(DnsError::NoProgress)
    }
}

} // verus!
