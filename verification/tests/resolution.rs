use dns_resolver::dns_header::DNSHeader;
use dns_resolver::dns_packet::DNSPacket;
use dns_resolver::dns_record::DNSRecord;
use dns_resolver::errors::DnsError;
use dns_resolver::get_answer;
use dns_resolver::get_name_server;
use dns_resolver::get_name_server_ip;
use dns_resolver::ipv4::Ipv4Addr;
use dns_resolver::record_data::RecordData;
use dns_resolver::record_type::RecordType;
use dns_resolver::resolver::root_server;
use dns_resolver::resolver::Resolution;
use dns_resolver::resolver::ResolverState;

fn record(name: &str, type_: RecordType, data: RecordData) -> DNSRecord {
    DNSRecord {
        name: name.as_bytes().to_vec(),
        type_,
        class: 1,
        ttl: 300,
        data,
    }
}

fn response(
    answers: Vec<DNSRecord>,
    authorities: Vec<DNSRecord>,
    additionals: Vec<DNSRecord>,
) -> DNSPacket {
    let mut header = DNSHeader::new(7, 0);
    header.num_questions = 0;
    header.num_answers = answers.len() as u16;
    header.num_authorities = authorities.len() as u16;
    header.num_additionals = additionals.len() as u16;
    DNSPacket { header, questions: vec![], answers, authorities, additionals }
}

#[test]
fn test_start_queries_root() {
    let state = ResolverState::start("example.com".to_string(), RecordType::A);
    assert_eq!(state.current_nameserver(), root_server());
    assert_eq!(state.current_nameserver(), Ipv4Addr::new(198, 41, 0, 4));
    assert_eq!(state.current_domain(), "example.com");
    assert_eq!(state.current_record_type(), RecordType::A);
}

#[test]
fn test_first_answer_wins() {
    // The answer section's first address resolves the query, whatever
    // comes after it.
    let packet = response(
        vec![
            record("example.com", RecordType::A, RecordData::A(Ipv4Addr::new(93, 184, 216, 34))),
            record("example.com", RecordType::A, RecordData::A(Ipv4Addr::new(10, 0, 0, 1))),
        ],
        vec![],
        vec![],
    );
    let state = ResolverState::start("example.com".to_string(), RecordType::A);
    let outcome = state.advance(&packet).unwrap();
    assert!(matches!(outcome, Resolution::Resolved(ip) if ip == Ipv4Addr::new(93, 184, 216, 34)));
}

#[test]
fn test_non_address_answers_are_skipped() {
    let packet = response(
        vec![
            record("example.com", RecordType::CNAME, RecordData::NS("www.example.com".to_string())),
            record("www.example.com", RecordType::A, RecordData::A(Ipv4Addr::new(93, 184, 216, 34))),
        ],
        vec![],
        vec![],
    );
    let state = ResolverState::start("example.com".to_string(), RecordType::A);
    let outcome = state.advance(&packet).unwrap();
    assert!(matches!(outcome, Resolution::Resolved(ip) if ip == Ipv4Addr::new(93, 184, 216, 34)));
}

#[test]
fn test_glue_redirects_same_domain() {
    // No answer, but the additional section carries a glue address: the
    // same domain is asked again, of that server.
    let glue_ip = Ipv4Addr::new(192, 5, 6, 30);
    let packet = response(
        vec![],
        vec![record("com", RecordType::NS, RecordData::NS("a.gtld-servers.net".to_string()))],
        vec![record("a.gtld-servers.net", RecordType::A, RecordData::A(glue_ip))],
    );
    let state = ResolverState::start("example.com".to_string(), RecordType::A);
    match state.advance(&packet).unwrap() {
        Resolution::Querying(next) => {
            assert_eq!(next.current_domain(), "example.com");
            assert_eq!(next.current_record_type(), RecordType::A);
            assert_eq!(next.current_nameserver(), glue_ip);
        },
        Resolution::Resolved(_) => panic!("expected a further query"),
    }
}

#[test]
fn test_glue_accepted_without_matching_authority() {
    // Glue is trusted as given: an additional-section address is followed
    // even when its owner name matches no nameserver listed in the
    // authority section.
    let glue_ip = Ipv4Addr::new(203, 0, 113, 9);
    let packet = response(
        vec![],
        vec![record("com", RecordType::NS, RecordData::NS("a.gtld-servers.net".to_string()))],
        vec![record("unrelated.example", RecordType::A, RecordData::A(glue_ip))],
    );
    let state = ResolverState::start("example.com".to_string(), RecordType::A);
    match state.advance(&packet).unwrap() {
        Resolution::Querying(next) => {
            assert_eq!(next.current_domain(), "example.com");
            assert_eq!(next.current_nameserver(), glue_ip);
        },
        Resolution::Resolved(_) => panic!("expected a further query"),
    }
}

#[test]
fn test_referral_recurses_then_requeries() {
    // A root response with no answer and no glue, only an authority
    // nameserver's hostname: the engine first resolves that hostname from
    // the root, then re-asks the original domain at the address found.
    let referral = response(
        vec![],
        vec![record("com", RecordType::NS, RecordData::NS("a.gtld-servers.net".to_string()))],
        vec![],
    );
    let state = ResolverState::start("twitter.com".to_string(), RecordType::A);
    let nested = match state.advance(&referral).unwrap() {
        Resolution::Querying(next) => next,
        Resolution::Resolved(_) => panic!("expected a sub-resolution"),
    };
    assert_eq!(nested.current_domain(), "a.gtld-servers.net");
    assert_eq!(nested.current_record_type(), RecordType::A);
    assert_eq!(nested.current_nameserver(), root_server());

    let ns_ip = Ipv4Addr::new(192, 5, 6, 30);
    let ns_answer = response(
        vec![record("a.gtld-servers.net", RecordType::A, RecordData::A(ns_ip))],
        vec![],
        vec![],
    );
    match nested.advance(&ns_answer).unwrap() {
        Resolution::Querying(back) => {
            assert_eq!(back.current_domain(), "twitter.com");
            assert_eq!(back.current_record_type(), RecordType::A);
            assert_eq!(back.current_nameserver(), ns_ip);
        },
        Resolution::Resolved(_) => panic!("the original query is not answered yet"),
    }
}

#[test]
fn test_no_progress() {
    let packet = response(vec![], vec![], vec![]);
    let state = ResolverState::start("example.com".to_string(), RecordType::A);
    assert!(matches!(state.advance(&packet), Err(DnsError::NoProgress)));
}

#[test]
fn test_hop_limit() {
    // A server that only ever refers keeps the engine walking; the
    // referral budget ends the walk instead of letting it run forever.
    let referral = response(
        vec![],
        vec![record("com", RecordType::NS, RecordData::NS("a.gtld-servers.net".to_string()))],
        vec![],
    );
    let mut state = ResolverState::start("example.com".to_string(), RecordType::A);
    let mut steps = 0;
    loop {
        match state.advance(&referral) {
            Ok(Resolution::Querying(next)) => {
                state = next;
                steps += 1;
                assert!(steps <= 64, "the budget must run out after 64 referrals");
            },
            Ok(Resolution::Resolved(_)) => panic!("nothing can be resolved here"),
            Err(e) => {
                assert_eq!(e, DnsError::HopLimitExceeded);
                assert_eq!(steps, 64);
                break;
            },
        }
    }
}

#[test]
fn test_section_getters() {
    let glue_ip = Ipv4Addr::new(1, 2, 3, 4);
    let packet = response(
        vec![record("x", RecordType::NS, RecordData::NS("ns.x".to_string())),
            record("x", RecordType::A, RecordData::A(Ipv4Addr::new(9, 9, 9, 9)))],
        vec![record("x", RecordType::NS, RecordData::NS("ns.x".to_string()))],
        vec![record("ns.x", RecordType::A, RecordData::A(glue_ip))],
    );
    let answer = get_answer(&packet).unwrap();
    assert_eq!(answer.data().get_A(), Some(&Ipv4Addr::new(9, 9, 9, 9)));
    assert_eq!(get_name_server_ip(&packet), Some(&glue_ip));
    assert_eq!(get_name_server(&packet), Some("ns.x"));

    let empty = response(vec![], vec![], vec![]);
    assert!(get_answer(&empty).is_none());
    assert!(get_name_server_ip(&empty).is_none());
    assert!(get_name_server(&empty).is_none());
}
