use dns_resolver::dns::packet::DnsPacket;
use dns_resolver::dns::question::{DnsQuestion, QueryType};
use dns_resolver::dns::record::{DnsRecord, Ipv4Address};
use dns_resolver::engine::{
    EngineAction, LookupStep, RecursionEngine, build_query, build_response, next_step, root_ns,
    MAX_HOPS,
};
use dns_resolver::result_code::ResultCode;

fn referral(glued: bool) -> DnsPacket {
    let mut p = DnsPacket::new();
    p.header.response = true;
    p.authorities.push(DnsRecord::NS {
        domain: String::from("com"),
        host: String::from("a.gtld-servers.net"),
        ttl: 3600,
    });
    if glued {
        p.resources.push(DnsRecord::A {
            domain: String::from("a.gtld-servers.net"),
            addr: Ipv4Address { a: 192, b: 5, c: 6, d: 30 },
            ttl: 3600,
        });
    }
    p
}

#[test]
fn resolved_ns_found_through_glue() {
    let p = referral(true);
    assert_eq!(
        p.get_resolved_ns("www.google.com"),
        Some(Ipv4Address { a: 192, b: 5, c: 6, d: 30 })
    );
    assert_eq!(p.get_unresolved_ns("www.google.com"), None);
}

#[test]
fn unresolved_ns_reported_without_glue() {
    let p = referral(false);
    assert_eq!(p.get_resolved_ns("www.google.com"), None);
    assert_eq!(
        p.get_unresolved_ns("www.google.com"),
        Some(String::from("a.gtld-servers.net"))
    );
}

#[test]
fn suffix_match_is_label_aligned() {
    let mut p = DnsPacket::new();
    p.authorities.push(DnsRecord::NS {
        domain: String::from("le.com"),
        host: String::from("ns.le.com"),
        ttl: 1,
    });
    p.resources.push(DnsRecord::A {
        domain: String::from("ns.le.com"),
        addr: Ipv4Address { a: 1, b: 2, c: 3, d: 4 },
        ttl: 1,
    });
    // "google.com" ends in the characters "le.com", but not at a label edge
    assert_eq!(p.get_resolved_ns("google.com"), None);
    assert_eq!(
        p.get_resolved_ns("www.le.com"),
        Some(Ipv4Address { a: 1, b: 2, c: 3, d: 4 })
    );
}

#[test]
fn suffix_match_is_case_insensitive() {
    let p = referral(true);
    assert_eq!(
        p.get_resolved_ns("WWW.GOOGLE.COM"),
        Some(Ipv4Address { a: 192, b: 5, c: 6, d: 30 })
    );
}

#[test]
fn first_a_record_is_picked() {
    let mut p = DnsPacket::new();
    assert_eq!(p.get_random_a(), None);
    p.answers.push(DnsRecord::NS {
        domain: String::from("x"),
        host: String::from("y"),
        ttl: 1,
    });
    p.answers.push(DnsRecord::A {
        domain: String::from("x"),
        addr: Ipv4Address { a: 9, b: 9, c: 9, d: 9 },
        ttl: 1,
    });
    p.answers.push(DnsRecord::A {
        domain: String::from("x"),
        addr: Ipv4Address { a: 8, b: 8, c: 8, d: 8 },
        ttl: 1,
    });
    assert_eq!(p.get_random_a(), Some(Ipv4Address { a: 9, b: 9, c: 9, d: 9 }));
}

#[test]
fn answers_win_over_referrals() {
    let mut p = referral(true);
    p.answers.push(DnsRecord::A {
        domain: String::from("www.google.com"),
        addr: Ipv4Address { a: 142, b: 250, c: 1, d: 1 },
        ttl: 1,
    });
    assert!(matches!(next_step(&p, "www.google.com"), LookupStep::Answered));
}

#[test]
fn nxdomain_returned_verbatim() {
    // even a referral-shaped response is final once it says NXDOMAIN
    let mut p = referral(true);
    p.header.rescode = ResultCode::NXDOMAIN;
    assert!(matches!(next_step(&p, "www.google.com"), LookupStep::NameError));
}

#[test]
fn glued_referral_hops() {
    let p = referral(true);
    match next_step(&p, "www.google.com") {
        LookupStep::Hop { ns } => assert_eq!(ns, Ipv4Address { a: 192, b: 5, c: 6, d: 30 }),
        _ => panic!("expected a hop"),
    }
}

#[test]
fn unglued_referral_recurses() {
    let p = referral(false);
    match next_step(&p, "www.google.com") {
        LookupStep::ResolveNs { host } => assert_eq!(host, "a.gtld-servers.net"),
        _ => panic!("expected a nested resolution"),
    }
}

#[test]
fn dead_end_gives_up() {
    let p = DnsPacket::new();
    assert!(matches!(next_step(&p, "www.google.com"), LookupStep::GiveUp));
}

#[test]
fn engine_starts_at_root() {
    let e = RecursionEngine::new(16);
    assert_eq!(e.ns, root_ns());
    assert_eq!(e.ns, Ipv4Address { a: 198, b: 41, c: 0, d: 4 });
    assert_eq!(e.hops_left, MAX_HOPS);
}

#[test]
fn engine_budget_forces_return() {
    let mut e = RecursionEngine::new(16);
    let p = referral(true);
    let mut hops = 0u32;
    loop {
        match e.on_response(&p, "www.google.com") {
            EngineAction::Query { ns } => {
                assert_eq!(ns, Ipv4Address { a: 192, b: 5, c: 6, d: 30 });
                hops += 1;
                assert!(hops <= MAX_HOPS as u32);
            }
            EngineAction::Return => break,
            EngineAction::Resolve { .. } => panic!("glued referral never recurses"),
        }
    }
    // the walk went around the delegation loop until the budget ran out
    assert_eq!(hops, MAX_HOPS as u32);
    assert_eq!(e.hops_left, 0);
}

#[test]
fn engine_nesting_is_bounded() {
    let mut depth_seen = 0u32;
    let mut e = RecursionEngine::new(3);
    loop {
        match e.nested() {
            Some(sub) => {
                depth_seen += 1;
                e = sub;
            }
            None => break,
        }
    }
    assert_eq!(depth_seen, 3);
}

#[test]
fn engine_resumes_after_nested_lookup() {
    let mut e = RecursionEngine::new(16);
    let p = referral(false);
    match e.on_response(&p, "www.google.com") {
        EngineAction::Resolve { host } => assert_eq!(host, "a.gtld-servers.net"),
        _ => panic!("expected a nested resolution"),
    }
    e.resume(Ipv4Address { a: 192, b: 5, c: 6, d: 30 });
    assert_eq!(e.ns, Ipv4Address { a: 192, b: 5, c: 6, d: 30 });
    assert_eq!(e.hops_left, MAX_HOPS - 1);
}

#[test]
fn query_is_built_without_recursion_flag() {
    let q = build_query(12345, String::from("www.google.com"), QueryType::A);
    assert_eq!(q.header.id, 12345);
    assert_eq!(q.header.questions, 1);
    assert!(!q.header.recursion_desired);
    assert_eq!(q.questions.len(), 1);
    assert_eq!(q.questions[0], DnsQuestion::new(String::from("www.google.com"), QueryType::A));
    assert!(q.answers.is_empty() && q.authorities.is_empty() && q.resources.is_empty());
}

#[test]
fn response_without_question_is_formerr() {
    let request = DnsPacket::new();
    let r = build_response(request, None);
    assert_eq!(r.header.rescode, ResultCode::FORMERR);
    assert!(r.header.response);
    assert!(r.header.recursion_desired);
    assert!(r.header.recursion_available);
    assert!(r.questions.is_empty() && r.answers.is_empty());
}

#[test]
fn response_copies_lookup_outcome() {
    let mut request = DnsPacket::new();
    request.header.id = 4711;
    request.questions.push(DnsQuestion::new(String::from("example.com"), QueryType::A));
    let mut result = DnsPacket::new();
    result.header.rescode = ResultCode::NXDOMAIN;
    result.authorities.push(DnsRecord::NS {
        domain: String::from("com"),
        host: String::from("a.gtld-servers.net"),
        ttl: 1,
    });
    let r = build_response(request, Some(result));
    assert_eq!(r.header.id, 4711);
    assert_eq!(r.header.rescode, ResultCode::NXDOMAIN);
    assert_eq!(r.questions.len(), 1);
    assert_eq!(r.questions[0].name, "example.com");
    assert_eq!(r.authorities.len(), 1);
}

#[test]
fn failed_lookup_becomes_servfail() {
    let mut request = DnsPacket::new();
    request.header.id = 1;
    request.questions.push(DnsQuestion::new(String::from("example.com"), QueryType::A));
    let r = build_response(request, None);
    assert_eq!(r.header.rescode, ResultCode::SERVFAIL);
    assert!(r.answers.is_empty());
}
