use vstd::prelude::*;
use crate::dns::header::DnsHeader;
use crate::dns::packet::{DnsPacket, PacketView, spec_resolved_ns, spec_unresolved_ns};
use crate::dns::question::{DnsQuestion, QueryType, QuestionView};
use crate::dns::record::{Ipv4Address, RecordView};
use crate::result_code::ResultCode;

verus! {

/// Hops allowed in one delegation walk before the engine gives up.
pub const MAX_HOPS: u16 = 16;

/// Nested lookups allowed for unglued nameservers.
pub const MAX_DEPTH: u8 = 16;

/// The root nameserver the walk starts from.
pub fn root_ns() -> (r: Ipv4Address)
    ensures
        r == (Ipv4Address { a: 198, b: 41, c: 0, d: 4 }),
{
    Ipv4Address { a: 198, b: 41, c: 0, d: 4 }
}

/// What a response tells the delegation walker to do next.
pub ghost enum StepView {
    /// Non-empty answers with `NOERROR`: the response is the answer.
    Answered,
    /// `NXDOMAIN`: a valid, final outcome, returned verbatim.
    NameError,
    /// A glued referral: query this server next.
    Hop { ns: Ipv4Address },
    /// An unglued referral: resolve this host first, then hop.
    ResolveNs { host: Seq<char> },
    /// No answer and no referral: return the response as-is.
    GiveUp,
}

/// The decision the engine takes on a response, in the priority order of
/// the walk: answer, name error, glued referral, unglued referral,
/// dead end.
pub open spec fn spec_next_step(pv: PacketView, qname: Seq<char>) -> StepView {
    if pv.answers.len() > 0 && pv.header.rescode == ResultCode::NOERROR {
        StepView::Answered
    } else if pv.header.rescode == ResultCode::NXDOMAIN {
        StepView::NameError
    } else {
        match spec_resolved_ns(pv.authorities, pv.resources, qname, 0) {
            Some(ip) => StepView::Hop { ns: ip },
            None => match spec_unresolved_ns(pv.authorities, pv.resources, qname, 0) {
                Some(h) => StepView::ResolveNs { host: h },
                None => StepView::GiveUp,
            },
        }
    }
}

/// A response whose result code is `NXDOMAIN` is final: the walk stops
/// and the response goes back to the caller unchanged, whatever its
/// authority and additional sections hold.
pub proof fn lemma_nxdomain_is_final(pv: PacketView, qname: Seq<char>)
    ensures
        pv.header.rescode == ResultCode::NXDOMAIN ==> spec_next_step(pv, qname)
            == StepView::NameError,
{
}

/// The exec form of one walk decision.
pub enum LookupStep {
    Answered,
    NameError,
    Hop { ns: Ipv4Address },
    ResolveNs { host: String },
    GiveUp,
}

/// Decide what to do with `response` while resolving `qname`.
pub fn next_step(response: &DnsPacket, qname: &str) -> (r: LookupStep)
    ensures
        match r {
            LookupStep::Answered => spec_next_step(response@, qname@) == StepView::Answered,
            LookupStep::NameError => spec_next_step(response@, qname@) == StepView::NameError,
            LookupStep::Hop { ns } => spec_next_step(response@, qname@) == (StepView::Hop { ns }),
            LookupStep::ResolveNs { host } => spec_next_step(response@, qname@)
                == (StepView::ResolveNs { host: host@ }),
            LookupStep::GiveUp => spec_next_step(response@, qname@) == StepView::GiveUp,
        },
{
    if response.answers.len() > 0 && response.header.rescode.to_num() == 0 {
        return LookupStep::Answered;
    }
    if response.header.rescode.to_num() == 3 {
        return LookupStep::NameError;
    }
    match response.get_resolved_ns(qname) {
        Some(ip) => LookupStep::Hop { ns: ip },
        None => match response.get_unresolved_ns(qname) {
            Some(host) => LookupStep::ResolveNs { host },
            None => LookupStep::GiveUp,
        },
    }
}

/// The iterative delegation walker: the current nameserver and the
/// budgets that bound the walk.
///
/// The driving loop lives with the sockets: it sends the query to `ns`,
/// decodes the reply and hands it to `on_response`. Every decision that
/// keeps the walk going spends one hop, `on_response` returns
/// `EngineAction::Return` as soon as the budget is spent, and a nested
/// engine always has a strictly smaller depth — so every walk ends
/// within the bounds, whatever the servers answer.
pub struct RecursionEngine {
    pub ns: Ipv4Address,
    pub hops_left: u16,
    pub depth: u8,
}

/// What the driving loop must do next.
pub enum EngineAction {
    /// Hand the current response back to the caller.
    Return,
    /// Send the question to `ns` and feed the reply to `on_response`.
    Query { ns: Ipv4Address },
    /// Resolve `host` with a nested engine, then `resume` with the
    /// address found.
    Resolve { host: String },
}

impl RecursionEngine {
    /// A fresh walk: at the root nameserver with a full hop budget.
    pub fn new(depth: u8) -> (r: RecursionEngine)
        ensures
            r.ns == (Ipv4Address { a: 198, b: 41, c: 0, d: 4 }),
            r.hops_left == MAX_HOPS,
            r.depth == depth,
    {
        RecursionEngine { ns: root_ns(), hops_left: MAX_HOPS, depth }
    }

    /// Take one decision. Every action but `Return` spends a hop, and
    /// once the budget is spent only `Return` comes back: a walk makes
    /// at most `MAX_HOPS` decisions.
    pub fn on_response(&mut self, response: &DnsPacket, qname: &str) -> (r: EngineAction)
        ensures
            final(self).depth == old(self).depth,
            final(self).hops_left <= old(self).hops_left,
            match r {
                EngineAction::Return => {
                    ||| old(self).hops_left == 0
                    ||| spec_next_step(response@, qname@) == StepView::Answered
                    ||| spec_next_step(response@, qname@) == StepView::NameError
                    ||| spec_next_step(response@, qname@) == StepView::GiveUp
                },
                EngineAction::Query { ns } => {
                    &&& old(self).hops_left > 0
                    &&& spec_next_step(response@, qname@) == (StepView::Hop { ns })
                    &&& final(self).ns == ns
                    &&& final(self).hops_left == old(self).hops_left - 1
                },
                EngineAction::Resolve { host } => {
                    &&& old(self).hops_left > 0
                    &&& spec_next_step(response@, qname@) == (StepView::ResolveNs {
                        host: host@,
                    })
                    &&& final(self).hops_left == old(self).hops_left - 1
                },
            },
    {
        if self.hops_left == 0 {
            return EngineAction::Return;
        }
        match next_step(response, qname) {
            LookupStep::Answered => EngineAction::Return,
            LookupStep::NameError => EngineAction::Return,
            LookupStep::GiveUp => EngineAction::Return,
            LookupStep::Hop { ns } => {
                self.ns = ns;
                self.hops_left = self.hops_left - 1;
                EngineAction::Query { ns }
            },
            LookupStep::ResolveNs { host } => {
                self.hops_left = self.hops_left - 1;
                EngineAction::Resolve { host }
            },
        }
    }

    /// The engine for a nested lookup of an unglued nameserver: one
    /// level deeper, or nothing once the depth is exhausted. Each nested
    /// engine has strictly smaller depth, so nesting ends.
    pub fn nested(&self) -> (r: Option<RecursionEngine>)
        ensures
            match r {
                Some(e) => self.depth > 0 && e.depth == self.depth - 1 && e.hops_left == MAX_HOPS
                    && e.ns == (Ipv4Address { a: 198, b: 41, c: 0, d: 4 }),
                None => self.depth == 0,
            },
    {
        if self.depth == 0 {
            None
        } else {
            Some(RecursionEngine { ns: root_ns(), hops_left: MAX_HOPS, depth: self.depth - 1 })
        }
    }

    /// Go on with the walk at the address a nested lookup found.
    pub fn resume(&mut self, ns: Ipv4Address)
        ensures
            *final(self) == (RecursionEngine {
                ns,
                hops_left: old(self).hops_left,
                depth: old(self).depth,
            }),
    {
        self.ns = ns;
    }
}

/// The query packet one delegation step sends: the given id, exactly one
/// question, recursion not requested.
pub fn build_query(id: u16, qname: String, qtype: QueryType) -> (r: DnsPacket)
    ensures
        r.header == (DnsHeader { id, questions: 1, ..DnsHeader::spec_default() }),
        r.header.wf(),
        r@.questions == seq![QuestionView { name: qname@, qtype }],
        r@.answers == Seq::<RecordView>::empty(),
        r@.authorities == Seq::<RecordView>::empty(),
        r@.resources == Seq::<RecordView>::empty(),
{
    let mut packet = DnsPacket::new();
    packet.header.id = id;
    packet.header.questions = 1;
    packet.questions.push(DnsQuestion::new(qname, qtype));
    proof {
        assert(packet@.questions =~= seq![QuestionView { name: qname@, qtype }]);
    }
    packet
}

/// The reply the server sends for `request`: the request id echoed,
/// marked as a recursion-available response. With no question in the
/// request the reply is an empty `FORMERR`; with a failed lookup an
/// empty `SERVFAIL`; otherwise the first question is echoed and the
/// engine's answer sections and result code are taken over.
pub fn build_response(request: DnsPacket, outcome: Option<DnsPacket>) -> (r: DnsPacket)
    ensures
        r.header.id == request.header.id,
        r.header.response,
        r.header.recursion_desired,
        r.header.recursion_available,
        r.header.wf(),
        request@.questions.len() == 0 ==> r.header.rescode == ResultCode::FORMERR
            && r@.questions.len() == 0 && r@.answers.len() == 0 && r@.authorities.len() == 0
            && r@.resources.len() == 0,
        request@.questions.len() > 0 ==> match outcome {
            Some(res) => {
                &&& r.header.rescode == res.header.rescode
                &&& r@.questions == seq![request@.questions[0]]
                &&& r@.answers == res@.answers
                &&& r@.authorities == res@.authorities
                &&& r@.resources == res@.resources
            },
            None => r.header.rescode == ResultCode::SERVFAIL && r@.questions.len() == 0
                && r@.answers.len() == 0 && r@.authorities.len() == 0 && r@.resources.len() == 0,
        },
{
    let mut packet = DnsPacket::new();
    packet.header.id = request.header.id;
    packet.header.recursion_desired = true;
    packet.header.recursion_available = true;
    packet.header.response = true;
    let mut request = request;
    let ghost q0 = request@.questions;
    if request.questions.len() > 0 {
        let question = request.questions.remove(0);
        match outcome {
            Some(result) => {
                packet.questions.push(question);
                packet.header.rescode = result.header.rescode;
                packet.answers = result.answers;
                packet.authorities = result.authorities;
                packet.resources = result.resources;
                proof {
                    assert(packet@.questions =~= seq![q0[0]]);
                }
            },
            None => {
                packet.header.rescode = ResultCode::SERVFAIL;
            },
        }
    } else {
        packet.header.rescode = ResultCode::FORMERR;
    }
    packet
}

} // verus!
