use vstd::prelude::*;

use crate::address::IpAddr;
use crate::errors::QueryError;
use crate::protocol::dns_answer::{static_answer, STATIC_TTL};
use crate::protocol::dns_header::{DnsHeader, ResponseCode};
use crate::protocol::dns_packet::{DnsPacket, PacketView};
use crate::protocol::dns_response::{response_header, DnsResponsePacket, ResponseView};

verus! {

/// How queries are resolved: by the fixed answer of this server, or by a
/// mirror server that the query is sent on to.
#[derive(Debug, Clone, Copy, PartialEq, Eq)]
pub enum ResolverType {
    Static,
    Mirror { mirror_address: IpAddr, port: u16 },
}

/// What has to happen for a query to be resolved.
#[derive(Debug, Clone)]
pub enum Resolution {
    /// This is the response.
    Done(DnsPacket),
    /// The query has to be sent to the server at this address and port;
    /// what that server replies is the response.
    Forward { address: IpAddr, port: u16, query: DnsPacket },
    /// There is no response.
    Failed(QueryError),
}

/// What a resolution holds.
pub enum ResolutionView {
    Done(PacketView),
    Forward { address: IpAddr, port: u16, query: PacketView },
    Failed(QueryError),
}

impl View for Resolution {
    type V = ResolutionView;

    open spec fn view(&self) -> ResolutionView {
        match self {
            Resolution::Done(packet) => ResolutionView::Done(packet@),
            Resolution::Forward { address, port, query } => ResolutionView::Forward {
                address: *address,
                port: *port,
                query: query@,
            },
            Resolution::Failed(e) => ResolutionView::Failed(*e),
        }
    }
}

/// The response that tells the sender of `query` that the name does not
/// exist: the id, the question and the other fields of the header are
/// those of the query; the message is a response with the code `NXDomain`,
/// and it holds no record, as its counts say.
pub open spec fn nxdomain_response(query: PacketView) -> PacketView {
    PacketView {
        header: DnsHeader {
            is_response: true,
            rcode: ResponseCode::NXDomain,
            answer_count: 0,
            nscount: 0,
            arcount: 0,
            ..query.header
        },
        questions: query.questions,
        answers: Seq::empty(),
        authority: Seq::empty(),
        additional: Seq::empty(),
    }
}

/// The response to `query` with the fixed answer of this server.
pub open spec fn static_response(query: PacketView) -> PacketView {
    (ResponseView {
        header: response_header(
            query.header,
            static_answer(query.questions, STATIC_TTL).rdata.len() as u16,
        ),
        query: query.questions,
        answers: static_answer(query.questions, STATIC_TTL),
    }).packet()
}

/// What has to happen for `query` to be resolved. A query that does not
/// ask for recursion is told that the name does not exist. Another query
/// gets the fixed answer where the resolver is static, unless there is
/// none for its question, and is sent on where the resolver is a mirror.
pub open spec fn resolution_of(resolver: ResolverType, query: PacketView) -> ResolutionView {
    if !query.header.recursion_desired {
        ResolutionView::Done(nxdomain_response(query))
    } else {
        match resolver {
            ResolverType::Static => if static_answer(query.questions, STATIC_TTL).rdata.len() == 0 {
                ResolutionView::Failed(QueryError::FailetToResolveQuery)
            } else {
                ResolutionView::Done(static_response(query))
            },
            ResolverType::Mirror { mirror_address, port } => ResolutionView::Forward {
                address: mirror_address,
                port,
                query,
            },
        }
    }
}

/// The response that tells the sender of `query` that the name does not
/// exist. It holds no record.
pub fn create_nxdomain_response(query: &DnsPacket) -> (r: DnsPacket)
    ensures
        r@ == nxdomain_response(query@),
        r@.header.id == query@.header.id,
        r@.questions == query@.questions,
{
    let header = DnsHeader {
        id: query.header.id,
        is_response: true,
        opcode: query.header.opcode,
        authoritative_answer: query.header.authoritative_answer,
        truncated_message: query.header.truncated_message,
        recursion_desired: query.header.recursion_desired,
        recursion_available: query.header.recursion_available,
        z: query.header.z,
        rcode: ResponseCode::NXDomain,
        question_count: query.header.question_count,
        answer_count: 0,
        nscount: 0,
        arcount: 0,
    };
    let r = DnsPacket {
        header,
        questions: query.questions.duplicate(),
        answers: Vec::new(),
        authority: Vec::new(),
        additional: Vec::new(),
    };
    proof {
        assert(r@.answers =~= Seq::empty());
        assert(r@.authority =~= Seq::empty());
        assert(r@.additional =~= Seq::empty());
    }
    r
}

/// The response to a query that can be answered without asking anyone: a
/// query that does not ask for recursion is told that the name does not
/// exist. For another query somebody has to be asked.
pub fn resolv(query: &DnsPacket) -> (r: Option<DnsPacket>)
    ensures
        !query@.header.recursion_desired ==> r is Some && r->Some_0@ == nxdomain_response(query@),
        query@.header.recursion_desired ==> r is None,
{
    if !query.header.recursion_desired {
        return Some(create_nxdomain_response(query));
    }
    None
}

impl ResolverType {
    /// What has to happen for `query` to be resolved.
    pub fn resolve(&self, query: DnsPacket) -> (r: Resolution)
        ensures
            r@ == resolution_of(*self, query@),
    {
        if !query.header.recursion_desired {
            return Resolution::Done(create_nxdomain_response(&query));
        }
        match self {
            ResolverType::Static => {
                let response = DnsResponsePacket::from_query(query, STATIC_TTL);
                if response.answers().rdata().len() == 0 {
                    Resolution::Failed(QueryError::FailetToResolveQuery)
                } else {
                    Resolution::Done(response.into_packet())
                }
            },
            ResolverType::Mirror { mirror_address, port } => Resolution::Forward {
                address: *mirror_address,
                port: *port,
                query,
            },
        }
    }
}

} // verus!
