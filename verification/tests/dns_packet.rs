use tiny_dns::address::{IpAddr, Ipv4Addr, Ipv6Addr};
use tiny_dns::builder::{ServerBuilderImpl, ServerSettings, DEFAULT_PORT};
use tiny_dns::errors::{
    ConfigError, DeserializeError, LookupError, PacketError, QueryError, SerializeError, ServerError,
};
use tiny_dns::network::{
    client_port, datagram, handle_lookup_failure, handle_query, handle_reply, random_client_port,
    Handling,
};
use tiny_dns::parsing::deserialize::Deserialize;
use tiny_dns::parsing::serialize::Serialize;
use tiny_dns::protocol::dns_answer::{DnsAnswer, STATIC_TTL};
use tiny_dns::protocol::dns_header::{DnsHeader, ResponseCode};
use tiny_dns::protocol::dns_packet::DnsPacket;
use tiny_dns::protocol::dns_query::DnsQuery;
use tiny_dns::protocol::dns_question::DnsQuestion;
use tiny_dns::protocol::dns_record::DnsRecord;
use tiny_dns::protocol::dns_record_type::{Class, DnsRecordType};
use tiny_dns::protocol::dns_response::DnsResponsePacket;
use tiny_dns::protocol::domain_names::{DomainNames, DomainParts};
use tiny_dns::protocol::packet_buffer::PacketBuffer;
use tiny_dns::resolver::{create_nxdomain_response, resolv, Resolution, ResolverType};

fn header(id: u16, recursion_desired: bool) -> DnsHeader {
    DnsHeader {
        id,
        is_response: false,
        opcode: 0,
        authoritative_answer: false,
        truncated_message: false,
        recursion_desired,
        recursion_available: false,
        z: 0,
        rcode: ResponseCode::NoError,
        question_count: 1,
        answer_count: 0,
        nscount: 0,
        arcount: 0,
    }
}

fn query(recursion_desired: bool) -> DnsPacket {
    DnsPacket {
        header: header(0x1234, recursion_desired),
        questions: DnsQuery {
            domain_names: vec!["www.google.com".to_string()],
            qtype: 1,
            qclass: Class::IN,
        },
        answers: vec![],
        authority: vec![],
        additional: vec![],
    }
}

fn record(name: &str, data: DnsRecordType) -> DnsRecord {
    DnsRecord { name: name.to_string(), class: Class::IN, ttl: 3600, data }
}

fn full_message() -> DnsPacket {
    let mut packet = query(true);
    packet.header.is_response = true;
    packet.header.answer_count = 2;
    packet.header.nscount = 1;
    packet.header.arcount = 2;
    packet.answers = vec![
        record("www.google.com", DnsRecordType::CNAME { canonical_name: "web.google.com".to_string() }),
        record("web.google.com", DnsRecordType::A { address: Ipv4Addr::new(142, 250, 1, 2) }),
    ];
    packet.authority = vec![record(
        "google.com",
        DnsRecordType::SOA {
            mname: "ns1.google.com".to_string(),
            rname: "dns-admin.google.com".to_string(),
            serial: 1,
            refresh: 2,
            retry: 3,
            expire: 4,
            minimum: 5,
        },
    )];
    packet.additional = vec![
        record("google.com", DnsRecordType::TXT { text: "hello".to_string() }),
        record(
            "ns1.google.com",
            DnsRecordType::AAAA { address: Ipv6Addr::new(0x2001, 0x4860, 0, 0, 0, 0, 0, 0x8888) },
        ),
    ];
    packet
}

fn assert_same(left: &DnsPacket, right: &DnsPacket) {
    assert_eq!(left.header, right.header);
    assert_eq!(left.questions.domain_names, right.questions.domain_names);
    assert_eq!(left.questions.qtype, right.questions.qtype);
    assert_eq!(left.questions.qclass, right.questions.qclass);
    assert_eq!(left.answers, right.answers);
    assert_eq!(left.authority, right.authority);
    assert_eq!(left.additional, right.additional);
}

fn as_buffer(bytes: &[u8]) -> [u8; 512] {
    let mut buffer = [0u8; 512];
    buffer[..bytes.len()].copy_from_slice(bytes);
    buffer
}

#[test]
fn message_reads_back() {
    let packet = full_message();
    let mut buffer = packet.serialize().unwrap();
    let length = buffer.pos;
    assert!(buffer.buffer[length..].iter().all(|b| *b == 0));
    buffer.seek(0);
    let read = DnsPacket::deserialize(&mut buffer).unwrap();
    assert_same(&read, &packet);
    assert_eq!(buffer.pos, length);
}

#[test]
fn query_is_header_and_question() {
    let buffer = query(true).serialize().unwrap();
    assert_eq!(buffer.pos, 32);
    assert_eq!(
        &buffer.buffer[..33],
        &[
            0x12, 0x34, 0x01, 0x00, 0, 1, 0, 0, 0, 0, 0, 0, 3, b'w', b'w', b'w', 6, b'g', b'o',
            b'o', b'g', b'l', b'e', 3, b'c', b'o', b'm', 0, 0, 1, 0, 1, 0
        ]
    );
}

#[test]
fn counts_have_to_match_the_sections() {
    let mut packet = full_message();
    packet.header.answer_count = 3;
    assert_eq!(packet.serialize().err(), Some(SerializeError::InvalidHeader));
    let mut packet = full_message();
    packet.header.question_count = 0;
    assert_eq!(packet.serialize().err(), Some(SerializeError::InvalidHeader));
    let mut packet = full_message();
    packet.additional.pop();
    assert_eq!(packet.serialize().err(), Some(SerializeError::InvalidHeader));
    let mut packet = full_message();
    packet.authority.clear();
    assert_eq!(packet.serialize().err(), Some(SerializeError::InvalidHeader));
}

#[test]
fn question_and_records_that_cannot_be_written() {
    let mut packet = query(true);
    packet.questions.domain_names[0] = "a".repeat(64);
    assert_eq!(packet.serialize().err(), Some(SerializeError::InvalidQuestion));
    let mut packet = query(true);
    packet.questions.domain_names[0] = format!("{0}.{0}.{0}.{0}.{0}.{0}.{0}.{0}", "a".repeat(62));
    assert_eq!(packet.serialize().err(), Some(SerializeError::InvalidQuestion));
    let mut packet = full_message();
    packet.authority[0].name = "b".repeat(64);
    assert_eq!(packet.serialize().err(), Some(SerializeError::InvalidRecord));
    let mut packet = full_message();
    packet.additional[0] = record("google.com", DnsRecordType::TXT { text: "x".repeat(400) });
    assert_eq!(packet.serialize().err(), Some(SerializeError::InvalidRecord));
}

#[test]
fn names_of_the_question_are_pointed_to() {
    let buffer = full_message().serialize().unwrap();
    assert_eq!(buffer.pos, 239);
    // The first answer belongs to the name of the question, at offset 12.
    assert_eq!(&buffer.buffer[32..36], &[0xC0, 12, 0, 5]);
    // The second one belongs to another name, which is written out.
    assert_eq!(&buffer.buffer[60..64], &[3, b'w', b'e', b'b']);
    let mut two_names = full_message();
    two_names.header.question_count = 2;
    two_names.questions.domain_names.push("web.google.com".to_string());
    let buffer = two_names.serialize().unwrap();
    assert_eq!(&buffer.buffer[48..52], &[0xC0, 12, 0, 5]);
    assert_eq!(&buffer.buffer[76..80], &[0xC0, 28, 0, 1]);
    let mut read = PacketBuffer::new(buffer.buffer);
    assert_same(&DnsPacket::deserialize(&mut read).unwrap(), &two_names);
}

#[test]
fn datagram_that_is_cut_short_is_no_message() {
    let mut packet = full_message();
    // No record belongs to the name of the question, so all names are written out.
    packet.questions.domain_names[0] = "example.org".to_string();
    let buffer = packet.serialize().unwrap();
    let length = buffer.pos;
    assert_eq!(length, 250);
    // The message at the end of the buffer, with its last bytes cut off. The
    // last 69 bytes are the additional section, which may be cut.
    for cut in [70usize, 71, 90, 149, 150, 200, 220, 221, length - 12, length - 1] {
        let mut short = PacketBuffer::new([0; 512]);
        let start = 512 - length + cut;
        for i in 0..length - cut {
            short.buffer[start + i] = buffer.buffer[i];
        }
        short.seek(start);
        let read = DnsPacket::deserialize(&mut short);
        assert!(read.is_err(), "cut of {} bytes", cut);
        assert_eq!(short.pos, start);
    }
    for (cut, left) in [(1usize, 1usize), (41, 1), (42, 1), (43, 0), (69, 0)] {
        let mut short = PacketBuffer::new([0; 512]);
        let start = 512 - length + cut;
        for i in 0..length - cut {
            short.buffer[start + i] = buffer.buffer[i];
        }
        short.seek(start);
        let read = DnsPacket::deserialize(&mut short).unwrap();
        assert_eq!(read.additional.len(), left);
        assert_eq!(read.header.arcount as usize, left);
        assert_eq!(read.answers, packet.answers);
        assert_eq!(read.authority, packet.authority);
    }
    let mut whole = PacketBuffer::new([0; 512]);
    for i in 0..length {
        whole.buffer[512 - length + i] = buffer.buffer[i];
    }
    whole.seek(512 - length);
    assert_same(&DnsPacket::deserialize(&mut whole).unwrap(), &packet);
    let mut no_header = PacketBuffer::new([0; 512]);
    no_header.seek(501);
    assert_eq!(DnsPacket::deserialize(&mut no_header).err(), Some(DeserializeError::InvalidHeader));
    let mut no_question = PacketBuffer::new([0; 512]);
    no_question.buffer[495] = 1;
    no_question.seek(490);
    assert_eq!(
        DnsPacket::deserialize(&mut no_question).err(),
        Some(DeserializeError::InvalidQuestion)
    );
}

#[test]
fn parts_of_a_message_that_cannot_be_read() {
    let packet = full_message();
    let buffer = packet.serialize().unwrap();
    let mut bad_code = PacketBuffer::new(buffer.buffer);
    bad_code.buffer[3] |= 0x0f;
    assert_eq!(DnsPacket::deserialize(&mut bad_code).err(), Some(DeserializeError::InvalidHeader));
    let mut bad_class = PacketBuffer::new(buffer.buffer);
    bad_class.buffer[31] = 9;
    assert_eq!(
        DnsPacket::deserialize(&mut bad_class).err(),
        Some(DeserializeError::InvalidQuestion)
    );
    let mut bad_answer = PacketBuffer::new(buffer.buffer);
    // The type of the first answer, behind the pointer that is its name.
    bad_answer.buffer[32 + 2 + 1] = 99;
    assert_eq!(
        DnsPacket::deserialize(&mut bad_answer).err(),
        Some(DeserializeError::InvalidRecord)
    );
    assert_eq!(bad_answer.pos, 0);
}

#[test]
fn additional_records_that_cannot_be_read_are_left_out() {
    let mut packet = query(true);
    packet.header.arcount = 3;
    packet.additional = vec![
        record("a.b", DnsRecordType::A { address: Ipv4Addr::new(1, 1, 1, 1) }),
        record("c.d", DnsRecordType::TXT { text: "abc".to_string() }),
        record("e.f", DnsRecordType::A { address: Ipv4Addr::new(2, 2, 2, 2) }),
    ];
    let mut buffer = packet.serialize().unwrap();
    let length = buffer.pos;
    // The type of the second record becomes 41, which this library does not know.
    let second = 32 + 19;
    assert_eq!(buffer.buffer[second + 6], 16);
    buffer.buffer[second + 6] = 41;
    buffer.seek(0);
    let read = DnsPacket::deserialize(&mut buffer).unwrap();
    assert_eq!(read.header.arcount, 2);
    assert_eq!(read.additional, vec![packet.additional[0].clone(), packet.additional[2].clone()]);
    assert_eq!(buffer.pos, length);
    // Cut behind the second record: the third cannot even be passed over.
    let mut cut = PacketBuffer::new([0; 512]);
    let third = second + 18;
    let start = 512 - third - 4;
    for i in 0..third + 4 {
        cut.buffer[start + i] = buffer.buffer[i];
    }
    cut.seek(start);
    let read = DnsPacket::deserialize(&mut cut).unwrap();
    assert_eq!(read.header.arcount, 1);
    assert_eq!(read.additional, vec![packet.additional[0].clone()]);
    assert_eq!(cut.pos, start + third);
}

#[test]
fn static_resolver_answers_a_query_for_an_address() {
    let datagram_in = datagram(&query(true)).unwrap();
    let handling = handle_query(as_buffer(&datagram_in), &ResolverType::Static);
    let bytes = match handling {
        Handling::Reply(bytes) => bytes,
        other => panic!("{:?}", other),
    };
    assert_eq!(bytes.len(), 48);
    assert_eq!(
        &bytes[32..],
        &[0xC0, 12, 0, 1, 0, 1, 0, 0, 0, STATIC_TTL as u8, 0, 4, 192, 168, 1, 1]
    );
    let mut buffer = PacketBuffer::new(as_buffer(&bytes));
    let response = DnsPacket::deserialize(&mut buffer).unwrap();
    assert_eq!(buffer.pos, bytes.len());
    assert_eq!(response.header.answer_count, 1);
    assert!(response.header.is_response);
    assert!(response.header.recursion_available);
    assert!(!response.header.recursion_desired);
    assert!(response.header.authoritative_answer);
    assert_eq!(response.header.rcode, ResponseCode::NoError);
    assert_eq!(response.header.id, 0x1234);
    assert_eq!(response.header.question_count, 1);
    assert_eq!(response.questions.domain_names, vec!["www.google.com".to_string()]);
    assert_eq!(
        response.answers,
        vec![DnsRecord {
            name: "www.google.com".to_string(),
            class: Class::IN,
            ttl: STATIC_TTL,
            data: DnsRecordType::A { address: Ipv4Addr::new(192, 168, 1, 1) },
        }]
    );
    assert!(response.authority.is_empty());
    assert!(response.additional.is_empty());
}

#[test]
fn query_without_recursion_is_told_that_the_name_does_not_exist() {
    let mirror = ResolverType::Mirror {
        mirror_address: IpAddr::V4(Ipv4Addr::new(8, 8, 8, 8)),
        port: 53,
    };
    for resolver in [ResolverType::Static, mirror] {
        let datagram_in = datagram(&query(false)).unwrap();
        let handling = handle_query(as_buffer(&datagram_in), &resolver);
        let bytes = match handling {
            Handling::Reply(bytes) => bytes,
            other => panic!("{:?}", other),
        };
        let mut buffer = PacketBuffer::new(as_buffer(&bytes));
        let response = DnsPacket::deserialize(&mut buffer).unwrap();
        assert_eq!(response.header.rcode, ResponseCode::NXDomain);
        assert_eq!(response.header.answer_count, 0);
        assert_eq!(response.header.nscount, 0);
        assert_eq!(response.header.arcount, 0);
        assert_eq!(response.header.id, 0x1234);
        assert!(response.header.is_response);
        assert_eq!(response.questions.domain_names, vec!["www.google.com".to_string()]);
        assert_eq!(response.questions.qtype, 1);
        assert_eq!(response.questions.qclass, Class::IN);
        assert!(response.answers.is_empty());
    }
}

#[test]
fn nothing_is_sent_where_the_mirror_does_not_reply_in_time() {
    let (handling, told) = handle_lookup_failure(&LookupError::Timeout);
    assert_eq!(handling, Handling::Drop(QueryError::FailetToResolveQuery));
    assert_eq!(told, "Timeout, no response received");
}

#[test]
fn mirror_resolver_sends_the_query_on_and_the_reply_back() {
    let address = IpAddr::V4(Ipv4Addr::new(8, 8, 8, 8));
    let mirror = ResolverType::Mirror { mirror_address: address, port: 5353 };
    let datagram_in = datagram(&query(true)).unwrap();
    let handling = handle_query(as_buffer(&datagram_in), &mirror);
    assert_eq!(
        handling,
        Handling::Forward { address, port: 5353, datagram: datagram_in.clone() }
    );
    let reply = datagram(&full_message()).unwrap();
    assert_eq!(handle_reply(as_buffer(&reply)), Handling::Reply(reply));
    let mut broken = as_buffer(&datagram_in);
    broken[3] = 0x0f;
    assert_eq!(handle_reply(broken), Handling::Drop(QueryError::FailedToDeserializeResponse));
    assert_eq!(
        handle_query(broken, &mirror),
        Handling::Drop(QueryError::FailedToDeserializeResponse)
    );
}

#[test]
fn reply_that_cannot_be_written_again_is_dropped() {
    // Eight answers that share a long name, which is written once and pointed to
    // seven times. Written again, each answer has its name written out, and
    // they do not fit.
    let mut reply = [0u8; 512];
    let head = datagram(&query(true)).unwrap();
    reply[..32].copy_from_slice(&head);
    reply[2] = 0x81;
    reply[7] = 8;
    reply[32] = 60;
    for byte in reply[33..93].iter_mut() {
        *byte = b'x';
    }
    let fields = [0, 1, 0, 1, 0, 0, 0, 9, 0, 4, 10, 0, 0, 1];
    reply[94..108].copy_from_slice(&fields);
    for i in 0..7 {
        let at = 108 + 16 * i;
        reply[at] = 0xC0;
        reply[at + 1] = 32;
        reply[at + 2..at + 16].copy_from_slice(&fields);
    }
    let mut buffer = PacketBuffer::new(reply);
    let read = DnsPacket::deserialize(&mut buffer).unwrap();
    assert_eq!(buffer.pos, 220);
    assert_eq!(read.answers.len(), 8);
    assert_eq!(read.answers[7].name, "x".repeat(60));
    assert_eq!(handle_reply(reply), Handling::Drop(QueryError::FailedToSerializeResponse));
    // With one answer less they fit.
    reply[7] = 6;
    match handle_reply(reply) {
        Handling::Reply(bytes) => assert_eq!(bytes.len(), 32 + 6 * 76),
        other => panic!("{:?}", other),
    }
}

#[test]
fn query_that_cannot_be_written_again_is_not_sent_on() {
    // A query with eight additional records that share a long name by pointers.
    let mut sent = [0u8; 512];
    let head = datagram(&query(true)).unwrap();
    sent[..32].copy_from_slice(&head);
    sent[11] = 8;
    sent[32] = 60;
    for byte in sent[33..93].iter_mut() {
        *byte = b'x';
    }
    let fields = [0, 1, 0, 1, 0, 0, 0, 9, 0, 4, 10, 0, 0, 1];
    sent[94..108].copy_from_slice(&fields);
    for i in 0..7 {
        let at = 108 + 16 * i;
        sent[at] = 0xC0;
        sent[at + 1] = 32;
        sent[at + 2..at + 16].copy_from_slice(&fields);
    }
    let mirror = ResolverType::Mirror {
        mirror_address: IpAddr::V4(Ipv4Addr::new(8, 8, 8, 8)),
        port: 53,
    };
    assert_eq!(handle_query(sent, &mirror), Handling::Drop(QueryError::FailedToSerializeQuery));
    // The fixed answer does not carry the additional records along.
    match handle_query(sent, &ResolverType::Static) {
        Handling::Reply(bytes) => assert_eq!(bytes.len(), 48),
        other => panic!("{:?}", other),
    }
}

#[test]
fn static_resolver_has_no_answer_for_other_types() {
    let mut packet = query(true);
    packet.questions.qtype = 28;
    let bytes = datagram(&packet).unwrap();
    assert_eq!(
        handle_query(as_buffer(&bytes), &ResolverType::Static),
        Handling::Drop(QueryError::FailetToResolveQuery)
    );
    match ResolverType::Static.resolve(packet) {
        Resolution::Failed(e) => assert_eq!(e, QueryError::FailetToResolveQuery),
        other => panic!("{:?}", other),
    }
}

#[test]
fn resolution_by_kind_of_resolver() {
    match ResolverType::Static.resolve(query(true)) {
        Resolution::Done(response) => {
            assert_eq!(response.header.answer_count, 1);
            assert_eq!(response.answers.len(), 1);
        }
        other => panic!("{:?}", other),
    }
    let address = IpAddr::V6(Ipv6Addr::new(0x2001, 0x4860, 0x4860, 0, 0, 0, 0, 0x8888));
    match (ResolverType::Mirror { mirror_address: address, port: 53 }).resolve(query(true)) {
        Resolution::Forward { address: to, port, query: sent } => {
            assert_eq!(to, address);
            assert_eq!(port, 53);
            assert_same(&sent, &query(true));
        }
        other => panic!("{:?}", other),
    }
    assert!(resolv(&query(true)).is_none());
    let response = resolv(&query(false)).unwrap();
    assert_same(&response, &create_nxdomain_response(&query(false)));
}

#[test]
fn nxdomain_response_keeps_id_and_question_and_holds_no_record() {
    let mut asked = full_message();
    asked.header.is_response = false;
    asked.header.opcode = 2;
    asked.header.z = 5;
    let response = create_nxdomain_response(&asked);
    assert_eq!(response.header.id, asked.header.id);
    assert_eq!(response.header.opcode, 2);
    assert_eq!(response.header.z, 5);
    assert_eq!(response.header.recursion_desired, asked.header.recursion_desired);
    assert!(response.header.is_response);
    assert_eq!(response.header.rcode, ResponseCode::NXDomain);
    assert_eq!(response.header.question_count, 1);
    assert_eq!(
        (response.header.answer_count, response.header.nscount, response.header.arcount),
        (0, 0, 0)
    );
    assert_eq!(response.questions.domain_names, asked.questions.domain_names);
    assert!(response.answers.is_empty() && response.authority.is_empty());
    assert!(response.additional.is_empty());
    assert!(response.serialize().is_ok());
}

#[test]
fn response_from_query() {
    let response = DnsResponsePacket::from_query(query(true), 77);
    assert!(response.header().is_response);
    assert_eq!(response.header().answer_count, 1);
    assert_eq!(response.query().domain_names, vec!["www.google.com".to_string()]);
    assert_eq!(
        response.answers(),
        &DnsAnswer::new(
            "www.google.com".to_string(),
            Class::IN,
            77,
            vec![DnsRecordType::A { address: Ipv4Addr::new(192, 168, 1, 1) }]
        )
    );
    let mut buffer = response.serialize().unwrap();
    let length = buffer.pos;
    buffer.seek(0);
    let read = DnsResponsePacket::deserialize(&mut buffer).unwrap();
    assert_eq!(buffer.pos, length);
    assert_eq!(read.header(), response.header());
    assert_eq!(read.answers(), response.answers());
    assert_same(&read.into_packet(), &response.into_packet());
    let mut other = full_message().serialize().unwrap();
    other.seek(0);
    assert_eq!(
        DnsResponsePacket::deserialize(&mut other).err(),
        Some(DeserializeError::InvalidAnswer)
    );
    assert_eq!(other.pos, 0);
    let answer = DnsAnswer::from_query(&query(true).questions, 5);
    assert_eq!(answer.rdata().len(), 1);
    let with = DnsResponsePacket::with_answer(
        query(true),
        DnsAnswer::new("x.y".to_string(), Class::IN, 1, vec![]),
    );
    assert_eq!(with.header().answer_count, 0);
}

#[test]
fn client_ports() {
    assert_eq!(client_port(0), 4000);
    assert_eq!(client_port(999), 4999);
    assert_eq!(client_port(1000), 4000);
    assert_eq!(client_port(65535), 4535);
    for _ in 0..50 {
        let port = random_client_port();
        assert!(4000 <= port && port < 5000);
    }
}

#[test]
fn builder_needs_a_resolver_and_has_defaults() {
    let builder = ServerBuilderImpl::new();
    assert_eq!(builder.settings(), Err(ConfigError::NoResolverEspecified));
    assert_eq!(builder.set_port(5300).settings(), Err(ConfigError::NoResolverEspecified));
    let with_resolver = builder.set_resolver(ResolverType::Static);
    assert_eq!(
        with_resolver.settings(),
        Ok(ServerSettings {
            bind_address: IpAddr::V4(Ipv4Addr::new(127, 0, 0, 1)),
            port: DEFAULT_PORT,
            resolver: ResolverType::Static,
        })
    );
    assert_eq!(DEFAULT_PORT, 53);
    let mirror = ResolverType::Mirror {
        mirror_address: IpAddr::V4(Ipv4Addr::new(8, 8, 8, 8)),
        port: 53,
    };
    let all = with_resolver
        .set_port(5300)
        .set_bind_address(IpAddr::V4(Ipv4Addr::new(0, 0, 0, 0)))
        .set_resolver(mirror);
    assert_eq!(
        all.settings(),
        Ok(ServerSettings {
            bind_address: IpAddr::V4(Ipv4Addr::new(0, 0, 0, 0)),
            port: 5300,
            resolver: mirror,
        })
    );
}

#[test]
fn error_messages() {
    assert_eq!(ConfigError::NoResolverEspecified.message(), "No resolver specified");
    assert_eq!(ConfigError::NoPortSpecified.message(), "No port specified");
    assert_eq!(ConfigError::FailedToCreateServer.message(), "Error creating server");
    assert_eq!(
        ServerError::FailedToBindSocket.message(),
        "Failed to bind socket, maybe the port is already in use or you don't have permission to bind it."
    );
    assert_eq!(QueryError::FailedToSerializeQuery.message(), "Failed to serialize query");
    assert_eq!(QueryError::FailetToResolveQuery.message(), "Failed to resolve query");
    assert_eq!(QueryError::FailedToDeserializeResponse.message(), "Failed to deserialize response");
    assert_eq!(QueryError::FailedToSerializeResponse.message(), "Failed to serialize response");
    assert_eq!(DeserializeError::InvalidHeader.message(), "Failed to deserialize header");
    assert_eq!(DeserializeError::InvalidQuestion.message(), "Failed to deserialize question");
    assert_eq!(DeserializeError::InvalidAnswer.message(), "Failed to deserialize answer");
    assert_eq!(DeserializeError::InvalidAuthority.message(), "Failed to deserialize authority");
    assert_eq!(DeserializeError::InvalidAdditional.message(), "Failed to deserialize additional");
    assert_eq!(DeserializeError::InvalidRecord.message(), "Failed to deserialize record");
    assert_eq!(SerializeError::InvalidHeader.message(), "Failed to serialize header");
    assert_eq!(SerializeError::InvalidQuestion.message(), "Failed to serialize question");
    assert_eq!(SerializeError::InvalidAnswer.message(), "Failed to serialize answer");
    assert_eq!(SerializeError::InvalidAuthority.message(), "Failed to serialize authority");
    assert_eq!(SerializeError::InvalidAdditional.message(), "Failed to serialize additional");
    assert_eq!(SerializeError::InvalidRecord.message(), "Failed to serialize record");
    assert_eq!(
        LookupError::FailedToBindSocket("address in use".to_string()).message(),
        "Failed to bind socket: address in use"
    );
    assert_eq!(
        LookupError::FailedToConnectSocket {
            ip: IpAddr::V4(Ipv4Addr::new(8, 8, 4, 255)),
            port: 53
        }
        .message(),
        "Failed to connect to socket 8.8.4.255:53"
    );
    assert_eq!(
        LookupError::FailedToConnectSocket {
            ip: IpAddr::V6(Ipv6Addr::new(0x2001, 0xdb8, 0, 0, 0, 0xa, 0xff00, 0x42)),
            port: 65535
        }
        .message(),
        "Failed to connect to socket 2001:db8:0:0:0:a:ff00:42:65535"
    );
    assert_eq!(LookupError::FailedToSetReadTimeout.message(), "Failed to set read timeout");
    assert_eq!(LookupError::FailedToSendQuery.message(), "Failed to send query");
    assert_eq!(
        LookupError::FailedToReceiveResponse("reset".to_string()).message(),
        "Failed to receive response: reset"
    );
    assert_eq!(LookupError::Timeout.message(), "Timeout, no response received");
}

#[test]
fn addresses() {
    assert_eq!(Ipv4Addr::new(1, 2, 3, 4).octets(), [1, 2, 3, 4]);
    assert_eq!(Ipv6Addr::new(1, 2, 3, 4, 5, 6, 7, 8).segments(), [1, 2, 3, 4, 5, 6, 7, 8]);
    assert_eq!(IpAddr::V4(Ipv4Addr::new(0, 10, 100, 255)).text(), "0.10.100.255");
    assert_eq!(
        IpAddr::V6(Ipv6Addr::new(0, 0xffff, 0x10, 0x100, 0x1000, 9, 0xabcd, 0xf)).text(),
        "0:ffff:10:100:1000:9:abcd:f"
    );
}

#[test]
fn question_in_parts_reads_back() {
    let question = DnsQuestion {
        domain_names: DomainNames::new_from_vec(vec![
            DomainParts::Label { len: 3, string: "www".to_string() },
            DomainParts::Label { len: 2, string: "ab".to_string() },
            DomainParts::End,
        ]),
        qtype: 0x00ff,
        qclass: Class::HS,
    };
    let bytes = question.serialize().into_vec();
    assert_eq!(bytes, vec![3, b'w', b'w', b'w', 2, b'a', b'b', 0, 0, 0xff, 0, 4]);
    let (rest, read) = DnsQuestion::deserialize((&bytes, 0), 1).unwrap();
    assert_eq!(rest, (&[] as &[u8], 0));
    assert_eq!(read.qtype, 0x00ff);
    assert_eq!(read.qclass, Class::HS);
    assert_eq!(read.domain_names.get_domains(), vec![("www.ab".to_string(), 0u16)]);
    assert_eq!(
        DnsQuestion::deserialize((&bytes[..11], 0), 1).err(),
        Some(PacketError::BufferUnderrun)
    );
    let mut unknown = bytes.clone();
    unknown[11] = 5;
    assert_eq!(DnsQuestion::deserialize((&unknown, 0), 1).err(), Some(PacketError::UnknownClass));
}

#[test]
fn types_that_are_read_from_a_buffer() {
    fn read<T: Deserialize<T>>(buffer: &mut PacketBuffer) -> Result<T, PacketError> {
        T::deserialize(buffer)
    }
    let mut buffer = full_message().serialize().unwrap();
    buffer.seek(0);
    let header: DnsHeader = read(&mut buffer).unwrap();
    assert_eq!(header, full_message().header);
    buffer.seek(30);
    let class: Class = read(&mut buffer).unwrap();
    assert_eq!(class, Class::IN);
    let first: DnsRecord = read(&mut buffer).unwrap();
    assert_eq!(first, full_message().answers[0]);
}
