use tiny_dns::errors::PacketError;
use tiny_dns::protocol::dns_query::DnsQuery;
use tiny_dns::protocol::dns_record_type::Class;
use tiny_dns::protocol::packet_buffer::PacketBuffer;

#[test]
fn serialize_and_deserialize_dns_query() {
    let mut packet_buffer = PacketBuffer::new([0; 512]);

    let domain_names = vec![
        "goole.com".to_string(),
        "images.google.com".to_string(),
        "www.images.google.com".to_string(),
    ];

    let dns_query = DnsQuery {
        domain_names,
        qtype: 1,
        qclass: Class::IN,
    };

    dns_query.serialize(&mut packet_buffer).unwrap();

    packet_buffer.pos = 0;

    let dns_query = DnsQuery::deserialize(&mut packet_buffer, 3).unwrap();

    assert_eq!(
        dns_query.domain_names,
        vec![
            "goole.com".to_string(),
            "images.google.com".to_string(),
            "www.images.google.com".to_string()
        ]
    );
    assert_eq!(dns_query.qtype, 1);
    assert_eq!(dns_query.qclass, Class::IN);
}

#[test]
fn query_is_written_as_names_type_and_class() {
    let mut packet_buffer = PacketBuffer::new([0xff; 512]);
    let query = DnsQuery { domain_names: vec!["a.bc".to_string()], qtype: 0x001c, qclass: Class::CH };
    assert_eq!(query.serialize(&mut packet_buffer), Ok(()));
    assert_eq!(packet_buffer.pos, 10);
    assert_eq!(&packet_buffer.buffer[..11], &[1, b'a', 2, b'b', b'c', 0, 0, 0x1c, 0, 3, 0xff]);
}

#[test]
fn query_that_does_not_fit_leaves_the_buffer_alone() {
    let mut packet_buffer = PacketBuffer::new([0; 512]);
    packet_buffer.seek(505);
    let query = DnsQuery { domain_names: vec!["a.bc".to_string()], qtype: 1, qclass: Class::IN };
    assert_eq!(query.serialize(&mut packet_buffer), Err(PacketError::BufferOverrun));
    assert_eq!(packet_buffer.pos, 505);
    assert_eq!(packet_buffer.buffer, [0; 512]);
    let long = DnsQuery { domain_names: vec!["a".repeat(64)], qtype: 1, qclass: Class::IN };
    assert_eq!(long.serialize(&mut packet_buffer), Err(PacketError::LabelTooLong));
}

#[test]
fn query_with_an_unknown_class_is_refused() {
    let mut packet_buffer = PacketBuffer::new([0; 512]);
    let bytes = [1, b'a', 0, 0, 1, 0, 9];
    for i in 0..bytes.len() {
        packet_buffer.buffer[i] = bytes[i];
    }
    assert_eq!(DnsQuery::deserialize(&mut packet_buffer, 1).err(), Some(PacketError::UnknownClass));
    assert_eq!(packet_buffer.pos, 0);
}

#[test]
fn query_cut_short_is_refused() {
    let mut packet_buffer = PacketBuffer::new([0; 512]);
    packet_buffer.seek(509);
    assert_eq!(
        DnsQuery::deserialize(&mut packet_buffer, 1).err(),
        Some(PacketError::BufferUnderrun)
    );
    assert_eq!(packet_buffer.pos, 509);
}

#[test]
fn class_codes() {
    assert_eq!(Class::from_u16(1), Ok(Class::IN));
    assert_eq!(Class::from_u16(2), Ok(Class::CS));
    assert_eq!(Class::from_u16(3), Ok(Class::CH));
    assert_eq!(Class::from_u16(4), Ok(Class::HS));
    assert_eq!(Class::from_u16(0), Err(PacketError::UnknownClass));
    assert_eq!(Class::from_u16(5), Err(PacketError::UnknownClass));
    assert_eq!(Class::HS.code(), 4);
    let code: u16 = Class::CH.into();
    assert_eq!(code, 3);
    assert_eq!(u16::from(Class::IN), 1);
    assert_eq!(u16::from(Class::CS), 2);
}
