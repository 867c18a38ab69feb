use tiny_dns::address::{Ipv4Addr, Ipv6Addr};
use tiny_dns::errors::PacketError;
use tiny_dns::protocol::dns_answer::DnsAnswer;
use tiny_dns::protocol::dns_record::{
    read_readable_records, read_records, records_fit_among, write_records, DnsRecord,
};
use tiny_dns::protocol::dns_record_type::{Class, DnsRecordType};
use tiny_dns::protocol::packet_buffer::PacketBuffer;

fn soa() -> DnsRecordType {
    DnsRecordType::SOA {
        mname: "ns.example.com".to_string(),
        rname: "admin.example.com".to_string(),
        serial: 2024010101,
        refresh: 7200,
        retry: 3600,
        expire: 1209600,
        minimum: 0xffffffff,
    }
}

fn all_kinds() -> Vec<DnsRecordType> {
    vec![
        DnsRecordType::A { address: Ipv4Addr::new(192, 168, 1, 1) },
        DnsRecordType::NS { name_server: "ns1.example.com".to_string() },
        DnsRecordType::CNAME { canonical_name: "www.example.com".to_string() },
        soa(),
        DnsRecordType::MX { priority: 10, exchange: "mail.example.com".to_string() },
        DnsRecordType::TXT { text: "v=spf1 -all \u{e9}\u{4e2d}".to_string() },
        DnsRecordType::AAAA { address: Ipv6Addr::new(0x2001, 0xdb8, 0, 0, 0, 0, 0xff00, 0x42) },
    ]
}

fn rdlength(buffer: &PacketBuffer, at: usize) -> usize {
    ((buffer.buffer[at] as usize) << 8) | buffer.buffer[at + 1] as usize
}

#[test]
fn type_codes() {
    let codes: Vec<u16> = all_kinds().iter().map(|d| d.get_type()).collect();
    assert_eq!(codes, vec![1, 2, 5, 6, 15, 16, 28]);
}

#[test]
fn length_of_an_address_is_four() {
    let mut buffer = PacketBuffer::new([0xee; 512]);
    let data = DnsRecordType::A { address: Ipv4Addr::new(192, 168, 1, 1) };
    assert_eq!(data.serialize(&mut buffer), Ok(()));
    assert_eq!(buffer.pos, 6);
    assert_eq!(&buffer.buffer[..7], &[0, 4, 192, 168, 1, 1, 0xee]);
    assert_eq!(data.get_length(), Ok(4));
}

#[test]
fn length_of_a_text_is_its_number_of_bytes() {
    for n in [0usize, 1, 7, 255, 300, 510] {
        let mut buffer = PacketBuffer::new([0xee; 512]);
        let data = DnsRecordType::TXT { text: "x".repeat(n) };
        assert_eq!(data.serialize(&mut buffer), Ok(()));
        assert_eq!(rdlength(&buffer, 0), n);
        assert_eq!(buffer.pos, n + 2);
        assert_eq!(data.get_length(), Ok(n));
    }
    let mut buffer = PacketBuffer::new([0xee; 512]);
    let data = DnsRecordType::TXT { text: "x".repeat(511) };
    assert_eq!(data.serialize(&mut buffer), Err(PacketError::BufferOverrun));
    assert_eq!(buffer.pos, 0);
    assert_eq!(buffer.buffer, [0xee; 512]);
}

#[test]
fn length_of_a_start_of_authority_is_that_of_its_seven_fields() {
    let mut buffer = PacketBuffer::new([0; 512]);
    buffer.seek(40);
    assert_eq!(soa().serialize(&mut buffer), Ok(()));
    // 14 + 2 and 17 + 2 bytes for the names, 20 for the numbers.
    assert_eq!(rdlength(&buffer, 40), 16 + 19 + 20);
    assert_eq!(buffer.pos, 40 + 2 + 55);
    assert_eq!(soa().get_length(), Ok(55));
    assert_eq!(&buffer.buffer[93..97], &[0xff, 0xff, 0xff, 0xff]);
}

#[test]
fn lengths_of_the_other_kinds() {
    let expected = [4usize, 17, 17, 55, 20, 17, 16];
    for (data, length) in all_kinds().iter().zip(expected) {
        let mut buffer = PacketBuffer::new([0; 512]);
        assert_eq!(data.serialize(&mut buffer), Ok(()));
        assert_eq!(rdlength(&buffer, 0), length);
        assert_eq!(buffer.pos, length + 2);
    }
}

#[test]
fn data_reads_back() {
    for data in all_kinds() {
        let mut buffer = PacketBuffer::new([0; 512]);
        buffer.seek(3);
        data.serialize(&mut buffer).unwrap();
        let end = buffer.pos;
        buffer.seek(3);
        let length = buffer.read_u16().unwrap();
        assert_eq!(length as usize, end - 5);
        let read = DnsRecordType::deserialize(&mut buffer, data.get_type(), length);
        assert_eq!(read, Ok(data));
        assert_eq!(buffer.pos, end);
    }
}

#[test]
fn addresses_need_their_own_length() {
    let mut buffer = PacketBuffer::new([1; 512]);
    assert_eq!(DnsRecordType::deserialize(&mut buffer, 1, 5), Err(PacketError::InvalidRecord));
    assert_eq!(DnsRecordType::deserialize(&mut buffer, 1, 3), Err(PacketError::InvalidRecord));
    assert_eq!(DnsRecordType::deserialize(&mut buffer, 28, 4), Err(PacketError::InvalidRecord));
    assert_eq!(buffer.pos, 0);
    assert_eq!(
        DnsRecordType::deserialize(&mut buffer, 1, 4),
        Ok(DnsRecordType::A { address: Ipv4Addr::new(1, 1, 1, 1) })
    );
    assert_eq!(
        DnsRecordType::deserialize(&mut buffer, 28, 16),
        Ok(DnsRecordType::AAAA {
            address: Ipv6Addr::new(0x101, 0x101, 0x101, 0x101, 0x101, 0x101, 0x101, 0x101)
        })
    );
    assert_eq!(buffer.pos, 20);
}

#[test]
fn unknown_types_are_refused() {
    let mut buffer = PacketBuffer::new([0; 512]);
    for type_id in [0u16, 3, 4, 7, 14, 17, 27, 29, 41, 255, 65535] {
        assert_eq!(
            DnsRecordType::deserialize(&mut buffer, type_id, 0),
            Err(PacketError::UnknownRecordType)
        );
    }
    assert_eq!(buffer.pos, 0);
}

#[test]
fn text_has_to_be_utf8() {
    let mut buffer = PacketBuffer::new([0; 512]);
    buffer.buffer[0] = 0xff;
    assert_eq!(DnsRecordType::deserialize(&mut buffer, 16, 1), Err(PacketError::InvalidText));
    assert_eq!(buffer.pos, 0);
    buffer.buffer[0] = 0xc3;
    buffer.buffer[1] = 0xa9;
    assert_eq!(DnsRecordType::deserialize(&mut buffer, 16, 1), Err(PacketError::InvalidText));
    assert_eq!(
        DnsRecordType::deserialize(&mut buffer, 16, 2),
        Ok(DnsRecordType::TXT { text: "\u{e9}".to_string() })
    );
    assert_eq!(buffer.pos, 2);
    assert_eq!(
        DnsRecordType::deserialize(&mut buffer, 16, 0),
        Ok(DnsRecordType::TXT { text: String::new() })
    );
}

#[test]
fn data_cut_short_is_refused() {
    for (type_id, length, room) in [(1u16, 4u16, 3usize), (28, 16, 15), (16, 9, 8), (15, 0, 1), (6, 0, 21), (2, 0, 0)] {
        let mut buffer = PacketBuffer::new([0; 512]);
        buffer.seek(512 - room);
        assert_eq!(
            DnsRecordType::deserialize(&mut buffer, type_id, length),
            Err(PacketError::BufferUnderrun)
        );
        assert_eq!(buffer.pos, 512 - room);
    }
}

#[test]
fn long_labels_are_refused_before_anything_is_written() {
    let mut buffer = PacketBuffer::new([0xee; 512]);
    let data = DnsRecordType::MX { priority: 1, exchange: format!("{}.com", "a".repeat(64)) };
    assert_eq!(data.serialize(&mut buffer), Err(PacketError::LabelTooLong));
    assert_eq!(data.get_length(), Err(PacketError::LabelTooLong));
    assert_eq!(buffer.pos, 0);
    assert_eq!(buffer.buffer, [0xee; 512]);
    let record = DnsRecord { name: "a".repeat(64), class: Class::IN, ttl: 1, data: soa() };
    assert_eq!(record.serialize(&mut buffer), Err(PacketError::LabelTooLong));
    assert_eq!(buffer.buffer, [0xee; 512]);
}

#[test]
fn record_is_name_type_class_ttl_length_data() {
    let mut buffer = PacketBuffer::new([0xee; 512]);
    let record = DnsRecord {
        name: "a.bc".to_string(),
        class: Class::IN,
        ttl: 0x01020304,
        data: DnsRecordType::A { address: Ipv4Addr::new(10, 0, 0, 7) },
    };
    assert_eq!(record.get_type(), 1);
    assert_eq!(record.serialize(&mut buffer), Ok(()));
    assert_eq!(buffer.pos, 20);
    assert_eq!(
        &buffer.buffer[..21],
        &[1, b'a', 2, b'b', b'c', 0, 0, 1, 0, 1, 1, 2, 3, 4, 0, 4, 10, 0, 0, 7, 0xee]
    );
    buffer.seek(0);
    assert_eq!(DnsRecord::deserialize(&mut buffer), Ok(record));
    assert_eq!(buffer.pos, 20);
}

#[test]
fn records_of_every_kind_read_back() {
    for data in all_kinds() {
        let record = DnsRecord { name: "www.example.com".to_string(), class: Class::CH, ttl: 300, data };
        let mut buffer = PacketBuffer::new([0; 512]);
        buffer.seek(12);
        record.serialize(&mut buffer).unwrap();
        let end = buffer.pos;
        buffer.seek(12);
        assert_eq!(DnsRecord::deserialize(&mut buffer), Ok(record));
        assert_eq!(buffer.pos, end);
        buffer.seek(12);
        assert_eq!(DnsRecord::skip(&mut buffer), Ok(()));
        assert_eq!(buffer.pos, end);
    }
}

#[test]
fn record_that_does_not_fit_leaves_the_buffer_alone() {
    let record = DnsRecord {
        name: "a.bc".to_string(),
        class: Class::IN,
        ttl: 1,
        data: DnsRecordType::A { address: Ipv4Addr::new(10, 0, 0, 7) },
    };
    let mut buffer = PacketBuffer::new([0xee; 512]);
    buffer.seek(493);
    assert_eq!(record.serialize(&mut buffer), Err(PacketError::BufferOverrun));
    assert_eq!(buffer.pos, 493);
    assert_eq!(buffer.buffer, [0xee; 512]);
    buffer.seek(492);
    assert_eq!(record.serialize(&mut buffer), Ok(()));
    assert_eq!(buffer.pos, 512);
}

#[test]
fn record_with_unknown_class_or_type_is_refused_and_can_be_passed_over() {
    let bytes = [1, b'a', 0, 0, 41, 0x10, 0, 0, 0, 0, 0, 0, 3, 9, 9, 9, 0x77];
    let mut buffer = PacketBuffer::new([0; 512]);
    for i in 0..bytes.len() {
        buffer.buffer[i] = bytes[i];
    }
    assert_eq!(DnsRecord::deserialize(&mut buffer), Err(PacketError::UnknownClass));
    assert_eq!(buffer.pos, 0);
    buffer.buffer[5] = 0;
    buffer.buffer[6] = 1;
    assert_eq!(DnsRecord::deserialize(&mut buffer), Err(PacketError::UnknownRecordType));
    assert_eq!(buffer.pos, 0);
    assert_eq!(DnsRecord::skip(&mut buffer), Ok(()));
    assert_eq!(buffer.pos, 16);
    buffer.seek(0);
    buffer.buffer[11] = 2;
    assert_eq!(DnsRecord::skip(&mut buffer), Err(PacketError::BufferUnderrun));
    assert_eq!(buffer.pos, 0);
}

#[test]
fn known_names_are_written_as_pointers() {
    let record = DnsRecord {
        name: "a.bc".to_string(),
        class: Class::IN,
        ttl: 0x01020304,
        data: DnsRecordType::A { address: Ipv4Addr::new(10, 0, 0, 7) },
    };
    let known = vec![
        ("x.y".to_string(), 12u16),
        ("a.bc".to_string(), 0x4000),
        ("a.bc".to_string(), 0x0123),
        ("a.bc".to_string(), 7),
    ];
    let mut buffer = PacketBuffer::new([0xee; 512]);
    buffer.seek(300);
    assert_eq!(record.serialize_among(&mut buffer, &known), Ok(()));
    assert_eq!(buffer.pos, 316);
    assert_eq!(
        &buffer.buffer[300..317],
        &[0xC1, 0x23, 0, 1, 0, 1, 1, 2, 3, 4, 0, 4, 10, 0, 0, 7, 0xee]
    );
    let mut other = PacketBuffer::new([0xee; 512]);
    assert_eq!(record.serialize_among(&mut other, &known[..2].to_vec()), Ok(()));
    assert_eq!(other.pos, 20);
    let long = DnsRecord { name: "a".repeat(64), ..record.clone() };
    assert_eq!(
        long.serialize_among(&mut other, &known),
        Err(PacketError::LabelTooLong)
    );
    assert_eq!(
        long.serialize_among(&mut other, &vec![("a".repeat(64), 5u16)]),
        Ok(())
    );
    assert_eq!(other.pos, 36);
}

#[test]
fn answer_is_one_record_for_each_of_its_data() {
    let answer = DnsAnswer::new(
        "a.bc".to_string(),
        Class::IN,
        60,
        vec![
            DnsRecordType::A { address: Ipv4Addr::new(1, 2, 3, 4) },
            DnsRecordType::A { address: Ipv4Addr::new(5, 6, 7, 8) },
        ],
    );
    assert_eq!(answer.record(), "a.bc");
    assert_eq!(answer.response_class(), Class::IN);
    assert_eq!(answer.ttl(), 60);
    assert_eq!(answer.rdata().len(), 2);
    let mut buffer = PacketBuffer::new([0; 512]);
    assert_eq!(answer.serialize(&mut buffer), Ok(()));
    assert_eq!(buffer.pos, 40);
    buffer.seek(0);
    let first = DnsAnswer::deserialize(&mut buffer).unwrap();
    let second = DnsAnswer::deserialize(&mut buffer).unwrap();
    assert_eq!(
        first,
        DnsAnswer::new(
            "a.bc".to_string(),
            Class::IN,
            60,
            vec![DnsRecordType::A { address: Ipv4Addr::new(1, 2, 3, 4) }]
        )
    );
    assert_eq!(second.records()[0].data, DnsRecordType::A { address: Ipv4Addr::new(5, 6, 7, 8) });
    assert_eq!(answer.records().len(), 2);
    assert_eq!(answer.record_at(1), second.records()[0]);
}

#[test]
fn answer_without_data_is_refused() {
    let answer = DnsAnswer::new("a.bc".to_string(), Class::IN, 60, vec![]);
    let mut buffer = PacketBuffer::new([0; 512]);
    assert_eq!(answer.serialize(&mut buffer), Err(PacketError::NoRecordData));
    assert_eq!(buffer.pos, 0);
}

#[test]
fn answer_that_does_not_fit_leaves_the_buffer_alone() {
    let answer = DnsAnswer::new(
        "a.bc".to_string(),
        Class::IN,
        60,
        vec![
            DnsRecordType::A { address: Ipv4Addr::new(1, 2, 3, 4) },
            DnsRecordType::A { address: Ipv4Addr::new(5, 6, 7, 8) },
        ],
    );
    let mut buffer = PacketBuffer::new([0xee; 512]);
    buffer.seek(480);
    assert_eq!(answer.serialize(&mut buffer), Err(PacketError::BufferOverrun));
    assert_eq!(buffer.pos, 480);
    assert_eq!(buffer.buffer, [0xee; 512]);
    let long = DnsAnswer::new(
        "a.bc".to_string(),
        Class::IN,
        60,
        vec![
            DnsRecordType::A { address: Ipv4Addr::new(1, 2, 3, 4) },
            DnsRecordType::NS { name_server: "b".repeat(70) },
        ],
    );
    buffer.seek(0);
    assert_eq!(long.serialize(&mut buffer), Err(PacketError::LabelTooLong));
    assert_eq!(buffer.buffer, [0xee; 512]);
}

#[test]
fn lists_of_records_are_written_whole_or_not_at_all() {
    let first = DnsRecord {
        name: "a.bc".to_string(),
        class: Class::IN,
        ttl: 1,
        data: DnsRecordType::A { address: Ipv4Addr::new(1, 2, 3, 4) },
    };
    let second = DnsRecord {
        name: "d.ef".to_string(),
        class: Class::CS,
        ttl: 2,
        data: DnsRecordType::NS { name_server: "a.bc".to_string() },
    };
    let records = vec![first.clone(), second.clone()];
    let known = vec![("d.ef".to_string(), 77u16)];
    assert!(records_fit_among(&records, &known));
    let mut buffer = PacketBuffer::new([0xee; 512]);
    buffer.seek(100);
    assert_eq!(write_records(&mut buffer, &records, &known), Ok(()));
    // 20 bytes for the first record, 2 + 10 + 6 for the second.
    assert_eq!(buffer.pos, 138);
    assert_eq!(&buffer.buffer[120..124], &[0xC0, 77, 0, 2]);
    assert_eq!(&buffer.buffer[130..139], &[0, 6, 1, b'a', 2, b'b', b'c', 0, 0xee]);
    buffer.seek(100);
    assert_eq!(read_records(&mut buffer, 1), Ok(vec![first.clone()]));
    assert_eq!(buffer.pos, 120);
    // The name of the second record is a pointer to where no name stands.
    assert_eq!(read_records(&mut buffer, 2), Err(PacketError::PointerOutOfBounds));
    assert_eq!(buffer.pos, 120);
    buffer.seek(100);
    assert_eq!(read_readable_records(&mut buffer, 9), vec![first.clone()]);
    assert_eq!(buffer.pos, 120);

    let mut full = PacketBuffer::new([0xee; 512]);
    full.seek(475);
    assert_eq!(write_records(&mut full, &records, &known), Err(PacketError::BufferOverrun));
    assert_eq!(full.pos, 475);
    assert_eq!(full.buffer, [0xee; 512]);
    full.seek(474);
    assert_eq!(write_records(&mut full, &records, &known), Ok(()));
    assert_eq!(full.pos, 512);

    let long = DnsRecord { name: "a".repeat(64), ..first.clone() };
    let with_long = vec![first, long, second];
    assert!(!records_fit_among(&with_long, &known));
    let mut other = PacketBuffer::new([0xee; 512]);
    other.seek(600);
    assert_eq!(write_records(&mut other, &with_long, &known), Err(PacketError::LabelTooLong));
    assert_eq!(other.buffer, [0xee; 512]);
    assert_eq!(write_records(&mut other, &vec![], &known), Err(PacketError::BufferOverrun));
    other.seek(512);
    assert_eq!(write_records(&mut other, &vec![], &known), Ok(()));
}
