use tiny_dns::errors::PacketError;
use tiny_dns::parsing::serialize::Serialize;
use tiny_dns::protocol::domain_names::{DomainNames, DomainParts};

fn label(text: &str) -> DomainParts {
    DomainParts::Label {
        len: text.len() as u8,
        string: String::from(text),
    }
}

#[test]
fn test_get_domain() {
    let domain_names = DomainNames::new_from_vec(vec![
        DomainParts::Label {
            len: 3,
            string: String::from("www"),
        },
        DomainParts::Label {
            len: 6,
            string: String::from("google"),
        },
        DomainParts::Label {
            len: 3,
            string: String::from("com"),
        },
        DomainParts::End,
    ]);

    let domains = domain_names.get_domains();

    assert_eq!(domains, vec![(String::from("www.google.com"), 0u16)]);
}

#[test]
fn test_get_domain_wiht_pointer() {
    let domain_names = DomainNames::new_from_vec(vec![
        DomainParts::Label {
            len: 3,
            string: String::from("www"),
        },
        DomainParts::Label {
            len: 6,
            string: String::from("google"),
        },
        DomainParts::Label {
            len: 3,
            string: String::from("com"),
        },
        DomainParts::End,
        DomainParts::Label {
            len: 6,
            string: String::from("images"),
        },
        DomainParts::Pointer { pos: 4 },
    ]);

    let domains = domain_names.get_domains();

    assert_eq!(
        domains,
        vec![
            (String::from("www.google.com"), 0u16),
            (String::from("images.google.com"), 16u16)
        ]
    );
}

#[test]
fn test_get_domain_with_pointer_to_pointer() {
    let domain_names = DomainNames::new_from_vec(vec![
        DomainParts::Label {
            len: 3,
            string: String::from("www"),
        },
        DomainParts::Label {
            len: 6,
            string: String::from("google"),
        },
        DomainParts::Label {
            len: 3,
            string: String::from("com"),
        },
        DomainParts::End,
        DomainParts::Label {
            len: 6,
            string: String::from("images"),
        },
        DomainParts::Pointer { pos: 4 },
        DomainParts::Label {
            len: 4,
            string: String::from("test"),
        },
        DomainParts::Pointer { pos: 16 },
    ]);

    let domains = domain_names.get_domains();

    assert_eq!(
        domains,
        vec![
            (String::from("www.google.com"), 0u16),
            (String::from("images.google.com"), 16u16),
            (String::from("test.images.google.com"), 25u16)
        ]
    );
}

#[test]
fn serialize_and_deserialize_qname() {
    let domain_names = DomainNames::new_from_vec(vec![
        DomainParts::Label {
            len: 3,
            string: String::from("www"),
        },
        DomainParts::Label {
            len: 6,
            string: String::from("google"),
        },
        DomainParts::Label {
            len: 3,
            string: String::from("com"),
        },
        DomainParts::End,
    ]);

    let vec = domain_names.serialize();
    let buf = vec.into_vec();

    let (res, des_domain_names) = DomainNames::deserialize((&buf, 0), 1).unwrap();

    let domains = domain_names.get_domains();
    let des_domains = des_domain_names.get_domains();

    assert_eq!(domains, des_domains);
    assert_eq!(res, (&[] as &[u8], 0));
}

#[test]
fn names_are_written_part_by_part() {
    let domain_names = DomainNames::new_from_vec(vec![
        label("ab"),
        DomainParts::End,
        label("c"),
        DomainParts::Pointer { pos: 0x0123 },
    ]);
    assert_eq!(domain_names.get_total_len(), 8);
    let bytes = domain_names.serialize().into_vec();
    assert_eq!(bytes, vec![2, b'a', b'b', 0, 1, b'c', 0xC1, 0x23]);
}

#[test]
fn pointer_chain_reads_back_with_the_right_count() {
    let domain_names = DomainNames::new_from_vec(vec![
        label("www"),
        label("google"),
        label("com"),
        DomainParts::End,
        label("images"),
        DomainParts::Pointer { pos: 4 },
        label("test"),
        DomainParts::Pointer { pos: 16 },
    ]);
    let bytes = domain_names.serialize().into_vec();
    assert_eq!(bytes.len(), 32);
    let (rest, read) = DomainNames::deserialize((&bytes, 0), 3).unwrap();
    assert_eq!(rest, (&[] as &[u8], 0));
    assert_eq!(read.get_domains(), domain_names.get_domains());
    assert_eq!(
        read.get_domains(),
        vec![
            (String::from("www.google.com"), 0u16),
            (String::from("images.google.com"), 16u16),
            (String::from("test.images.google.com"), 25u16)
        ]
    );
    let (rest, first) = DomainNames::deserialize((&bytes, 0), 1).unwrap();
    assert_eq!(rest.0.len(), 16);
    assert_eq!(first.get_labels().len(), 4);
}

#[test]
fn names_cut_short_are_refused() {
    let bytes = [3, b'w', b'w'];
    assert_eq!(
        DomainNames::deserialize((&bytes, 0), 1).err(),
        Some(PacketError::BufferUnderrun)
    );
    let no_end = [1, b'a'];
    assert_eq!(
        DomainNames::deserialize((&no_end, 0), 1).err(),
        Some(PacketError::BufferUnderrun)
    );
    let half_pointer = [1, b'a', 0, 0xC0];
    assert_eq!(
        DomainNames::deserialize((&half_pointer, 0), 2).err(),
        Some(PacketError::BufferUnderrun)
    );
    let nothing: [u8; 0] = [];
    let (rest, none) = DomainNames::deserialize((&nothing, 0), 0).unwrap();
    assert_eq!(rest, (&[] as &[u8], 0));
    assert_eq!(none.get_labels().len(), 0);
}

#[test]
fn pointers_that_do_not_point_back_are_refused() {
    let to_itself = [1, b'a', 0xC0, 2];
    assert_eq!(
        DomainNames::deserialize((&to_itself, 0), 1).err(),
        Some(PacketError::PointerCycle)
    );
    let forward = [0xC0, 5, 0, 0, 0, 1, b'a', 0];
    assert_eq!(
        DomainNames::deserialize((&forward, 0), 1).err(),
        Some(PacketError::PointerCycle)
    );
    let backward = [1, b'a', 0, 0xC0, 0];
    let (_, names) = DomainNames::deserialize((&backward, 0), 2).unwrap();
    assert_eq!(
        names.get_domains(),
        vec![(String::from("a"), 0u16), (String::from("a"), 3u16)]
    );
}

#[test]
fn length_bytes_with_one_top_bit_are_refused() {
    let bytes = [0x40, 0];
    assert_eq!(
        DomainNames::deserialize((&bytes, 0), 1).err(),
        Some(PacketError::LabelTooLong)
    );
    let bytes = [0x80, 0];
    assert_eq!(
        DomainNames::deserialize((&bytes, 0), 1).err(),
        Some(PacketError::LabelTooLong)
    );
}

#[test]
fn pointers_in_a_circle_still_give_names() {
    // The pointer at offset 2 names offset 0, where the label leads to it again.
    let domain_names = DomainNames::new_from_vec(vec![label("a"), DomainParts::Pointer { pos: 0 }]);
    // Two parts: the pointer is followed twice, and what a third time would add is left out.
    assert_eq!(domain_names.get_domains(), vec![(String::from("a.a.a."), 0u16)]);
    assert_eq!(domain_names.get_domain_from_pos(2), "a.a.");
}

#[test]
fn parts_have_their_sizes_and_positions() {
    assert_eq!(DomainParts::Pointer { pos: 7 }.get_size(), 2);
    assert_eq!(label("google").get_size(), 7);
    assert_eq!(DomainParts::Label { len: 255, string: String::new() }.get_size(), 256);
    assert_eq!(DomainParts::End.get_size(), 1);
    let domain_names = DomainNames::new_from_vec(vec![
        label("www"),
        DomainParts::End,
        DomainParts::Pointer { pos: 0 },
    ]);
    assert_eq!(domain_names.get_pos_from_index(0), 0);
    assert_eq!(domain_names.get_pos_from_index(1), 4);
    assert_eq!(domain_names.get_pos_from_index(2), 5);
    assert_eq!(domain_names.get_pos_from_index(3), 7);
    assert_eq!(domain_names.get_pos_from_index(9), 7);
    assert_eq!(domain_names.get_from_pos(0).len(), 3);
    assert_eq!(domain_names.get_from_pos(1).len(), 2);
    assert_eq!(domain_names.get_from_pos(5).len(), 1);
    assert_eq!(domain_names.get_from_pos(6).len(), 0);
    assert_eq!(domain_names.get_domain_from_pos(0), "www");
    assert_eq!(domain_names.get_total_len(), 7);
}

#[test]
fn labels_without_an_end_are_no_name() {
    let domain_names = DomainNames::new_from_vec(vec![label("a"), DomainParts::End, label("b")]);
    assert_eq!(domain_names.get_domains(), vec![(String::from("a"), 0u16)]);
    assert_eq!(domain_names.get_domain_from_pos(3), "b.");
}
