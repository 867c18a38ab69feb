use tiny_dns::errors::PacketError;
use tiny_dns::protocol::packet_buffer::PacketBuffer;

fn buffer_with(bytes: &[u8]) -> PacketBuffer {
    let mut buffer = PacketBuffer::new([0; 512]);
    for i in 0..bytes.len() {
        buffer.buffer[i] = bytes[i];
    }
    buffer
}

#[test]
fn test_packet_buffer() {
    let mut buffer = PacketBuffer::new([0; 512]);
    buffer.buffer[0] = 0b00000001;
    buffer.buffer[1] = 0b00000010;
    assert_eq!(buffer.read_u16().unwrap(), 258);
}

#[test]
fn test_qname() {
    let mut buffer = PacketBuffer::new([0; 512]);
    let mut tmp_vec: Vec<u8> = Vec::new();

    tmp_vec.push(3);
    tmp_vec.push('w' as u8);
    tmp_vec.push('w' as u8);
    tmp_vec.push('w' as u8);
    tmp_vec.push(6);
    tmp_vec.push('g' as u8);
    tmp_vec.push('o' as u8);
    tmp_vec.push('o' as u8);
    tmp_vec.push('g' as u8);
    tmp_vec.push('l' as u8);
    tmp_vec.push('e' as u8);
    tmp_vec.push(3);
    tmp_vec.push('c' as u8);
    tmp_vec.push('o' as u8);
    tmp_vec.push('m' as u8);
    tmp_vec.push(0);
    tmp_vec.push(6);
    tmp_vec.push('i' as u8);
    tmp_vec.push('m' as u8);
    tmp_vec.push('a' as u8);
    tmp_vec.push('g' as u8);
    tmp_vec.push('e' as u8);
    tmp_vec.push('s' as u8);
    tmp_vec.push(0xC0);
    tmp_vec.push(0x04);
    tmp_vec.push(3);
    tmp_vec.push('w' as u8);
    tmp_vec.push('w' as u8);
    tmp_vec.push('w' as u8);
    tmp_vec.push(0xC0);
    tmp_vec.push(16);

    for i in 0..tmp_vec.len() {
        buffer.buffer[i] = tmp_vec[i];
    }

    assert_eq!(buffer.read_qname().unwrap(), "www.google.com".to_string());
    assert_eq!(
        buffer.read_qname().unwrap(),
        "images.google.com".to_string()
    );
    assert_eq!(
        buffer.read_qname().unwrap(),
        "www.images.google.com".to_string()
    );
}

#[test]
fn read_moves_the_cursor_and_stops_at_the_end() {
    let mut buffer = buffer_with(&[7, 8]);
    assert_eq!(buffer.peek(), Ok(7));
    assert_eq!(buffer.read(), Ok(7));
    assert_eq!(buffer.read(), Ok(8));
    assert_eq!(buffer.pos, 2);
    buffer.seek(511);
    assert_eq!(buffer.read(), Ok(0));
    assert_eq!(buffer.pos, 512);
    assert_eq!(buffer.read(), Err(PacketError::BufferUnderrun));
    assert_eq!(buffer.peek(), Err(PacketError::BufferUnderrun));
    assert_eq!(buffer.pos, 512);
}

#[test]
fn wide_reads_are_big_endian_and_checked() {
    let mut buffer = buffer_with(&[0x12, 0x34, 0x56, 0x78, 0x9a, 0xbc]);
    assert_eq!(buffer.read_u32(), Ok(0x12345678));
    assert_eq!(buffer.read_u16(), Ok(0x9abc));
    buffer.seek(511);
    assert_eq!(buffer.read_u16(), Err(PacketError::BufferUnderrun));
    assert_eq!(buffer.pos, 511);
    buffer.seek(509);
    assert_eq!(buffer.read_u32(), Err(PacketError::BufferUnderrun));
    assert_eq!(buffer.pos, 509);
    buffer.seek(508);
    assert_eq!(buffer.read_u32(), Ok(0));
    buffer.seek(usize::MAX);
    assert_eq!(buffer.read_u16(), Err(PacketError::BufferUnderrun));
    assert_eq!(buffer.read_bytes(1), Err(PacketError::BufferUnderrun));
}

#[test]
fn read_bytes_gives_the_span() {
    let mut buffer = buffer_with(&[1, 2, 3, 4, 5]);
    buffer.seek(1);
    assert_eq!(buffer.read_bytes(3), Ok(vec![2, 3, 4]));
    assert_eq!(buffer.pos, 4);
    assert_eq!(buffer.read_bytes(0), Ok(vec![]));
    assert_eq!(buffer.read_bytes(509), Err(PacketError::BufferUnderrun));
    assert_eq!(buffer.pos, 4);
    assert_eq!(buffer.read_bytes(508).unwrap().len(), 508);
    assert_eq!(buffer.pos, 512);
}

#[test]
fn writes_are_big_endian_and_checked() {
    let mut buffer = PacketBuffer::new([0; 512]);
    assert_eq!(buffer.write(0xab), Ok(()));
    assert_eq!(buffer.write_u16(0x1234), Ok(()));
    assert_eq!(buffer.write_u32(0xdeadbeef), Ok(()));
    assert_eq!(buffer.write_bytes(vec![9, 8]), Ok(()));
    assert_eq!(buffer.pos, 9);
    assert_eq!(&buffer.buffer[..10], &[0xab, 0x12, 0x34, 0xde, 0xad, 0xbe, 0xef, 9, 8, 0]);
    buffer.seek(511);
    assert_eq!(buffer.write_u16(1), Err(PacketError::BufferOverrun));
    assert_eq!(buffer.write_u32(1), Err(PacketError::BufferOverrun));
    assert_eq!(buffer.write_bytes(vec![1, 2]), Err(PacketError::BufferOverrun));
    assert_eq!(buffer.pos, 511);
    assert_eq!(buffer.buffer[511], 0);
    assert_eq!(buffer.write(5), Ok(()));
    assert_eq!(buffer.write(6), Err(PacketError::BufferOverrun));
    assert_eq!(buffer.buffer[511], 5);
}

#[test]
fn write_qname_gives_labels_and_a_zero() {
    let mut buffer = PacketBuffer::new([0xff; 512]);
    assert_eq!(buffer.write_qname("www.google.com"), Ok(()));
    assert_eq!(buffer.pos, 16);
    assert_eq!(
        &buffer.buffer[..17],
        &[3, b'w', b'w', b'w', 6, b'g', b'o', b'o', b'g', b'l', b'e', 3, b'c', b'o', b'm', 0, 0xff]
    );
    buffer.seek(0);
    assert_eq!(buffer.read_qname().unwrap(), "www.google.com");
    assert_eq!(buffer.pos, 16);
}

#[test]
fn write_qname_refuses_a_long_label_and_a_full_buffer() {
    let mut buffer = PacketBuffer::new([0; 512]);
    let long = "a".repeat(64);
    assert_eq!(buffer.write_qname(&long), Err(PacketError::LabelTooLong));
    assert_eq!(buffer.pos, 0);
    assert_eq!(buffer.buffer[0], 0);
    let longest = "a".repeat(63);
    assert_eq!(buffer.write_qname(&longest), Ok(()));
    assert_eq!(buffer.pos, 65);
    buffer.seek(500);
    assert_eq!(buffer.write_qname("www.google.com"), Err(PacketError::BufferOverrun));
    assert_eq!(buffer.pos, 500);
    assert_eq!(buffer.buffer[500], 0);
    buffer.seek(496);
    assert_eq!(buffer.write_qname("www.google.com"), Ok(()));
    assert_eq!(buffer.pos, 512);
}

#[test]
fn write_qname_of_the_empty_name_is_an_empty_label() {
    let mut buffer = PacketBuffer::new([0xff; 512]);
    assert_eq!(buffer.write_qname(""), Ok(()));
    assert_eq!(buffer.pos, 2);
    assert_eq!(&buffer.buffer[..3], &[0, 0, 0xff]);
}

#[test]
fn read_qname_of_a_zero_byte_is_the_empty_name() {
    let mut buffer = buffer_with(&[0, 3]);
    assert_eq!(buffer.read_qname().unwrap(), "");
    assert_eq!(buffer.pos, 1);
}

#[test]
fn read_qname_resumes_behind_the_first_pointer() {
    // "a" at 0, a pointer to it at 3, and at 5 a name that ends in a pointer to 3.
    let mut buffer = buffer_with(&[1, b'a', 0, 0xC0, 0, 1, b'b', 0xC0, 3, 0x66]);
    buffer.seek(5);
    assert_eq!(buffer.read_qname().unwrap(), "b.a");
    assert_eq!(buffer.pos, 9);
    buffer.seek(3);
    assert_eq!(buffer.read_qname().unwrap(), "a");
    assert_eq!(buffer.pos, 5);
}

#[test]
fn read_qname_refuses_a_pointer_to_itself() {
    let mut buffer = buffer_with(&[1, b'a', 0xC0, 2]);
    assert_eq!(buffer.read_qname(), Err(PacketError::PointerCycle));
    assert_eq!(buffer.pos, 0);
}

#[test]
fn read_qname_refuses_a_forward_pointer() {
    let mut buffer = buffer_with(&[0xC0, 4, 0, 0, 1, b'a', 0]);
    assert_eq!(buffer.read_qname(), Err(PacketError::PointerCycle));
    assert_eq!(buffer.pos, 0);
}

#[test]
fn read_qname_refuses_a_cycle_of_backward_pointers() {
    // The label at 0 runs into the pointer at 2, which points back to 0.
    let mut buffer = buffer_with(&[1, b'a', 0xC0, 0]);
    assert_eq!(buffer.read_qname(), Err(PacketError::PointerCycle));
    assert_eq!(buffer.pos, 0);
}

#[test]
fn read_qname_refuses_a_pointer_out_of_the_buffer() {
    let mut buffer = buffer_with(&[0, 0, 0, 0xC2, 0x00]);
    buffer.seek(3);
    assert_eq!(buffer.read_qname(), Err(PacketError::PointerOutOfBounds));
    buffer.buffer[3] = 0xFF;
    buffer.buffer[4] = 0xFF;
    assert_eq!(buffer.read_qname(), Err(PacketError::PointerOutOfBounds));
    assert_eq!(buffer.pos, 3);
}

#[test]
fn read_qname_follows_a_pointer_with_high_offset_bits() {
    let mut buffer = PacketBuffer::new([0; 512]);
    buffer.buffer[300] = 1;
    buffer.buffer[301] = b'x';
    buffer.buffer[302] = 0;
    buffer.buffer[400] = 0xC1;
    buffer.buffer[401] = 0x2C;
    buffer.seek(400);
    assert_eq!(buffer.read_qname().unwrap(), "x");
    assert_eq!(buffer.pos, 402);
}

#[test]
fn read_qname_refuses_a_long_label_and_a_cut_name() {
    let mut buffer = buffer_with(&[64, b'a']);
    assert_eq!(buffer.read_qname(), Err(PacketError::LabelTooLong));
    buffer.buffer[0] = 0x80;
    assert_eq!(buffer.read_qname(), Err(PacketError::LabelTooLong));
    let mut cut = PacketBuffer::new([1; 512]);
    cut.seek(2);
    assert_eq!(cut.read_qname(), Err(PacketError::BufferUnderrun));
    assert_eq!(cut.pos, 2);
    cut.buffer[510] = 5;
    cut.seek(510);
    assert_eq!(cut.read_qname(), Err(PacketError::BufferUnderrun));
    cut.buffer[511] = 0xC0;
    cut.seek(511);
    assert_eq!(cut.read_qname(), Err(PacketError::BufferUnderrun));
    cut.seek(512);
    assert_eq!(cut.read_qname(), Err(PacketError::BufferUnderrun));
}
