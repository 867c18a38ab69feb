use tiny_dns::errors::PacketError;
use tiny_dns::parsing::deserialize::{
    take_16bits, take_1bit_bool, take_32bits, take_3bits, take_4bits, take_8bits, take_n_bits,
    take_vec_of_n_bytes,
};
use tiny_dns::parsing::serialize::{serialize_byte, serialize_n_bits};

#[test]
fn bits_are_taken_most_significant_first() {
    let bytes = [0b0001_0010u8, 0b1111_0000];
    assert_eq!(take_n_bits((&bytes, 0), 0), Ok(((&bytes[..], 0), 0)));
    assert_eq!(take_n_bits((&bytes, 0), 4), Ok(((&bytes[..], 4), 0b0001)));
    assert_eq!(take_n_bits((&bytes, 4), 4), Ok(((&bytes[1..], 0), 0b0010)));
    assert_eq!(take_n_bits((&bytes, 4), 8), Ok(((&bytes[1..], 4), 0b0010_1111)));
    assert_eq!(take_n_bits((&bytes, 6), 10), Ok(((&bytes[2..], 0), 0b10_1111_0000)));
    assert_eq!(take_n_bits((&bytes, 0), 17), Err(PacketError::BufferUnderrun));
    assert_eq!(take_n_bits((&bytes, 1), 16), Err(PacketError::BufferUnderrun));
}

#[test]
fn sixty_four_bits_can_be_taken() {
    let bytes = [0xffu8, 1, 2, 3, 4, 5, 6, 7, 8];
    assert_eq!(take_n_bits((&bytes, 0), 64), Ok(((&bytes[8..], 0), 0xff01020304050607)));
    assert_eq!(take_n_bits((&bytes, 4), 64), Ok(((&bytes[8..], 4), 0xf010203040506070)));
}

#[test]
fn fixed_widths() {
    let bytes = [0x12u8, 0x34, 0x56, 0x78, 0x9a];
    assert_eq!(take_32bits((&bytes, 0)), Ok(((&bytes[4..], 0), 0x12345678)));
    assert_eq!(take_16bits((&bytes, 0)), Ok(((&bytes[2..], 0), 0x1234)));
    assert_eq!(take_16bits((&bytes, 4)), Ok(((&bytes[2..], 4), 0x2345)));
    assert_eq!(take_8bits((&bytes, 4)), Ok(((&bytes[1..], 4), 0x23)));
    assert_eq!(take_4bits((&bytes, 0)), Ok(((&bytes[..], 4), 1)));
    assert_eq!(take_3bits((&bytes, 3)), Ok(((&bytes[..], 6), 0b100)));
    assert_eq!(take_1bit_bool((&bytes, 3)), Ok(((&bytes[..], 4), true)));
    assert_eq!(take_1bit_bool((&bytes, 4)), Ok(((&bytes[..], 5), false)));
    assert_eq!(take_32bits((&bytes, 1)), Ok(((&bytes[4..], 1), 0x2468acf1)));
    assert_eq!(take_32bits((&bytes[2..], 0)), Err(PacketError::BufferUnderrun));
}

#[test]
fn bytes_are_taken_at_any_bit() {
    let bytes = [0x12u8, 0x34, 0x56];
    assert_eq!(take_vec_of_n_bytes((&bytes, 0), 2), Ok(((&bytes[2..], 0), vec![0x12, 0x34])));
    assert_eq!(take_vec_of_n_bytes((&bytes, 4), 2), Ok(((&bytes[2..], 4), vec![0x23, 0x45])));
    assert_eq!(take_vec_of_n_bytes((&bytes, 4), 0), Ok(((&bytes[..], 4), vec![])));
    assert_eq!(take_vec_of_n_bytes((&bytes, 4), 3), Err(PacketError::BufferUnderrun));
    assert_eq!(take_vec_of_n_bytes((&bytes, 0), 3), Ok(((&bytes[3..], 0), vec![0x12, 0x34, 0x56])));
}

#[test]
fn numbers_are_written_most_significant_bit_first() {
    assert_eq!(serialize_n_bits(4, 0b1010).into_vec(), vec![0b1010_0000]);
    assert_eq!(serialize_n_bits(8, 0x1ff).into_vec(), vec![0xff]);
    assert_eq!(serialize_n_bits(16, 0x1234).into_vec(), vec![0x12, 0x34]);
    assert_eq!(serialize_n_bits(0, 7).into_vec(), Vec::<u8>::new());
    assert_eq!(serialize_byte(0xa5).into_vec(), vec![0xa5]);
    assert_eq!(
        serialize_n_bits(72, u64::MAX).into_vec(),
        vec![0, 0xff, 0xff, 0xff, 0xff, 0xff, 0xff, 0xff, 0xff]
    );
}
