pub mod bounds;
pub mod dns_answer;
pub mod dns_header;
pub mod dns_packet;
pub mod dns_query;
pub mod dns_question;
pub mod dns_record;
pub mod dns_record_type;
pub mod dns_response;
pub mod domain_names;
pub mod name_codec;
pub mod packet_buffer;
pub mod parts_bounds;
pub mod parts_roundtrip;
pub mod roundtrip;
