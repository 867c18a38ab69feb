pub mod bit_values;
pub mod deserialize;
pub mod serialize;
