//! Encoding and decoding of the protocol's primitive values.
pub mod eo_reader;
pub mod eo_writer;
pub mod number;
pub mod text;

pub use eo_reader::{EoReader, EoReaderError};
pub use eo_writer::{EoWriter, EoWriterError};
pub use number::{
    decode_number, decode_number_64, encode_number, encode_number_64, normalize, CHAR_MAX,
    INT_MAX, SHORT_MAX, THREE_MAX,
};
pub use text::{decode_string, encode_string};
