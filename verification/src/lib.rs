//! Wire-level encoding primitives of the EO network protocol: the number
//! codec, the text obfuscator, a reader and a writer that sequence the two
//! over a byte buffer, the packet cipher, the legacy string cipher and the
//! server verification hash.
//!
//! Every function is a pure function of its arguments or changes a buffer
//! of the caller in place; the library holds no state.
pub mod data;
pub mod encrypt;
pub mod wrapping;
