//! Base64 transcoding over in-memory buffers: table-driven encoding with
//! pair lookups and padding, and padding-aware in-place decoding.

mod decoder;
mod encoder;
mod laws;
mod model;
mod tables;

pub use decoder::decode;
pub use decoder::lcvec_dec;
pub use encoder::encode;
pub use encoder::lcvec_enc;
pub use laws::lemma_decode_length;
pub use laws::lemma_encode_length;
pub use laws::lemma_padding;
pub use laws::lemma_round_trip;
pub use model::decoded;
pub use model::encoded;
