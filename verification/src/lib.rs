//! A codec for WARC (Web ARChive) records: the record data model, the
//! header-block grammar, a filtering archive iterator over a byte buffer and
//! the serialisation of records back into bytes.

pub mod archive;
pub mod ascii;
pub mod chunks;
pub mod decimal;
pub mod digest;
pub mod error;
pub mod folding;
pub mod grammar;
pub mod header_block;
pub mod header_map;
pub mod invariants;
pub mod key;
pub mod laws;
pub mod record;
pub mod record_type;
pub mod round_trip;
pub mod stamp;
pub mod stream;
pub mod text;

pub use archive::ArchiveIterator;
pub use archive::ArchiveIteratorConfig;
pub use digest::DigestAlgorithm;
pub use digest::DigestType;
pub use error::WarcError;
pub use header_map::HeaderMap;
pub use key::CaseInsensitiveKey;
pub use record::WarcRecord;
pub use record_type::WarcRecordType;
pub use text::HeaderEncoding;
