//! Signature-based file carving: header pre-validation, chunked scanning of
//! a device for file signatures, extraction of the file behind each hit
//! (sized by embedded size fields or cut at a footer), and post-extraction
//! structural checks.

pub mod bytes;
pub mod carver_io;
pub mod device;
pub mod error;
pub mod post_validate;
pub mod pre_validate;
pub mod scan_search;
pub mod scanner;
pub mod signature;
pub mod size_hint;
pub mod text;

pub use error::CarveError;
pub use post_validate::CarveQuality;
pub use pre_validate::PreValidate;
pub use scanner::{CarveHit, Carver, ScanProgress};
pub use signature::{parse_hex, parse_hex_pattern, CarvingConfig, Signature, SizeHint};
