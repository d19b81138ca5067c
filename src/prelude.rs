//! The digests and their traits, for `use librscrc::prelude::*`.
pub use crate::check32::crc32::Crc32;
pub use crate::check32::crc32c::Crc32C;
pub use crate::check32::custom_crc32::CustomCrc32;
pub use crate::check32::engine::Strategy;
pub use crate::check32::Crc32Digest;
pub use crate::check64::crc64ecma::Crc64ECMA;
pub use crate::check64::crc64iso::Crc64ISO;
pub use crate::check64::Crc64Digest;
