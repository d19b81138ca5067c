//! CRC-32, CRC-32C, CRC-64 (ECMA and ISO) and custom-polynomial CRC-32 digests,
//! computed bit by bit, through slicing-by-16 tables, or by carry-less folding.
//!
//! The mathematical model is the reflected shift register of `check32::model`
//! and `check64::model`. The bitwise and table engines are proved to compute
//! it exactly; the folding engine is proved to follow its own stepwise
//! definition in `check32::fold`, and leaves its tail to the table engine.
pub mod check32;
pub mod check64;
pub mod prelude;
