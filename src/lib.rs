//! Planar frame storage and a verified spatial-filter harness for images of
//! several bit depths.
pub mod kinds;
pub mod errors;
pub mod numeric;
pub mod channel;
pub mod frame;
pub mod pad;
pub mod spatial;
pub mod bilateral;
pub mod filter;
