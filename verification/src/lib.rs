//! Verification path of SLH-DSA (FIPS 205) for the SHA2 security-category-1
//! hash suite, with a monomorphic entry point for SLH-DSA-SHA2-128s.

pub mod adrs;
pub mod encoding;
pub mod oracle;
pub mod types;
pub mod wots;
pub mod xmss;
pub mod fors;
pub mod hypertree;
pub mod slh;
pub mod correctness;


