//! Signature-based file carving: validators, the signature catalog and the
//! scanner that routes candidates to them.

pub mod scanner;
pub mod signature;
pub mod validation;
pub mod validators;
