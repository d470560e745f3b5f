pub mod conversion;
pub mod definition;
pub mod laws;
pub mod validation;
