pub mod binary_header;
pub mod envelope;
