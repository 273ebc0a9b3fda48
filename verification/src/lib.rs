//! Local-network server discovery: enumerate candidate endpoints, classify
//! probe replies, and aggregate the successful discoveries.

pub mod batch;
pub mod endpoint;
pub mod probe;
