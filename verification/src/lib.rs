//! The route layer of an incremental build pipeline: which endpoints serve
//! which pathname, and how the references to them are made canonical before
//! routes are stored and compared.

pub mod endpoint;
pub mod reference;
pub mod resolution;
pub mod route;
pub mod table;
pub mod written;
