//! A data-driven SOAP 1.1 service core: an operation/type model, a WSDL
//! generator, an envelope codec (parsing, response and fault construction),
//! and a dispatcher, all specified and verified over sequences of characters.

pub mod attributes;
pub mod dispatch;
pub mod envelope;
pub mod faults;
pub mod functions;
pub mod roundtrip;
pub mod serialization;
pub mod templates;
pub mod text;
pub mod types;
pub mod wsdl;
