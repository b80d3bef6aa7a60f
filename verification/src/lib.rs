//! Server-side core of a SOAP 1.2 request router: the envelope model, the
//! envelope merger, the rendering of faults and the dispatch of the
//! operations of a request to handlers.
pub mod document;
pub mod fault;
pub mod lookup;
pub mod merge;
pub mod message;
pub mod prefix;
pub mod router;
pub mod xml;
