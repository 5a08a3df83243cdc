//! A compiler from small, declarative "element" programs — stateful
//! request/response processing units — to a service-mesh proxy's
//! declarative filter configuration. The pipeline validates an element,
//! lowers it to a canonical intermediate representation, matches that
//! representation against a catalog of idioms with known native
//! configurations, and emits the chosen configuration in wire form, with a
//! lossless embedded-logic fallback when no idiom matches.
pub mod ast;
pub mod validate;
pub mod ir;
pub mod lower;
pub mod codec;
pub mod emit;
pub mod pipeline;
pub mod fault;
pub mod backend;
