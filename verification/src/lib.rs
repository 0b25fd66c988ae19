//! String-to-route matching: compiled strategies that map a request
//! attribute (a hostname, a path or header segment) to the slot of the
//! routing rule it belongs to.

pub mod strategies;
