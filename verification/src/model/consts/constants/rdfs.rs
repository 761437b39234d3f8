//! Terms of RDF and RDF Schema.
#![allow(non_upper_case_globals)]

use vstd::prelude::*;

verus! {

/// `rdfs:subClassOf`
pub const subClassOf: u32 = 0;

/// `rdfs:subPropertyOf`
pub const subPropertyOf: u32 = 1;

/// `rdfs:domain`
pub const domain: u32 = 2;

/// `rdfs:range`
pub const range: u32 = 3;

/// `rdf:type`
pub const type_: u32 = 4;

/// `rdfs:comment`
pub const comment: u32 = 5;

/// `rdf:rest`
pub const rest: u32 = 6;

/// `rdf:first`
pub const first: u32 = 7;

/// `rdfs:label`
pub const label: u32 = 8;

/// `rdf:nil`
pub const nil: u32 = 9;

/// `rdfs:Literal`
pub const Literal: u32 = 10;

} // verus!
