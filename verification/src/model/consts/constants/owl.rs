//! Terms of OWL.
#![allow(non_upper_case_globals)]

use vstd::prelude::*;

verus! {

/// `owl:TransitiveProperty`
pub const TransitiveProperty: u32 = 11;

/// `owl:inverseOf`
pub const inverseOf: u32 = 12;

/// `owl:Thing`
pub const Thing: u32 = 13;

/// `owl:maxQualifiedCardinality`
pub const maxQualifiedCardinality: u32 = 14;

/// `owl:someValuesFrom`
pub const someValuesFrom: u32 = 15;

/// `owl:equivalentClass`
pub const equivalentClass: u32 = 16;

/// `owl:intersectionOf`
pub const intersectionOf: u32 = 17;

/// `owl:members`
pub const members: u32 = 18;

/// `owl:equivalentProperty`
pub const equivalentProperty: u32 = 19;

/// `owl:onProperty`
pub const onProperty: u32 = 20;

/// `owl:propertyChainAxiom`
pub const propertyChainAxiom: u32 = 21;

/// `owl:disjointWith`
pub const disjointWith: u32 = 22;

/// `owl:propertyDisjointWith`
pub const propertyDisjointWith: u32 = 23;

/// `owl:unionOf`
pub const unionOf: u32 = 24;

/// `owl:hasKey`
pub const hasKey: u32 = 25;

/// `owl:allValuesFrom`
pub const allValuesFrom: u32 = 26;

/// `owl:complementOf`
pub const complementOf: u32 = 27;

/// `owl:onClass`
pub const onClass: u32 = 28;

/// `owl:distinctMembers`
pub const distinctMembers: u32 = 29;

/// `owl:FunctionalProperty`
pub const FunctionalProperty: u32 = 30;

/// `owl:NamedIndividual`
pub const NamedIndividual: u32 = 31;

/// `owl:ObjectProperty`
pub const ObjectProperty: u32 = 32;

/// `owl:Class`
pub const Class: u32 = 33;

/// `owl:AllDisjointClasses`
pub const AllDisjointClasses: u32 = 34;

/// `owl:Restriction`
pub const Restriction: u32 = 35;

/// `owl:DatatypeProperty`
pub const DatatypeProperty: u32 = 36;

/// `owl:Ontology`
pub const Ontology: u32 = 37;

/// `owl:AsymmetricProperty`
pub const AsymmetricProperty: u32 = 38;

/// `owl:SymmetricProperty`
pub const SymmetricProperty: u32 = 39;

/// `owl:IrreflexiveProperty`
pub const IrreflexiveProperty: u32 = 40;

/// `owl:AllDifferent`
pub const AllDIfferent: u32 = 41;

/// `owl:InverseFunctionalProperty`
pub const InverseFunctionalProperty: u32 = 42;

/// `owl:sameAs`
pub const sameAs: u32 = 43;

/// `owl:hasValue`
pub const hasValue: u32 = 44;

/// `owl:Nothing`
pub const Nothing: u32 = 45;

/// `owl:oneOf`. Its identifier is 46: one above `MAX_CONST`, and so the
/// first identifier that a dictionary following `MAX_CONST` hands out. The
/// two clash: under OWL 2 RL a triple whose predicate is 46 is read as
/// `oneOf`, whatever the dictionary meant by it. A dictionary that feeds
/// the OWL 2 RL profile must start above 46.
pub const oneOf: u32 = 46;

} // verus!
