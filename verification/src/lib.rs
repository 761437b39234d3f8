//! An incremental RDF reasoner: it keeps the set of triples entailed by a
//! terminology box and an assertion box under the RDFS, RDFS++ or OWL 2 RL
//! rules, and reports how that set changes with every batch of updates.
//!
//! Triples are three identifiers; the vocabulary of RDF, RDFS and OWL has
//! fixed identifiers (`model`). A profile is a program of Horn clauses over
//! triples, and what it entails is the least model of that program over the
//! two boxes (`inference`, `materialization`). Updates carry signed
//! multiplicities; a triple is supported while its multiplicity is above
//! zero, and every batch is answered with the triples that came into the
//! closure and those that left it (`delta`, `reason`). The loop of a worker
//! around the reasoner is a state machine whose actions the caller performs
//! (`driver`). `parser` reads the text format of encoded triples, `ui` holds
//! the state of the terminal front end, and `entrypoint` chooses the profile.

pub mod collection;
pub mod delta;
pub mod driver;
pub mod entrypoint;
pub mod inference;
pub mod materialization;
pub mod model;
pub mod parser;
pub mod reason;
pub mod ui;
