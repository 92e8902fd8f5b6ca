//! Exact, integer-valued parts of an electromagnetics calculator: the
//! combinatorics behind maximally flat impedance transformers, the event
//! schedule of a bounce diagram, the turn counts of an ideal transformer, and
//! the tags that classify designs, fields and waves.

pub mod constants;
pub mod faraday;
pub mod matching;
pub mod phase;
pub mod polarization;
pub mod scalar_field;
pub mod stub_tuning;
pub mod transient;
pub mod traveling;
pub mod vector_field;
