//! The core of a federated page query: a canonical model of request parameters, the
//! criteria and parameterized query fragments derived from them, the choice of
//! backends to run, and the set algebra that merges their results.
use vstd::prelude::*;

pub mod combination;
pub mod form_parameters;
pub mod pagelist;
pub mod platform;
pub mod sql;
pub mod text;

verus! {

} // verus!
