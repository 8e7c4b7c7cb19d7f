use vstd::prelude::*;

pub mod belief_prop;
pub mod belief_state;
pub mod bocpd;
pub mod compound_poisson;
pub mod confidence_viz;
pub mod ctw;
pub mod evt;
pub mod explain_api;
pub mod flip_conditions;
pub mod galaxy_brain;
pub mod graph_smoothing;
pub mod hawkes;
pub mod hazard;
pub mod hsmm;
pub mod imm;
pub mod impact;
pub mod kl_surprisal;
pub mod ledger;
pub mod text;

verus! {

} // verus!
