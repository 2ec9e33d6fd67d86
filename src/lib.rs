//! A derivative-free local minimiser: the Nelder–Mead simplex method, written
//! as a verified state machine. The caller owns the objective and the vector
//! arithmetic; the machine owns the simplex, its ordering and every decision.
pub mod score;
pub mod simplex;
