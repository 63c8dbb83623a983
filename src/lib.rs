//! Organic compounds as graphs of bonded atom groups, with a builder for
//! branched carbon skeletons and condensed-formula rendering.
pub mod element;
pub mod atom;
pub mod particle;
pub mod compound;
pub mod compounds;
pub mod builder;
pub mod counter;
