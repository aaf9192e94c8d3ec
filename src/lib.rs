//! Decision logic of a pitched-blade thrust experiment: the trial-sweep
//! controller, the pair resolver and the pass of the blade over the particles.
pub mod blade;
pub mod pairs;
pub mod trial;
