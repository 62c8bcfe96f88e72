//! Expert weights: where they are read from and which GPU they go to.

pub mod delivery;
pub mod distribute;
pub mod layer;
pub mod load;
pub mod names;
