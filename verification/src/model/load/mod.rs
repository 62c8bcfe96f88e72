//! Loading a model: settings, names, tensors and buffers.

pub mod buffers;
pub mod distributed;
pub mod layer;
pub mod names;
pub mod paths;
pub mod plan;
pub mod settings;
pub mod usage;
pub mod wants;
