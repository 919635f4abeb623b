pub mod grouper;
pub mod pipeline;
pub mod record;
pub mod rng;
pub mod sampler;
