pub mod types;
pub mod error;
pub mod config;
pub mod sampler;
pub mod decoder;
pub mod codecs;
pub mod kmeans;
pub mod metrics;
pub mod report;
pub mod color_theory;
pub mod pipeline;
