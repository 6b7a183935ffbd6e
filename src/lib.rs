//! Measures the size of a configured set of directories at a fixed interval and
//! keeps the last measured size of each in a labeled gauge.
pub mod config;
pub mod gauges;
pub mod sampler;
