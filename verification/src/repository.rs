pub mod metrics;
