pub mod minmax;
pub mod percentile;
