pub mod modes;
pub mod quantize;
pub mod range;
