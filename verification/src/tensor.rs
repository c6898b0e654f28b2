pub mod quantized_array;
pub mod shape;
