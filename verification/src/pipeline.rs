pub mod observer;
pub mod converter;
