pub mod encoder;
pub mod fact;
pub mod factorial;
pub mod fibonacci;
pub mod phone_numbers;
mod text;
