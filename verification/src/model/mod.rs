pub mod attention;
pub mod common;
pub mod embedding;
pub mod gradients;
pub mod layernorm;
pub mod linear;
pub mod positional;
pub mod transformer;
