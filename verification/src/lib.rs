//! Loading of the weights of a speech model from safetensors checkpoints.
//!
//! [`files`] chooses the checkpoint files of a directory, and [`load`] turns
//! what was read of them into weights, parted by the component of the model
//! that they belong to. Floating-point numbers are held as bit patterns.

pub mod decode;
pub mod dequantize;
pub mod error;
pub mod files;
pub mod float_bits;
pub mod load;
pub mod packing;
pub mod quantization;
pub mod route;
pub mod safetensors_file;
pub mod shard;
pub mod tensor;
pub mod text;
pub mod weight_map;
