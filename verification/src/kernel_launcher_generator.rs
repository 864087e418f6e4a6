//! Kernel launcher generation.
//!
//! This module generates launcher functions for GPU kernel entry points with support for
//! direct invocation via `IntoDeviceOp` arguments. Together the generated helpers
//!
//! 1. compile the kernel (with caching),
//! 2. infer generic parameters from input types,
//! 3. handle tensor partitioning and grid inference,
//! 4. launch the kernel as a device operation, and
//! 5. return results as device operations.
//!
//! Kernel parameters are transformed for the launcher:
//!
//! - `&mut Tensor<T, S>` → `impl KernelOutput<T>`
//! - `&Tensor<T, S>` → `impl KernelInput<T>`
//! - `*mut T` → `DevicePointer<T>` (unsafe only)
//! - Scalars remain unchanged
//!
//! Both `&Tensor` and `&mut Tensor` params return the same type that was passed in via
//! `KernelInput::recover` / `KernelOutput::recover`.
//!
//! Generic parameters are inferred from input tensors: type parameters (`T`) from element
//! types, const scalars (`const N: i32`) from shapes, const arrays (`const S: [i32; N]`) from
//! partition shapes. Launch grid dimensions are inferred from partitioned tensors.
pub mod combinators;
pub mod generics;
pub mod inference_laws;
pub mod launcher;
pub mod laws;
pub mod param_laws;
pub mod tensors;

pub use combinators::{join_as_cons_tuple, to_tuple_string, zip_and_then_flatten, zip_cons};
pub use generics::{infer_shape_params_from_tensor_type, RequiredGenerics};
pub use launcher::{generate_kernel_launcher, generate_launcher_arg_types, KernelInputInfo};
