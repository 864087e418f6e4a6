//! Shadow-dispatch synthesis for rank-polymorphic ops.
//!
//! For a rank-polymorphic op like
//!
//! ```text
//! pub fn addf<E: ElementType, const S: [i32; N], R: rounding::Mode, F: ftz::Mode>(
//!     lhs: Tile<E, S>, rhs: Tile<E, S>, rounding: R, ftz: F,
//! ) -> Tile<E, S>
//! ```
//!
//! this module synthesizes a *shadow trait* (CGA-erased and rank-polymorphic), one
//! rank-instance impl per rank, and a free-fn wrapper, so that rustc's normal trait
//! resolution dispatches each call site to the correct rank-instance impl.
//!
//! - **Same shape.** The return type is that of the first shape-bearing argument: the trait
//!   method returns `Self`. Examples: `addf`, `subf`, `maxf`, `fma`, unary math.
//! - **Different shape, bound.** The return type differs from Self but every generic in the
//!   return is also referenced by an argument: the trait has an associated type `Out`.
//!   Examples: `reshape`, `broadcast`, `constant`, comparisons.
//! - **Different shape, free.** The return type contains a generic param (type param or CGA)
//!   not present in any argument: `Out` is a generic of the trait and the caller ascribes
//!   the return type. Examples: `permute`, `reduce_sum`, `bitcast`, `exti`.
//!
//! Rank-linked multi-CGA ops (e.g. `broadcast` where `S` and `R` share length `N`) emit one
//! impl per shared rank. Independent CGAs (e.g. `reshape`'s rank-N source and rank-M target)
//! emit a Cartesian product.
//!
//! [`desugar_variadic_trait_decl`] and [`desugar_variadic_trait_impl`] do the same for traits
//! like `BroadcastScalar` and their impls.
pub mod dispatch_laws;
pub mod emit;
pub mod laws;
pub mod lifetimes;
pub mod op_laws;
pub mod op_spec;
pub mod ranks;
pub mod type_laws;
pub mod types;
pub mod variadic_laws;
pub mod variadic_traits;

pub use crate::text::{contains_whole_word, is_word_byte, pascal_case};
pub use emit::emit_shadow_dispatch;
pub use ranks::MAX_RANK;
pub use variadic_traits::{desugar_variadic_trait_decl, desugar_variadic_trait_impl};
