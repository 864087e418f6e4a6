//! Rank-instance instantiation of CGA-bearing items.
//!
//! Items that use a const-generic-array generic — `const X: [i32; N]` — are
//! rank-polymorphic at the source level but Rust can't compile them as such (the array
//! length `N` is variable across instantiations). This module turns each such item into one
//! concrete copy per rank instance, with `X` replaced by individual scalar consts
//! `X_0, X_1, …, X_{R-1}` and every type whose generic args reference the CGA suffixed
//! accordingly.
//!
//! - [`variadic_struct`] / [`variadic_impl`] produce the multi-rank specializations from a
//!   single source item.
//! - [`instantiate_struct_for_rank`] / [`instantiate_function_for_rank`] /
//!   [`instantiate_impl_for_rank`] apply the rank-instance substitution to a single item
//!   already constrained to one rank (e.g. a kernel with `const S: [i32; 1]`).
//!
//! Each path builds a [`RankBindings`] (the active CGA → length mapping for the rank being
//! emitted) and rewrites the item with a [`RankInstantiator`].
//!
//! All of this is purely structural: a path is "rank-polymorphic" because it has CGA args,
//! full stop.
pub mod bindings;
pub mod bodies;
pub mod body_laws;
pub mod expansion_laws;
pub mod instantiator;
pub mod item_laws;
pub mod laws;
pub mod length_laws;
pub mod lengths;
pub mod signatures;
pub mod type_laws;
pub mod types;
pub mod variadic;

pub use bindings::{
    cgas_from_generics, concrete_name, rank_suffix, CGAParameter, RankBindings, SingleMetaList,
    VarCGAParameter,
};
pub use instantiator::{
    instantiate_function_for_rank, instantiate_impl_for_rank, instantiate_struct_for_rank,
    RankInstantiator,
};
pub use lengths::VariadicLengthItem;
pub use variadic::{variadic_impl, variadic_struct};
