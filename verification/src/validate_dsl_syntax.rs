//! DSL syntax validation for GPU kernel entry points.
//!
//! Kernel entry points may only use the following parameter types:
//!
//! - scalars: primitive types like `i32`, `f32`, etc.
//! - `&Tensor<T, S>`: immutable tensor references (read-only access)
//! - `&mut Tensor<T, S>`: mutable tensor references (partitioned tensors)
//! - `*mut T`: raw pointers (for unsafe kernels only)
use crate::error::{error_at, Error, ErrorS, SpannedError};
use crate::items::views;
use crate::kernel_params::{KernelParam, KernelParamS, KernelParamType, KernelParamTypeS};
use crate::text::{cat2, cat3, same, Text};
use vstd::prelude::*;

verus! {

pub open spec fn moved_tensor_text() -> Text {
    "Tensors cannot be moved into kernel functions. Use &mut Tensor for partitioned tensors or &Tensor for tensor references."@
}

/// What is wrong with a parameter type, if anything:
/// 1. a reference must be to a `Tensor`;
/// 2. a `Tensor` cannot be passed by value;
/// 3. a pointer needs an unsafe kernel, must be of a supported kind, and must be `*mut`;
/// 4. nothing but references, named types and pointers is supported.
pub open spec fn param_fault(t: KernelParamTypeS, is_unsafe: bool) -> Option<ErrorS> {
    match t {
        KernelParamTypeS::Reference { source, ident, .. } => match ident {
            None => Some(error_at(source, "Not a supported parameter type."@)),
            Some(name) => if name != "Tensor"@ {
                Some(
                    error_at(
                        source,
                        "References to "@ + name + " as parameters are not supported."@,
                    ),
                )
            } else {
                None
            },
        },
        KernelParamTypeS::Path { source, name, .. } => if name == "Tensor"@ {
            Some(error_at(source, moved_tensor_text()))
        } else {
            None
        },
        KernelParamTypeS::Ptr { source, target } => if !is_unsafe {
            Some(error_at(source, "Pointers can only be used in unsafe kernel entry points."@))
        } else {
            match target {
                None => Some(error_at(source, source + " is not a supported pointer type."@)),
                Some((mutable, _)) => if !mutable {
                    Some(error_at(source, "Pointers must be * mut."@))
                } else {
                    None
                },
            }
        },
        KernelParamTypeS::Other { source } => Some(
            error_at(source, source + " is not a supported parameter type."@),
        ),
    }
}

/// The fault of the first faulty parameter from index `i` on.
pub open spec fn first_fault(params: Seq<KernelParamS>, is_unsafe: bool, i: nat) -> Option<ErrorS>
    decreases params.len() - i,
{
    if i >= params.len() {
        None
    } else {
        match param_fault(params[i as int].ty, is_unsafe) {
            Some(e) => Some(e),
            None => first_fault(params, is_unsafe, i + 1),
        }
    }
}

/// A signature is accepted exactly if every parameter is.
pub proof fn law_accepted_iff_no_fault(params: Seq<KernelParamS>, is_unsafe: bool)
    ensures
        first_fault(params, is_unsafe, 0) is None <==> forall|i: int|
            0 <= i < params.len() ==> param_fault((#[trigger] params[i]).ty, is_unsafe) is None,
{
    lemma_first_fault(params, is_unsafe, 0);
}

/// The fault of a signature is that of its first parameter that has one.
pub proof fn law_first_fault_is_reported(params: Seq<KernelParamS>, is_unsafe: bool, i: int)
    requires
        0 <= i < params.len(),
        forall|j: int| 0 <= j < i ==> param_fault((#[trigger] params[j]).ty, is_unsafe) is None,
        param_fault(params[i].ty, is_unsafe) is Some,
    ensures
        first_fault(params, is_unsafe, 0) == param_fault(params[i].ty, is_unsafe),
{
    lemma_fault_at(params, is_unsafe, 0, i);
}

proof fn lemma_fault_at(params: Seq<KernelParamS>, is_unsafe: bool, k: nat, i: int)
    requires
        k <= i < params.len(),
        forall|j: int| 0 <= j < i ==> param_fault((#[trigger] params[j]).ty, is_unsafe) is None,
        param_fault(params[i].ty, is_unsafe) is Some,
    ensures
        first_fault(params, is_unsafe, k) == param_fault(params[i].ty, is_unsafe),
    decreases params.len() - k,
{
    if k < i {
        lemma_fault_at(params, is_unsafe, k + 1, i);
    }
}

/// A parameter is accepted exactly if it is a reference to a `Tensor`, a value of another type
/// than `Tensor`, or a `*mut` of a supported form in an unsafe kernel.
pub proof fn law_accepted_parameters(t: KernelParamTypeS, is_unsafe: bool)
    ensures
        param_fault(t, is_unsafe) is None <==> match t {
            KernelParamTypeS::Reference { ident, .. } => ident == Some("Tensor"@),
            KernelParamTypeS::Path { name, .. } => name != "Tensor"@,
            KernelParamTypeS::Ptr { target, .. } => is_unsafe && target is Some
                && target->Some_0.0,
            KernelParamTypeS::Other { .. } => false,
        },
        param_fault(t, is_unsafe) matches Some(e) ==> e.at == match t {
            KernelParamTypeS::Reference { source, .. } => source,
            KernelParamTypeS::Path { source, .. } => source,
            KernelParamTypeS::Ptr { source, .. } => source,
            KernelParamTypeS::Other { source } => source,
        },
{
}

proof fn lemma_first_fault(params: Seq<KernelParamS>, is_unsafe: bool, k: nat)
    ensures
        first_fault(params, is_unsafe, k) is None <==> forall|i: int|
            k <= i < params.len() ==> param_fault((#[trigger] params[i]).ty, is_unsafe) is None,
    decreases params.len() - k,
{
    if k < params.len() {
        lemma_first_fault(params, is_unsafe, k + 1);
        if first_fault(params, is_unsafe, k) is None {
            assert(param_fault(params[k as int].ty, is_unsafe) is None);
        }
    }
}

fn fault_of(t: &KernelParamType, is_unsafe: bool) -> (r: Option<Error>)
    ensures
        match r {
            Some(e) => param_fault(t@, is_unsafe) == Some(e@),
            None => param_fault(t@, is_unsafe) is None,
        },
{
    match t {
        KernelParamType::Reference { source, mutable: _, ident, generic_args: _ } => match ident {
            None => Some(source.error("Not a supported parameter type.")),
            Some(name) => if !same(name.as_str(), "Tensor") {
                let m = cat3("References to ", name.as_str(), " as parameters are not supported.");
                Some(source.error(m.as_str()))
            } else {
                None
            },
        },
        KernelParamType::Path { source, name, is_integer: _ } => if same(
            name.as_str(),
            "Tensor",
        ) {
            Some(
                source.error(
                    "Tensors cannot be moved into kernel functions. Use &mut Tensor for partitioned tensors or &Tensor for tensor references.",
                ),
            )
        } else {
            None
        },
        KernelParamType::Ptr { source, target } => {
            if !is_unsafe {
                return Some(
                    source.error("Pointers can only be used in unsafe kernel entry points."),
                );
            }
            match target {
                None => {
                    let m = cat2(source.as_str(), " is not a supported pointer type.");
                    Some(source.error(m.as_str()))
                },
                Some(t) => if !t.0 {
                    Some(source.error("Pointers must be * mut."))
                } else {
                    None
                },
            }
        },
        KernelParamType::Other { source } => {
            let m = cat2(source.as_str(), " is not a supported parameter type.");
            Some(source.error(m.as_str()))
        },
    }
}

/// Validates that kernel entry point parameters follow DSL restrictions: scalars, `&Tensor`
/// and `&mut Tensor`, and `*mut T` in an unsafe kernel. The error is about the first parameter
/// that does not.
pub fn validate_entry_point_parameters(params: &Vec<KernelParam>, is_unsafe: bool) -> (r: Result<(), Error>)
    ensures
        match first_fault(views(params@), is_unsafe, 0) {
            None => r is Ok,
            Some(x) => r matches Err(e) && e@ == x,
        },
{
    let mut i: usize = 0;
    while i < params.len()
        invariant
            i <= params@.len(),
            first_fault(views(params@), is_unsafe, 0) == first_fault(views(params@), is_unsafe, i as nat),
        decreases params@.len() - i,
    {
        if let Some(e) = fault_of(&params[i].ty, is_unsafe) {
            return Err(e);
        }
        i = i + 1;
    }
    Ok(())
}

} // verus!
