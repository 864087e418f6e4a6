//! What holds of launchers as a whole.
use super::combinators::zip_stmts;
use super::generics::{
    go_on, infer_arg, infer_args, infer_elem, infer_elems, RequiredGenericsS, SupportedGenericType,
};
use super::launcher::{
    infer_scalar, input_count, input_elem, input_info, input_param, launch_arg, launch_args,
    launcher_of, member_types, numbered, output_count, output_elem, output_param, param_names,
    param_step, params_code, recovered_fields, ArgClassS, KernelEntryS, LauncherNamesS, ParamCodeS,
};
use crate::ast::{ArgS, ExprS, StmtS, TypeS};
use crate::kernel_params::{KernelParamS, KernelParamTypeS};
use crate::text::{filled, Text};
use vstd::prelude::*;

verus! {

// ---------------------------------------------------------------------------
// Zips
// ---------------------------------------------------------------------------

/// Zipping takes one statement for each input.
pub proof fn law_one_statement_per_input(inputs: Seq<Text>, var: Text, wrap: bool, k: nat)
    requires
        k <= inputs.len(),
    ensures
        zip_stmts(inputs, var, wrap, k).len() == k,
    decreases k,
{
    if k > 0 {
        law_one_statement_per_input(inputs, var, wrap, (k - 1) as nat);
    }
}

// ---------------------------------------------------------------------------
// Inference
// ---------------------------------------------------------------------------

/// Inference went on from `s` to `r`: the parameters are the same, what was inferred stays
/// inferred, and what the launcher required it still requires.
pub open spec fn extends(r: RequiredGenericsS, s: RequiredGenericsS) -> bool {
    &&& r.names == s.names
    &&& r.types == s.types
    &&& forall|name: Text| !(#[trigger] s.is_required(name)) ==> !r.is_required(name)
    &&& forall|name: Text|
        #[trigger] s.launcher_type_params.contains(name) ==> r.launcher_type_params.contains(name)
}

proof fn lemma_infer_extends(s: RequiredGenericsS, name: Text, expr: Text)
    ensures
        extends(s.infer(name, expr), s),
        !s.infer(name, expr).is_required(name),
{
}

proof fn lemma_require_extends(s: RequiredGenericsS, name: Text)
    ensures
        extends(s.require_type(name), s),
        s.require_type(name).launcher_type_params.contains(name),
{
    let r = s.require_type(name);
    assert forall|x: Text| #[trigger]
        s.launcher_type_params.contains(x) implies r.launcher_type_params.contains(x) by {
        let i = choose|i: int|
            0 <= i < s.launcher_type_params.len() && s.launcher_type_params[i] == x;
        assert(r.launcher_type_params[i] == x);
    }
    assert(r.launcher_type_params.last() == name);
}

pub proof fn lemma_extends_trans(a: RequiredGenericsS, b: RequiredGenericsS, c: RequiredGenericsS)
    requires
        extends(a, b),
        extends(b, c),
    ensures
        extends(a, c),
{
}

proof fn lemma_elems_extend(
    s: RequiredGenericsS,
    elems: Seq<ExprS>,
    var: Text,
    mutable: bool,
    i: nat,
)
    ensures
        extends(infer_elems(s, elems, var, mutable, i).generics, s),
    decreases elems.len() - i,
{
    if i < elems.len() {
        let r = infer_elem(s, elems[i as int], i, var, mutable);
        assert(extends(r.generics, s));
        if r.error is None {
            lemma_elems_extend(r.generics, elems, var, mutable, i + 1);
            lemma_extends_trans(
                infer_elems(r.generics, elems, var, mutable, i + 1).generics,
                r.generics,
                s,
            );
        }
    }
}

proof fn lemma_arg_extends(s: RequiredGenericsS, a: ArgS, var: Text, mutable: bool)
    ensures
        extends(infer_arg(s, a, var, mutable).generics, s),
{
    match a {
        ArgS::Type(TypeS::Path(p)) => {
            let name = p.segments.last().ident;
            lemma_require_extends(s, name);
            let t = s.require_type(name);
            lemma_infer_extends(t, name, super::generics::dtype_expr(var));
            lemma_extends_trans(t.infer(name, super::generics::dtype_expr(var)), t, s);
        },
        ArgS::Const(ExprS::Block(stmts)) => {
            if stmts.len() == 1 {
                match stmts[0] {
                    StmtS::Expr { expr: ExprS::Array(elems), .. } => {
                        lemma_elems_extend(s, elems, var, mutable, 0);
                    },
                    _ => {},
                }
            }
        },
        _ => {},
    }
}

/// What has been inferred from one tensor is never lost over the next: inference only adds.
pub proof fn law_inference_only_adds(
    s: RequiredGenericsS,
    args: Seq<ArgS>,
    var: Text,
    mutable: bool,
    i: nat,
)
    ensures
        extends(infer_args(s, args, var, mutable, i).generics, s),
    decreases args.len() - i,
{
    if i < args.len() {
        let r = infer_arg(s, args[i as int], var, mutable);
        lemma_arg_extends(s, args[i as int], var, mutable);
        if r.error is None {
            law_inference_only_adds(r.generics, args, var, mutable, i + 1);
            lemma_extends_trans(
                infer_args(r.generics, args, var, mutable, i + 1).generics,
                r.generics,
                s,
            );
        }
    }
}

/// The element type of a tensor, where it is a type parameter, is inferred from it and becomes a
/// type parameter of the launcher.
pub proof fn law_element_type_is_inferred(
    s: RequiredGenericsS,
    args: Seq<ArgS>,
    var: Text,
    mutable: bool,
)
    requires
        args.len() > 0,
        args[0] is Type,
        args[0]->Type_0 is Path,
        s.get_ty(args[0]->Type_0->Path_0.segments.last().ident) == SupportedGenericType::TypeParam,
    ensures
        ({
            let name = args[0]->Type_0->Path_0.segments.last().ident;
            let r = infer_args(s, args, var, mutable, 0).generics;
            &&& !r.is_required(name)
            &&& r.launcher_type_params.contains(name)
        }),
{
    let name = args[0]->Type_0->Path_0.segments.last().ident;
    let t = s.require_type(name);
    let u = t.infer(name, super::generics::dtype_expr(var));
    lemma_require_extends(s, name);
    lemma_infer_extends(t, name, super::generics::dtype_expr(var));
    assert(infer_arg(s, args[0], var, mutable) == go_on(u));
    law_inference_only_adds(u, args, var, mutable, 1);
    assert(!u.is_required(name));
    assert(u.launcher_type_params.contains(name));
}

/// The generic arguments are computed exactly if every parameter has been inferred.
pub proof fn law_all_inferred_or_panic(s: RequiredGenericsS, k: nat)
    requires
        k <= s.names.len(),
    ensures
        s.inferred(k) is Ok <==> forall|i: int|
            0 <= i < k ==> !s.is_required(#[trigger] s.names[i]),
    decreases k,
{
    if k > 0 {
        law_all_inferred_or_panic(s, (k - 1) as nat);
    }
}

// ---------------------------------------------------------------------------
// Metadata
// ---------------------------------------------------------------------------

proof fn lemma_filled_inputs(codes: Seq<ParamCodeS>, k: nat)
    requires
        k <= codes.len(),
    ensures
        ({
            let args = launch_args(codes);
            let names = Seq::new(args.len(), |i: int| input_param(args[i]));
            let elems = Seq::new(args.len(), |i: int| input_elem(args[i]));
            &&& filled(names, k).len() == input_count(codes, k)
            &&& filled(elems, k).len() == input_count(codes, k)
            &&& forall|i: int|
                0 <= i < k && (#[trigger] codes[i]).class is Input ==> {
                    let n = input_count(codes, i as nat) as int;
                    &&& n < input_count(codes, k)
                    &&& filled(names, k)[n] == numbered("_K"@, n as nat)
                    &&& filled(elems, k)[n] == codes[i].class->Input_elem
                }
        }),
    decreases k,
{
    if k > 0 {
        lemma_filled_inputs(codes, (k - 1) as nat);
        let args = launch_args(codes);
        let names = Seq::new(args.len(), |i: int| input_param(args[i]));
        let elems = Seq::new(args.len(), |i: int| input_elem(args[i]));
        assert(args[k - 1] == launch_arg(codes, k - 1));
    }
}

proof fn lemma_filled_outputs(codes: Seq<ParamCodeS>, k: nat)
    requires
        k <= codes.len(),
    ensures
        ({
            let args = launch_args(codes);
            let names = Seq::new(args.len(), |i: int| output_param(args[i]));
            let elems = Seq::new(args.len(), |i: int| output_elem(args[i]));
            &&& filled(names, k).len() == output_count(codes, k)
            &&& filled(elems, k).len() == output_count(codes, k)
            &&& forall|i: int|
                0 <= i < k && (#[trigger] codes[i]).class is Output ==> {
                    let n = output_count(codes, i as nat) as int;
                    &&& n < output_count(codes, k)
                    &&& filled(names, k)[n] == numbered("_P"@, n as nat)
                    &&& filled(elems, k)[n] == codes[i].class->Output_elem
                }
        }),
    decreases k,
{
    if k > 0 {
        lemma_filled_outputs(codes, (k - 1) as nat);
        let args = launch_args(codes);
        let names = Seq::new(args.len(), |i: int| output_param(args[i]));
        let elems = Seq::new(args.len(), |i: int| output_elem(args[i]));
        assert(args[k - 1] == launch_arg(codes, k - 1));
    }
}

/// The metadata is aligned: every parameter that is a tensor to read has an index into the
/// KernelInput lists, where its type parameter and its element type stand; every parameter that
/// is a tensor to write one into the KernelOutput lists; and no parameter has both.
pub proof fn law_metadata_is_aligned(codes: Seq<ParamCodeS>, names: Seq<Text>, i: int)
    requires
        0 <= i < codes.len(),
    ensures
        ({
            let info = input_info(launch_args(codes), names);
            &&& info.param_kernel_input_idx.len() == codes.len()
            &&& info.param_kernel_output_idx.len() == codes.len()
            &&& info.type_param_names.len() == info.element_type_names.len()
            &&& info.ko_type_param_names.len() == info.ko_element_type_names.len()
            &&& match codes[i].class {
                ArgClassS::Input { elem } => info.param_kernel_input_idx[i] matches Some(k) && {
                    &&& info.param_kernel_output_idx[i] is None
                    &&& k < info.type_param_names.len()
                    &&& info.type_param_names[k as int] == numbered("_K"@, k)
                    &&& info.element_type_names[k as int] == elem
                },
                ArgClassS::Output { elem } => info.param_kernel_output_idx[i] matches Some(k) && {
                    &&& info.param_kernel_input_idx[i] is None
                    &&& k < info.ko_type_param_names.len()
                    &&& info.ko_type_param_names[k as int] == numbered("_P"@, k)
                    &&& info.ko_element_type_names[k as int] == elem
                },
                ArgClassS::Plain { .. } => info.param_kernel_input_idx[i] is None
                    && info.param_kernel_output_idx[i] is None,
            }
        }),
{
    lemma_filled_inputs(codes, codes.len());
    lemma_filled_outputs(codes, codes.len());
    assert(launch_args(codes)[i] == launch_arg(codes, i));
}

/// A launcher has code for every parameter, stores and returns as many values as the kernel has
/// parameters, and keeps the kernel's generic parameters.
pub proof fn law_launcher_covers_parameters(entry: KernelEntryS, names: LauncherNamesS)
    requires
        launcher_of(entry, names) is Ok,
    ensures
        ({
            let l = launcher_of(entry, names)->Ok_0;
            &&& l.codes.len() == entry.params.len()
            &&& l.params == param_names(entry.params)
            &&& member_types(l.args(), "Stored"@).len() == entry.params.len()
            &&& recovered_fields(l.args(), l.params).len() == entry.params.len()
            &&& extends(l.generics, entry.generics)
        }),
{
    lemma_params_code(entry.generics, entry.params, entry.is_unsafe, seq![], 0);
}

pub proof fn lemma_params_code(
    s: RequiredGenericsS,
    params: Seq<KernelParamS>,
    is_unsafe: bool,
    done: Seq<ParamCodeS>,
    i: nat,
)
    requires
        done.len() == i,
        i <= params.len(),
    ensures
        params_code(s, params, is_unsafe, done, i) matches Ok(c) ==> c.codes.len() == params.len()
            && extends(c.generics, s),
    decreases params.len() - i,
{
    if i < params.len() {
        let p = params[i as int];
        let step = param_step(s, i, p, is_unsafe);
        lemma_step_extends(s, i, p, is_unsafe);
        if step.code is Ok {
            let next = done.push(step.code->Ok_0);
            lemma_params_code(step.generics, params, is_unsafe, next, i + 1);
            let rest = params_code(step.generics, params, is_unsafe, next, i + 1);
            if rest is Ok {
                lemma_extends_trans(rest->Ok_0.generics, step.generics, s);
            }
        }
    }
}

pub proof fn lemma_step_extends(s: RequiredGenericsS, i: nat, p: KernelParamS, is_unsafe: bool)
    ensures
        extends(param_step(s, i, p, is_unsafe).generics, s),
{
    match p.ty {
        KernelParamTypeS::Reference { source, mutable, ident, generic_args } => {
            law_inference_only_adds(s, generic_args, p.name, mutable, 0);
        },
        KernelParamTypeS::Path { name, .. } => {
            lemma_scalar_extends(s, name);
        },
        KernelParamTypeS::Ptr { target, .. } => {
            if target is Some {
                lemma_scalar_extends(s, target->Some_0.1);
            }
        },
        KernelParamTypeS::Other { .. } => {},
    }
}

proof fn lemma_scalar_extends(s: RequiredGenericsS, name: Text)
    ensures
        extends(infer_scalar(s, name), s),
{
    let expr = "vec!["@ + name + "::DTYPE.as_str().to_string()]"@;
    let t = s.require_type(name);
    lemma_require_extends(s, name);
    lemma_infer_extends(t, name, expr);
    lemma_extends_trans(t.infer(name, expr), t, s);
}

/// The code of a parameter has what its type calls for, and nothing else.
pub open spec fn role_fits(code: ParamCodeS, p: KernelParamS, is_unsafe: bool) -> bool {
    let is_tensor = p.ty is Reference;
    &&& code.stride is Some <==> is_tensor
    &&& code.spec is Some <==> is_tensor
    &&& code.validator is Some <==> is_tensor
    &&& match p.ty {
        KernelParamTypeS::Reference { mutable, .. } => {
            &&& code.class is Output <==> mutable
            &&& code.class is Input <==> !mutable
            &&& code.grid is Some <==> mutable
            &&& code.scalar_hint is None
        },
        KernelParamTypeS::Path { name, is_integer, .. } => {
            &&& code.class == ArgClassS::Plain { ty: name }
            &&& code.grid is None
            &&& code.scalar_hint is Some <==> is_integer
        },
        KernelParamTypeS::Ptr { target, .. } => {
            &&& is_unsafe
            &&& target matches Some((mutable, name)) && mutable && code.class
                == ArgClassS::Plain { ty: "DevicePointer<"@ + name + ">"@ }
            &&& code.grid is None
            &&& code.scalar_hint is None
        },
        KernelParamTypeS::Other { .. } => false,
    }
}

/// Only a `&mut Tensor` gives the launch grid and is an output; only a `&Tensor` is an input;
/// only tensors have strides, a specialization and a shape to check; only integer scalars have a
/// divisibility hint; scalars keep their type; and a pointer is a `*mut` in an unsafe kernel.
pub proof fn law_roles_follow_types(entry: KernelEntryS, names: LauncherNamesS, i: int)
    requires
        launcher_of(entry, names) is Ok,
        0 <= i < entry.params.len(),
    ensures
        role_fits(launcher_of(entry, names)->Ok_0.codes[i], entry.params[i], entry.is_unsafe),
{
    lemma_params_roles(entry.generics, entry.params, entry.is_unsafe, seq![], 0);
}

proof fn lemma_params_roles(
    s: RequiredGenericsS,
    params: Seq<KernelParamS>,
    is_unsafe: bool,
    done: Seq<ParamCodeS>,
    i: nat,
)
    requires
        done.len() == i,
        i <= params.len(),
        forall|k: int| 0 <= k < i ==> role_fits(#[trigger] done[k], params[k], is_unsafe),
    ensures
        params_code(s, params, is_unsafe, done, i) matches Ok(c) ==> forall|k: int|
            0 <= k < params.len() ==> role_fits(#[trigger] c.codes[k], params[k], is_unsafe),
    decreases params.len() - i,
{
    if i < params.len() {
        let step = param_step(s, i, params[i as int], is_unsafe);
        if step.code is Ok {
            let next = done.push(step.code->Ok_0);
            assert forall|k: int| 0 <= k < i + 1 implies role_fits(
                #[trigger] next[k],
                params[k],
                is_unsafe,
            ) by {
                if k < i {
                    assert(next[k] == done[k]);
                }
            }
            lemma_params_roles(step.generics, params, is_unsafe, next, i + 1);
        }
    }
}

} // verus!
