//! What holds of inferring generic parameters from the tensors of a kernel.
use super::generics::{
    dim_expr, infer_arg, infer_args, infer_elem, infer_elems, position, uninferred,
    RequiredGenericsS, SupportedGenericType,
};
use super::launcher::{
    infer_scalar, launcher_of, param_step, params_code, KernelEntryS, LauncherNamesS, ParamCodeS,
};
use super::laws::{
    extends, law_inference_only_adds, lemma_extends_trans, lemma_params_code, lemma_step_extends,
};
use crate::ast::{ArgS, ExprS, StmtS, TypeS};
use crate::kernel_params::{KernelParamS, KernelParamTypeS};
use crate::rank_instantiation::laws::law_decimal_is_injective;
use crate::rank_instantiation::types::lemma_decimal_is_number;
use crate::text::{decimal_text, Text};
use vstd::prelude::*;

verus! {

// ---------------------------------------------------------------------------
// Numbers in text
// ---------------------------------------------------------------------------

/// A number ends where its digits end: texts that start with different numbers differ, whatever
/// follows, if what follows does not start with a digit.
pub proof fn law_number_ends_with_its_digits(i: nat, p: Text, j: nat, q: Text)
    requires
        p.len() > 0 && !('0' <= p[0] <= '9'),
        q.len() > 0 && !('0' <= q[0] <= '9'),
        decimal_text(i) + p == decimal_text(j) + q,
    ensures
        i == j,
{
    let x = decimal_text(i);
    let y = decimal_text(j);
    lemma_decimal_is_number(i);
    lemma_decimal_is_number(j);
    let a = x + p;
    let b = y + q;
    assert(a[x.len() as int] == p[0]);
    assert(b[y.len() as int] == q[0]);
    if x.len() < y.len() {
        assert(b[x.len() as int] == y[x.len() as int]);
        assert(false);
    }
    if y.len() < x.len() {
        assert(a[y.len() as int] == x[y.len() as int]);
        assert(false);
    }
    assert(x =~= a.take(x.len() as int));
    assert(y =~= b.take(y.len() as int));
    law_decimal_is_injective(i, j);
}

// ---------------------------------------------------------------------------
// Dimensions
// ---------------------------------------------------------------------------

/// What is read for the shape of a tensor: the shape of a partition where the kernel writes to
/// it, and its own shape where it only reads it.
pub open spec fn shape_of(var: Text, mutable: bool) -> Text {
    if mutable {
        "KernelOutputStored::partition_shape_as_i32(&"@ + var + ")"@
    } else {
        var + ".shape()"@
    }
}

/// `text` reads dimension `i` of the shape of `var`, in a list of its own.
pub open spec fn reads_dim(text: Text, var: Text, mutable: bool, i: nat) -> bool {
    text == "vec!["@ + (shape_of(var, mutable) + "["@ + (decimal_text(i) + "].to_string()]"@))
}

proof fn lemma_reads_dim(var: Text, mutable: bool, i: nat)
    ensures
        reads_dim(dim_expr(var, mutable, i), var, mutable, i),
{
    let n = decimal_text(i);
    let want = "vec!["@ + (shape_of(var, mutable) + "["@ + (n + "].to_string()]"@));
    if mutable {
        reveal_strlit("vec![KernelOutputStored::partition_shape_as_i32(&");
        reveal_strlit("vec![");
        reveal_strlit("KernelOutputStored::partition_shape_as_i32(&");
        reveal_strlit(")[");
        reveal_strlit(")");
        reveal_strlit("[");
        assert("vec![KernelOutputStored::partition_shape_as_i32(&"@ =~= "vec!["@
            + "KernelOutputStored::partition_shape_as_i32(&"@);
        assert(")["@ =~= ")"@ + "["@);
        assert(dim_expr(var, mutable, i) =~= want);
    } else {
        reveal_strlit(".shape()[");
        reveal_strlit(".shape()");
        reveal_strlit("[");
        assert(".shape()["@ =~= ".shape()"@ + "["@);
        assert(dim_expr(var, mutable, i) =~= want);
    }
}

/// Different dimensions of a tensor are read by different expressions.
pub proof fn law_dimensions_are_read_apart(s: Text, t: Text, var: Text, mutable: bool, i: nat, j: nat)
    requires
        reads_dim(s, var, mutable, i),
        reads_dim(t, var, mutable, j),
        s == t,
    ensures
        i == j,
{
    let head = "vec!["@ + (shape_of(var, mutable) + "["@);
    let p = decimal_text(i) + "].to_string()]"@;
    let q = decimal_text(j) + "].to_string()]"@;
    assert(s =~= head + p);
    assert(t =~= head + q);
    assert(p =~= s.skip(head.len() as int));
    assert(q =~= t.skip(head.len() as int));
    reveal_strlit("].to_string()]");
    law_number_ends_with_its_digits(i, "].to_string()]"@, j, "].to_string()]"@);
}

/// The name that an element of a shape is.
pub open spec fn elem_name(e: ExprS) -> Option<Text> {
    match e {
        ExprS::Path(p) => Some(p.segments.last().ident),
        _ => None,
    }
}

proof fn lemma_elems_leave(
    s: RequiredGenericsS,
    elems: Seq<ExprS>,
    var: Text,
    mutable: bool,
    i: nat,
    name: Text,
)
    requires
        i <= elems.len(),
        forall|k: int| i <= k < elems.len() ==> elem_name(#[trigger] elems[k]) != Some(name),
    ensures
        ({
            let r = infer_elems(s, elems, var, mutable, i).generics;
            &&& r.expressions.contains_key(name) == s.expressions.contains_key(name)
            &&& r.expressions[name] == s.expressions[name]
        }),
    decreases elems.len() - i,
{
    if i < elems.len() {
        let r = infer_elem(s, elems[i as int], i, var, mutable);
        assert(elem_name(elems[i as int]) != Some(name));
        if r.error is None {
            lemma_elems_leave(r.generics, elems, var, mutable, i + 1, name);
        }
    }
}

proof fn lemma_elems_keep_types(
    s: RequiredGenericsS,
    elems: Seq<ExprS>,
    var: Text,
    mutable: bool,
    i: nat,
)
    ensures
        infer_elems(s, elems, var, mutable, i).generics.names == s.names,
        infer_elems(s, elems, var, mutable, i).generics.types == s.types,
        infer_elems(s, elems, var, mutable, i).generics.launcher_type_params
            == s.launcher_type_params,
    decreases elems.len() - i,
{
    if i < elems.len() {
        let r = infer_elem(s, elems[i as int], i, var, mutable);
        if r.error is None {
            lemma_elems_keep_types(r.generics, elems, var, mutable, i + 1);
        }
    }
}

proof fn lemma_elem_is_read(
    s: RequiredGenericsS,
    elems: Seq<ExprS>,
    var: Text,
    mutable: bool,
    i: nat,
    k: int,
)
    requires
        i <= k < elems.len(),
        infer_elems(s, elems, var, mutable, i).error is None,
        elem_name(elems[k]) is Some,
        s.get_ty(elem_name(elems[k])->Some_0) == SupportedGenericType::ConstScalar,
        forall|j: int| k < j < elems.len() ==> elem_name(#[trigger] elems[j]) != elem_name(elems[k]),
    ensures
        ({
            let e = infer_elems(s, elems, var, mutable, i).generics.expressions;
            let name = elem_name(elems[k])->Some_0;
            e.contains_key(name) && e[name] == Some(dim_expr(var, mutable, k as nat))
        }),
    decreases elems.len() - i,
{
    let name = elem_name(elems[k])->Some_0;
    let r = infer_elem(s, elems[i as int], i, var, mutable);
    if i == k {
        assert(r.generics.expressions[name] == Some(dim_expr(var, mutable, k as nat)));
        lemma_elems_leave(r.generics, elems, var, mutable, i + 1, name);
    } else {
        assert(r.generics.get_ty(name) == s.get_ty(name));
        lemma_elem_is_read(r.generics, elems, var, mutable, i + 1, k);
    }
}

/// A constant at index `k` of a literal shape is inferred from dimension `k` of the tensor's
/// shape, for a tensor that is read as for one that is written to; a constant that is not in the
/// shape is left alone, and so are literals.
pub proof fn law_constant_is_its_dimension(
    s: RequiredGenericsS,
    elems: Seq<ExprS>,
    var: Text,
    mutable: bool,
    k: int,
)
    requires
        infer_elems(s, elems, var, mutable, 0).error is None,
        0 <= k < elems.len(),
        elem_name(elems[k]) is Some,
        s.get_ty(elem_name(elems[k])->Some_0) == SupportedGenericType::ConstScalar,
        forall|j: int| k < j < elems.len() ==> elem_name(#[trigger] elems[j]) != elem_name(elems[k]),
    ensures
        ({
            let e = infer_elems(s, elems, var, mutable, 0).generics.expressions;
            let name = elem_name(elems[k])->Some_0;
            e.contains_key(name) && (e[name] matches Some(text) && reads_dim(
                text,
                var,
                mutable,
                k as nat,
            ))
        }),
{
    lemma_elem_is_read(s, elems, var, mutable, 0, k);
    lemma_reads_dim(var, mutable, k as nat);
}

/// Two constants of one literal shape are inferred from different expressions.
pub proof fn law_constants_are_inferred_apart(
    s: RequiredGenericsS,
    elems: Seq<ExprS>,
    var: Text,
    mutable: bool,
    i: int,
    k: int,
)
    requires
        infer_elems(s, elems, var, mutable, 0).error is None,
        0 <= i < k < elems.len(),
        elem_name(elems[i]) is Some,
        elem_name(elems[k]) is Some,
        s.get_ty(elem_name(elems[i])->Some_0) == SupportedGenericType::ConstScalar,
        s.get_ty(elem_name(elems[k])->Some_0) == SupportedGenericType::ConstScalar,
        forall|j: int| i < j < elems.len() ==> elem_name(#[trigger] elems[j]) != elem_name(elems[i]),
        forall|j: int| k < j < elems.len() ==> elem_name(#[trigger] elems[j]) != elem_name(elems[k]),
    ensures
        ({
            let e = infer_elems(s, elems, var, mutable, 0).generics.expressions;
            e[elem_name(elems[i])->Some_0] != e[elem_name(elems[k])->Some_0]
        }),
{
    let e = infer_elems(s, elems, var, mutable, 0).generics.expressions;
    law_constant_is_its_dimension(s, elems, var, mutable, i);
    law_constant_is_its_dimension(s, elems, var, mutable, k);
    let a = e[elem_name(elems[i])->Some_0]->Some_0;
    let b = e[elem_name(elems[k])->Some_0]->Some_0;
    if a == b {
        law_dimensions_are_read_apart(a, b, var, mutable, i as nat, k as nat);
    }
}

// ---------------------------------------------------------------------------
// Arguments of a tensor
// ---------------------------------------------------------------------------

/// The elements of an argument that is a literal shape, `{[..]}`.
pub open spec fn shape_elems(a: ArgS) -> Option<Seq<ExprS>> {
    match a {
        ArgS::Const(ExprS::Block(stmts)) => if stmts.len() == 1 {
            match stmts[0] {
                StmtS::Expr { expr: ExprS::Array(elems), semi: _ } => Some(elems),
                _ => None,
            }
        } else {
            None
        },
        _ => None,
    }
}

/// The name that an argument is, as a type or an array.
pub open spec fn arg_name(a: ArgS) -> Option<Text> {
    match a {
        ArgS::Type(TypeS::Path(p)) => Some(p.segments.last().ident),
        _ => None,
    }
}

/// The argument `a` names `name`, by itself or in a literal shape.
pub open spec fn names_param(a: ArgS, name: Text) -> bool {
    ||| arg_name(a) == Some(name)
    ||| shape_elems(a) matches Some(elems) && exists|i: int|
        0 <= i < elems.len() && elem_name(#[trigger] elems[i]) == Some(name)
}

proof fn lemma_arg_leaves(s: RequiredGenericsS, a: ArgS, var: Text, mutable: bool, name: Text)
    requires
        !names_param(a, name),
    ensures
        ({
            let r = infer_arg(s, a, var, mutable).generics;
            &&& r.expressions.contains_key(name) == s.expressions.contains_key(name)
            &&& r.expressions[name] == s.expressions[name]
        }),
{
    if let Some(elems) = shape_elems(a) {
        assert forall|k: int| 0 <= k < elems.len() implies elem_name(#[trigger] elems[k]) != Some(
            name,
        ) by {}
        lemma_elems_leave(s, elems, var, mutable, 0, name);
    }
}

proof fn lemma_arg_keeps_types(s: RequiredGenericsS, a: ArgS, var: Text, mutable: bool)
    ensures
        infer_arg(s, a, var, mutable).generics.names == s.names,
        infer_arg(s, a, var, mutable).generics.types == s.types,
{
    if let Some(elems) = shape_elems(a) {
        lemma_elems_keep_types(s, elems, var, mutable, 0);
    }
}

proof fn lemma_args_leave(
    s: RequiredGenericsS,
    args: Seq<ArgS>,
    var: Text,
    mutable: bool,
    i: nat,
    name: Text,
)
    requires
        forall|k: int| i <= k < args.len() ==> !names_param(#[trigger] args[k], name),
    ensures
        ({
            let r = infer_args(s, args, var, mutable, i).generics;
            &&& r.expressions.contains_key(name) == s.expressions.contains_key(name)
            &&& r.expressions[name] == s.expressions[name]
        }),
    decreases args.len() - i,
{
    if i < args.len() {
        let r = infer_arg(s, args[i as int], var, mutable);
        lemma_arg_leaves(s, args[i as int], var, mutable, name);
        if r.error is None {
            lemma_args_leave(r.generics, args, var, mutable, i + 1, name);
        }
    }
}

proof fn lemma_arg_in_args(
    s: RequiredGenericsS,
    args: Seq<ArgS>,
    var: Text,
    mutable: bool,
    i: nat,
    k: int,
    name: Text,
) -> (at: RequiredGenericsS)
    requires
        i <= k < args.len(),
        infer_args(s, args, var, mutable, i).error is None,
        forall|j: int| k < j < args.len() ==> !names_param(#[trigger] args[j], name),
    ensures
        at.names == s.names,
        at.types == s.types,
        infer_arg(at, args[k], var, mutable).error is None,
        ({
            let r = infer_args(s, args, var, mutable, i).generics;
            let t = infer_arg(at, args[k], var, mutable).generics;
            &&& r.expressions.contains_key(name) == t.expressions.contains_key(name)
            &&& r.expressions[name] == t.expressions[name]
        }),
    decreases args.len() - i,
{
    let r = infer_arg(s, args[i as int], var, mutable);
    if i == k {
        lemma_args_leave(r.generics, args, var, mutable, i + 1, name);
        s
    } else {
        lemma_arg_keeps_types(s, args[i as int], var, mutable);
        lemma_arg_in_args(r.generics, args, var, mutable, i + 1, k, name)
    }
}

/// A parameter that an argument of a tensor names, and no later one, is inferred from the tensor:
/// a type from its element type, an array from the whole of its shape, and a constant of a literal
/// shape from the dimension at its index.
pub proof fn law_parameter_is_inferred_from_tensor(
    s: RequiredGenericsS,
    args: Seq<ArgS>,
    var: Text,
    mutable: bool,
    k: int,
    name: Text,
)
    requires
        infer_args(s, args, var, mutable, 0).error is None,
        0 <= k < args.len(),
        forall|j: int| k < j < args.len() ==> !names_param(#[trigger] args[j], name),
    ensures
        ({
            let e = infer_args(s, args, var, mutable, 0).generics.expressions;
            &&& arg_name(args[k]) == Some(name) && s.get_ty(name) == SupportedGenericType::TypeParam
                ==> e.contains_key(name) && e[name] == Some(
                "vec!["@ + var + ".dtype().as_str().to_string()]"@,
            )
            &&& arg_name(args[k]) == Some(name) && s.get_ty(name)
                == SupportedGenericType::ConstArray ==> e.contains_key(name) && e[name] == Some(
                shape_of(var, mutable)
                    + ".iter().map(|x| x.to_string()).collect::<Vec<String>>()"@,
            )
            &&& shape_elems(args[k]) matches Some(elems) ==> forall|d: int|
                0 <= d < elems.len() && elem_name(#[trigger] elems[d]) == Some(name) && s.get_ty(
                    name,
                ) == SupportedGenericType::ConstScalar && (forall|j: int|
                    d < j < elems.len() ==> elem_name(#[trigger] elems[j]) != Some(name))
                    ==> e.contains_key(name) && (e[name] matches Some(text) && reads_dim(
                    text,
                    var,
                    mutable,
                    d as nat,
                ))
        }),
{
    let at = lemma_arg_in_args(s, args, var, mutable, 0, k, name);
    assert(at.get_ty(name) == s.get_ty(name));
    if let Some(elems) = shape_elems(args[k]) {
        assert(infer_arg(at, args[k], var, mutable) == infer_elems(at, elems, var, mutable, 0));
        assert forall|d: int|
            0 <= d < elems.len() && elem_name(#[trigger] elems[d]) == Some(name) && s.get_ty(name)
                == SupportedGenericType::ConstScalar && (forall|j: int|
                d < j < elems.len() ==> elem_name(#[trigger] elems[j]) != Some(name)) implies ({
            let e = infer_args(s, args, var, mutable, 0).generics.expressions;
            e.contains_key(name) && (e[name] matches Some(text) && reads_dim(
                text,
                var,
                mutable,
                d as nat,
            ))
        }) by {
            law_constant_is_its_dimension(at, elems, var, mutable, d);
        }
    }
}

/// A parameter that no argument of a tensor names is not inferred from it.
pub proof fn law_unnamed_parameter_is_left(
    s: RequiredGenericsS,
    args: Seq<ArgS>,
    var: Text,
    mutable: bool,
    name: Text,
)
    requires
        forall|k: int| 0 <= k < args.len() ==> !names_param(#[trigger] args[k], name),
    ensures
        infer_args(s, args, var, mutable, 0).generics.is_required(name) == s.is_required(name),
{
    lemma_args_leave(s, args, var, mutable, 0, name);
}

/// A scalar's type is inferred from the type itself if nothing has given it before, and only
/// that.
pub proof fn law_scalar_type_is_inferred_once(s: RequiredGenericsS, name: Text, other: Text)
    ensures
        ({
            let r = infer_scalar(s, name);
            &&& !r.is_required(name)
            &&& s.is_required(name) ==> r.expressions[name] == Some(
                "vec!["@ + name + "::DTYPE.as_str().to_string()]"@,
            ) && r.launcher_type_params == s.launcher_type_params.push(name)
            &&& !s.is_required(name) ==> r == s
            &&& other != name ==> r.is_required(other) == s.is_required(other)
                && r.expressions[other] == s.expressions[other]
            &&& r.names == s.names && r.types == s.types
        }),
{
}

/// How many of the first `k` generic parameters the launcher has itself.
pub open spec fn own_count(s: RequiredGenericsS, k: nat) -> nat
    decreases k,
{
    if k == 0 {
        0
    } else {
        own_count(s, (k - 1) as nat) + if s.launcher_type_params.contains(s.names[k - 1])
            && s.get_ty(s.names[k - 1]) == SupportedGenericType::TypeParam {
            1nat
        } else {
            0nat
        }
    }
}

/// A launcher's own generic parameters are the type parameters that it requires, in the order in
/// which the kernel declares them.
pub proof fn law_launcher_parameters_keep_their_order(s: RequiredGenericsS, i: int)
    requires
        0 <= i < s.names.len(),
    ensures
        s.generic_args().len() == own_count(s, s.names.len()),
        s.launcher_type_params.contains(s.names[i]) && s.get_ty(s.names[i])
            == SupportedGenericType::TypeParam ==> own_count(s, i as nat) < s.generic_args().len()
            && s.generic_args()[own_count(s, i as nat) as int] == s.names[i],
{
    lemma_own_params(s, s.names.len());
}

proof fn lemma_own_params(s: RequiredGenericsS, k: nat)
    requires
        k <= s.names.len(),
    ensures
        s.launcher_params(k).len() == own_count(s, k),
        forall|i: int|
            0 <= i < k && s.is_launcher_param(#[trigger] s.names[i]) ==> own_count(s, i as nat)
                < own_count(s, k) && s.launcher_params(k)[own_count(s, i as nat) as int]
                == s.names[i],
    decreases k,
{
    if k > 0 {
        lemma_own_params(s, (k - 1) as nat);
    }
}

// ---------------------------------------------------------------------------
// Parameters
// ---------------------------------------------------------------------------

proof fn lemma_position(names: Seq<Text>, name: Text, i: nat)
    requires
        i <= names.len(),
        forall|j: int| 0 <= j < i ==> #[trigger] names[j] != name,
    ensures
        position(names, name, i) <= names.len(),
        position(names, name, i) < names.len() ==> names[position(names, name, i) as int] == name,
        forall|j: int| 0 <= j < position(names, name, i) ==> #[trigger] names[j] != name,
    decreases names.len() - i,
{
    if i < names.len() && names[i as int] != name {
        lemma_position(names, name, i + 1);
    }
}

/// The kind of a generic parameter is that of its declaration: without a type it is a type
/// parameter, with an array type an array, and with another type a constant. A name that is not
/// declared has no kind.
pub proof fn law_kind_is_as_declared(s: RequiredGenericsS, name: Text, i: int)
    ensures
        !s.names.contains(name) ==> s.get_ty(name) == SupportedGenericType::Unknown,
        0 <= i < s.names.len() && s.names[i] == name && (forall|j: int|
            0 <= j < i ==> #[trigger] s.names[j] != name) ==> match s.types[i] {
            None => s.get_ty(name) == SupportedGenericType::TypeParam,
            Some(t) => if t is Array {
                s.get_ty(name) == SupportedGenericType::ConstArray
            } else {
                s.get_ty(name) == SupportedGenericType::ConstScalar
            },
        },
{
    lemma_position(s.names, name, 0);
    let p = position(s.names, name, 0) as int;
    if 0 <= i < s.names.len() && s.names[i] == name {
        if i < p {
            assert(s.names[i] != name);
        }
    }
    if p < s.names.len() {
        assert(s.names[p] == name);
    }
}

proof fn lemma_uninferred(names: Seq<Text>, k: nat, name: Text)
    requires
        k <= names.len(),
    ensures
        uninferred(names, k).contains_key(name) ==> uninferred(names, k)[name] is None,
        uninferred(names, k).contains_key(name) <==> exists|j: int|
            0 <= j < k && #[trigger] names[j] == name,
    decreases k,
{
    if k > 0 {
        lemma_uninferred(names, (k - 1) as nat, name);
        if names[k - 1] == name {
            assert(names[k - 1] == name);
        }
    }
}

/// At first nothing is inferred: every parameter is required, and the launcher has none of its
/// own.
pub proof fn law_nothing_is_inferred_at_first(names: Seq<Text>, types: Seq<Option<TypeS>>, name: Text)
    ensures
        ({
            let s = RequiredGenericsS::of(names, types);
            &&& s.is_required(name)
            &&& s.launcher_type_params.len() == 0
            &&& s.names == names
            &&& s.types == types
            &&& s.expressions.contains_key(name) <==> names.contains(name)
        }),
{
    lemma_uninferred(names, names.len(), name);
    if names.contains(name) {
        let j = choose|j: int| 0 <= j < names.len() && names[j] == name;
        assert(names[j] == name);
    }
}

/// The expressions of the parameters stand in the order of their declaration.
pub proof fn law_inferred_in_order(s: RequiredGenericsS, k: nat, i: int)
    requires
        0 <= i < k <= s.names.len(),
    ensures
        s.inferred(k) matches Ok(exprs) ==> exprs.len() == k && s.expressions[s.names[i]] == Some(
            exprs[i],
        ),
        s.inferred(k) matches Err(name) ==> exists|j: int|
            0 <= j < k && #[trigger] s.names[j] == name && s.is_required(name) && forall|l: int|
                0 <= l < j ==> !s.is_required(#[trigger] s.names[l]),
    decreases k,
{
    if k > 1 {
        law_inferred_in_order(s, (k - 1) as nat, if i < k - 1 { i } else { 0 });
    }
    if s.inferred((k - 1) as nat) is Ok {
        lemma_inferred_ok(s, (k - 1) as nat);
        if s.is_required(s.names[k - 1]) {
            assert(s.names[k - 1] == s.inferred(k)->Err_0);
        }
    }
}

proof fn lemma_inferred_ok(s: RequiredGenericsS, k: nat)
    requires
        k <= s.names.len(),
        s.inferred(k) is Ok,
    ensures
        s.inferred(k)->Ok_0.len() == k,
        forall|l: int| 0 <= l < k ==> !s.is_required(#[trigger] s.names[l]),
    decreases k,
{
    if k > 0 {
        lemma_inferred_ok(s, (k - 1) as nat);
    }
}

/// An element of a literal shape is refused exactly if it names a type or an array, or is neither
/// a literal, nor a sign before something, nor a name.
pub proof fn law_elements_that_are_refused(
    s: RequiredGenericsS,
    e: ExprS,
    i: nat,
    var: Text,
    mutable: bool,
)
    ensures
        infer_elem(s, e, i, var, mutable).error is Some <==> match e {
            ExprS::Lit(_) => false,
            ExprS::Unary { .. } => false,
            ExprS::Path(p) => s.get_ty(p.segments.last().ident) == SupportedGenericType::TypeParam
                || s.get_ty(p.segments.last().ident) == SupportedGenericType::ConstArray,
            _ => true,
        },
        infer_elem(s, e, i, var, mutable).error is Some ==> infer_elem(
            s,
            e,
            i,
            var,
            mutable,
        ).generics == s,
{
}

/// An argument of a tensor is refused exactly if it names a constant, or is a block that is not one
/// literal shape, or one with an element that is refused.
pub proof fn law_arguments_that_are_refused(s: RequiredGenericsS, a: ArgS, var: Text, mutable: bool)
    ensures
        infer_arg(s, a, var, mutable).error is Some <==> match a {
            ArgS::Type(TypeS::Path(p)) => s.get_ty(p.segments.last().ident)
                == SupportedGenericType::ConstScalar,
            ArgS::Const(ExprS::Block(_)) => shape_elems(a) is None || infer_elems(
                s,
                shape_elems(a)->Some_0,
                var,
                mutable,
                0,
            ).error is Some,
            _ => false,
        },
{
}

/// Only what an argument names is inferred: from an element of a shape that is no constant of the
/// kernel nothing is, and a name that the kernel does not declare changes nothing. A type
/// parameter is required of the launcher besides; nothing else is.
pub proof fn law_only_declared_names_are_inferred(
    s: RequiredGenericsS,
    e: ExprS,
    i: nat,
    a: ArgS,
    var: Text,
    mutable: bool,
)
    ensures
        !(elem_name(e) matches Some(n) && s.get_ty(n) == SupportedGenericType::ConstScalar)
            ==> infer_elem(s, e, i, var, mutable).generics == s,
        infer_elem(s, e, i, var, mutable).generics.launcher_type_params == s.launcher_type_params,
        arg_name(a) matches Some(n) ==> {
            let r = infer_arg(s, a, var, mutable).generics;
            &&& s.get_ty(n) == SupportedGenericType::Unknown ==> r == s
            &&& s.get_ty(n) == SupportedGenericType::ConstScalar ==> r == s
            &&& s.get_ty(n) == SupportedGenericType::ConstArray ==> r.launcher_type_params
                == s.launcher_type_params
            &&& s.get_ty(n) == SupportedGenericType::TypeParam ==> r.launcher_type_params
                == s.launcher_type_params.push(n)
        },
        arg_name(a) is None && shape_elems(a) is None ==> infer_arg(s, a, var, mutable).generics
            == s,
{
}

// ---------------------------------------------------------------------------
// Whole kernels
// ---------------------------------------------------------------------------

proof fn lemma_named_is_inferred(
    s: RequiredGenericsS,
    args: Seq<ArgS>,
    var: Text,
    mutable: bool,
    i: nat,
    k: int,
    name: Text,
)
    requires
        i <= k < args.len(),
        arg_name(args[k]) == Some(name),
        s.get_ty(name) == SupportedGenericType::TypeParam || s.get_ty(name)
            == SupportedGenericType::ConstArray,
        infer_args(s, args, var, mutable, i).error is None,
    ensures
        !infer_args(s, args, var, mutable, i).generics.is_required(name),
        s.get_ty(name) == SupportedGenericType::TypeParam ==> infer_args(
            s,
            args,
            var,
            mutable,
            i,
        ).generics.launcher_type_params.contains(name),
    decreases args.len() - i,
{
    let r = infer_arg(s, args[i as int], var, mutable);
    if i == k {
        law_inference_only_adds(r.generics, args, var, mutable, i + 1);
        assert(!r.generics.is_required(name));
        if s.get_ty(name) == SupportedGenericType::TypeParam {
            assert(r.generics.launcher_type_params == s.launcher_type_params.push(name));
            assert(r.generics.launcher_type_params.last() == name);
            assert(r.generics.launcher_type_params.contains(name));
        }
    } else {
        lemma_arg_keeps_types(s, args[i as int], var, mutable);
        assert(r.generics.get_ty(name) == s.get_ty(name));
        lemma_named_is_inferred(r.generics, args, var, mutable, i + 1, k, name);
    }
}

proof fn lemma_step_in_params(
    s: RequiredGenericsS,
    params: Seq<KernelParamS>,
    is_unsafe: bool,
    done: Seq<ParamCodeS>,
    i: nat,
    k: int,
) -> (at: RequiredGenericsS)
    requires
        done.len() == i,
        i <= k < params.len(),
        params_code(s, params, is_unsafe, done, i) is Ok,
    ensures
        extends(at, s),
        param_step(at, k as nat, params[k], is_unsafe).code is Ok,
        extends(
            params_code(s, params, is_unsafe, done, i)->Ok_0.generics,
            param_step(at, k as nat, params[k], is_unsafe).generics,
        ),
    decreases params.len() - i,
{
    let step = param_step(s, i, params[i as int], is_unsafe);
    let next = done.push(step.code->Ok_0);
    if i == k {
        lemma_params_code(step.generics, params, is_unsafe, next, i + 1);
        s
    } else {
        let at = lemma_step_in_params(step.generics, params, is_unsafe, next, i + 1, k);
        lemma_step_extends(s, i, params[i as int], is_unsafe);
        lemma_extends_trans(at, step.generics, s);
        at
    }
}

/// What one parameter of a kernel gives stays known to the launcher, whatever the other parameters
/// are: a type or an array that an argument of a tensor names is inferred, and so is the type of a
/// scalar.
pub proof fn law_every_parameter_contributes(
    entry: KernelEntryS,
    names: LauncherNamesS,
    i: int,
    k: int,
    name: Text,
)
    requires
        launcher_of(entry, names) is Ok,
        0 <= i < entry.params.len(),
    ensures
        ({
            let l = launcher_of(entry, names)->Ok_0;
            let kind = entry.generics.get_ty(name);
            &&& entry.params[i].ty matches KernelParamTypeS::Reference { generic_args, .. } ==> (0
                <= k < generic_args.len() && arg_name(generic_args[k]) == Some(name) && (kind
                == SupportedGenericType::TypeParam || kind == SupportedGenericType::ConstArray)
                ==> !l.generics.is_required(name) && (kind == SupportedGenericType::TypeParam
                ==> l.generics.launcher_type_params.contains(name)))
            &&& entry.params[i].ty matches KernelParamTypeS::Path { name: ty, .. }
                ==> !l.generics.is_required(ty)
        }),
{
    let at = lemma_step_in_params(
        entry.generics,
        entry.params,
        entry.is_unsafe,
        seq![],
        0,
        i,
    );
    let p = entry.params[i];
    let step = param_step(at, i as nat, p, entry.is_unsafe);
    match p.ty {
        KernelParamTypeS::Reference { source, mutable, ident, generic_args } => {
            assert(at.get_ty(name) == entry.generics.get_ty(name));
            let kind = entry.generics.get_ty(name);
            if 0 <= k < generic_args.len() && arg_name(generic_args[k]) == Some(name) && (kind
                == SupportedGenericType::TypeParam || kind == SupportedGenericType::ConstArray) {
                lemma_named_is_inferred(at, generic_args, p.name, mutable, 0, k, name);
                assert(!step.generics.is_required(name));
            }
        },
        KernelParamTypeS::Path { source, name: ty, is_integer } => {
            law_scalar_type_is_inferred_once(at, ty, ty);
            assert(!step.generics.is_required(ty));
        },
        _ => {},
    }
}

} // verus!
