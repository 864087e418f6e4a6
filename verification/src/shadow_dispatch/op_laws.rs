//! What holds of reading an operation off its signature.
use super::op_spec::{
    cga_name, dead_names, first_shape, in_args, in_plain_args, is_dead, is_dead_lifetime,
    is_rank_dependent, is_rank_param, kept_params, parse_op, plain_arg, plain_args,
    rank_dependent_count, ParsedArgS, RankPolyOpSpecS,
};
use super::ranks::{declared_cgas, param_cga, params_cgas, CgaInfoS};
use super::types::{first_cga, references};
use crate::ast::{ExprS, TypeS};
use crate::error::ErrorS;
use crate::items::{FnArgS, GenericParamS, ItemFnS};
use crate::lists::{collect, lemma_collect, lemma_filter};
use crate::print::{path_ident, type_text};
use crate::rank_instantiation::laws::law_decimal_is_injective;
use crate::text::{decimal_text, has_word, Text};
use vstd::prelude::*;

verus! {

// ---------------------------------------------------------------------------
// Arguments
// ---------------------------------------------------------------------------

/// A type mentions a name exactly if the name is a word of its text.
pub proof fn law_mention_is_a_word(t: TypeS, name: Text)
    ensures
        references(t, name) <==> has_word(type_text(t), name),
{
}

/// `first` is the first array that `t` mentions.
pub open spec fn first_mentioned(cgas: Seq<CgaInfoS>, t: TypeS, first: Option<Text>) -> bool {
    match first {
        None => forall|i: int|
            0 <= i < cgas.len() ==> !references(t, (#[trigger] cgas[i]).cga_ident),
        Some(name) => exists|i: int|
            0 <= i < cgas.len() && (#[trigger] cgas[i]).cga_ident == name && references(t, name)
                && forall|j: int|
                0 <= j < i ==> !references(t, (#[trigger] cgas[j]).cga_ident),
    }
}

pub proof fn lemma_first_cga(cgas: Seq<CgaInfoS>, t: TypeS, i: nat)
    requires
        i <= cgas.len(),
        forall|j: int| 0 <= j < i ==> !references(t, (#[trigger] cgas[j]).cga_ident),
    ensures
        match first_cga(cgas, t, i) {
            None => forall|j: int|
                0 <= j < cgas.len() ==> !references(t, (#[trigger] cgas[j]).cga_ident),
            Some(k) => k < cgas.len() && references(t, cgas[k as int].cga_ident) && forall|j: int|
                0 <= j < k ==> !references(t, (#[trigger] cgas[j]).cga_ident),
        },
    decreases cgas.len() - i,
{
    if i < cgas.len() && !references(t, cgas[i as int].cga_ident) {
        lemma_first_cga(cgas, t, i + 1);
    }
}

/// A type has the shape of the first array that it mentions, and none if it mentions none.
pub proof fn law_shape_is_first_mentioned(cgas: Seq<CgaInfoS>, t: TypeS)
    ensures
        first_mentioned(cgas, t, cga_name(cgas, t)),
{
    lemma_first_cga(cgas, t, 0);
    if let Some(i) = first_cga(cgas, t, 0) {
        assert(cgas[i as int].cga_ident == cga_name(cgas, t)->Some_0);
    }
}

proof fn lemma_first_shape(v: Seq<(Text, TypeS)>, cgas: Seq<CgaInfoS>, i: nat)
    requires
        i <= v.len(),
        forall|j: int| 0 <= j < i ==> cga_name(cgas, (#[trigger] v[j]).1) is None,
    ensures
        match first_shape(v, cgas, i) {
            None => forall|j: int|
                0 <= j < v.len() ==> cga_name(cgas, (#[trigger] v[j]).1) is None,
            Some(k) => k < v.len() && cga_name(cgas, v[k as int].1) is Some && forall|j: int|
                0 <= j < k ==> cga_name(cgas, (#[trigger] v[j]).1) is None,
        },
    decreases v.len() - i,
{
    if i < v.len() && cga_name(cgas, v[i as int].1) is None {
        lemma_first_shape(v, cgas, i + 1);
    }
}

/// A parsed operation has the arguments of its function in their order, with their names and
/// types; the receiver is the first of them that has a shape; an argument is like the receiver
/// exactly if it has a shape and the same type as written.
pub proof fn law_arguments_are_parsed(
    item: ItemFnS,
    method: Option<Text>,
    trait_name: Option<Text>,
    i: int,
)
    requires
        0 <= i < item.sig.inputs.len(),
    ensures
        parse_op(item, method, trait_name) matches Ok(s) ==> {
            let recv = s.args[s.receiver as int];
            &&& declared_cgas(item.sig.generics.params) == Ok::<Seq<CgaInfoS>, ErrorS>(s.cgas)
            &&& s.args.len() == item.sig.inputs.len()
            &&& item.sig.inputs[i] matches FnArgS::Typed { pat, ty } && pat.ident == Some(
                s.args[i].name,
            ) && ty == s.args[i].ty
            &&& first_mentioned(s.cgas, s.args[i].ty, s.args[i].cga)
            &&& s.receiver < s.args.len() && recv.cga is Some
            &&& i < s.receiver ==> s.args[i].cga is None
            &&& s.args[i].is_self_like <==> s.args[i].cga is Some && type_text(s.args[i].ty)
                == type_text(recv.ty)
        },
{
    if let Ok(s) = parse_op(item, method, trait_name) {
        let results = plain_args(item.sig.inputs);
        lemma_collect(results);
        let plain = collect(results)->Ok_0;
        assert(results[i] == Ok::<(Text, TypeS), ErrorS>(plain[i]));
        assert(results[i] == plain_arg(item.sig.inputs[i]));
        lemma_first_shape(plain, s.cgas, 0);
        law_shape_is_first_mentioned(s.cgas, plain[i].1);
        if i < s.receiver {
            assert(cga_name(s.cgas, plain[i].1) is None);
        }
    }
}

/// A parsed operation keeps the names it is given, and falls back to those of its function; its
/// bounds, its return type and whether it is unsafe are those of its function.
pub proof fn law_operation_keeps_its_frame(
    item: ItemFnS,
    method: Option<Text>,
    trait_name: Option<Text>,
)
    ensures
        parse_op(item, method, trait_name) matches Ok(s) ==> {
            &&& s.fn_ident == item.sig.ident
            &&& method matches Some(m) ==> s.method_ident == m
            &&& method is None ==> s.method_ident == item.sig.ident
            &&& trait_name matches Some(t) ==> s.trait_ident == t
            &&& trait_name is None ==> s.trait_ident == crate::text::pascal_text(
                item.sig.ident,
                true,
            )
            &&& s.where_clause == item.sig.generics.where_clause
            &&& s.is_unsafe == item.sig.is_unsafe
            &&& item.sig.output matches Some(t) ==> s.return_type == t && first_mentioned(
                s.cgas,
                t,
                s.return_cga,
            )
            &&& item.sig.output is None ==> s.is_void_return() && s.return_cga is None
        },
{
    if let Ok(s) = parse_op(item, method, trait_name) {
        if let Some(t) = item.sig.output {
            law_shape_is_first_mentioned(s.cgas, t);
        }
    }
}

/// An operation is refused exactly if it declares no array or an array with a length that is no
/// name, if an argument is a `self` or has no name, or if no argument has a shape.
pub proof fn law_operation_is_refused(
    item: ItemFnS,
    method: Option<Text>,
    trait_name: Option<Text>,
)
    ensures
        parse_op(item, method, trait_name) is Err <==> {
            ||| declared_cgas(item.sig.generics.params) is Err
            ||| declared_cgas(item.sig.generics.params)->Ok_0.len() == 0
            ||| exists|i: int| 0 <= i < item.sig.inputs.len() && unnamed(#[trigger] item.sig.inputs[i])
            ||| forall|i: int|
                0 <= i < item.sig.inputs.len() ==> !has_shape(
                    #[trigger] item.sig.inputs[i],
                    declared_cgas(item.sig.generics.params)->Ok_0,
                )
        },
{
    let inputs = item.sig.inputs;
    if let Ok(cgas) = declared_cgas(item.sig.generics.params) {
        let results = plain_args(inputs);
        lemma_collect(results);
        match collect(results) {
            Err(e) => {
                let i = choose|i: int|
                    0 <= i < results.len() && #[trigger] results[i] == Err::<
                        (Text, TypeS),
                        ErrorS,
                    >(e);
                assert(plain_arg(inputs[i]) is Err);
                assert(unnamed(inputs[i]));
            },
            Ok(plain) => {
                assert forall|i: int| 0 <= i < inputs.len() implies !unnamed(#[trigger] inputs[i])
                    && (has_shape(inputs[i], cgas) <==> cga_name(cgas, plain[i].1) is Some) by {
                    assert(results[i] == Ok::<(Text, TypeS), ErrorS>(plain[i]));
                    law_shape_is_first_mentioned(cgas, plain[i].1);
                }
                lemma_first_shape(plain, cgas, 0);
                if let Some(k) = first_shape(plain, cgas, 0) {
                    assert(has_shape(inputs[k as int], cgas));
                }
            },
        }
    }
}

/// An argument that is a `self`, or whose pattern is no name.
pub open spec fn unnamed(a: FnArgS) -> bool {
    match a {
        FnArgS::Receiver(_) => true,
        FnArgS::Typed { pat, .. } => pat.ident is None,
    }
}

/// An argument whose type mentions an array.
pub open spec fn has_shape(a: FnArgS, cgas: Seq<CgaInfoS>) -> bool {
    a matches FnArgS::Typed { pat: _, ty } && exists|i: int|
        0 <= i < cgas.len() && references(ty, (#[trigger] cgas[i]).cga_ident)
}

// ---------------------------------------------------------------------------
// Parameters
// ---------------------------------------------------------------------------

/// A lifetime that the return type mentions and no argument does.
pub open spec fn only_returned(p: GenericParamS, s: RankPolyOpSpecS) -> bool {
    p matches GenericParamS::Lifetime { ident, .. } && references(s.return_type, ident) && forall|
        i: int,
    |
        0 <= i < s.args.len() ==> !references((#[trigger] s.args[i]).ty, ident)
}

/// A constant that is an array or the length of one.
pub open spec fn is_shape_param(p: GenericParamS, s: RankPolyOpSpecS) -> bool {
    p matches GenericParamS::Const { ident, .. } && exists|i: int|
        0 <= i < s.cgas.len() && ((#[trigger] s.cgas[i]).cga_ident == ident
            || s.cgas[i].length_ident == ident)
}

/// A parameter that an argument without a shape mentions.
pub open spec fn is_mentioned_plainly(p: GenericParamS, s: RankPolyOpSpecS) -> bool {
    exists|i: int|
        0 <= i < s.args.len() && (#[trigger] s.args[i]).cga is None && references(
            s.args[i].ty,
            p.name(),
        )
}

proof fn lemma_dead_is_filter(
    params: Seq<GenericParamS>,
    args: Seq<ParsedArgS>,
    ret: TypeS,
    k: nat,
)
    requires
        k <= params.len(),
    ensures
        ({
            let pick = |p: GenericParamS| is_dead(p, args, ret);
            let v = params.take(k as int).filter(pick);
            &&& dead_names(params, args, ret, k).len() == v.len()
            &&& forall|i: int|
                0 <= i < v.len() ==> #[trigger] dead_names(params, args, ret, k)[i] == v[i].name()
        }),
    decreases k,
{
    reveal(Seq::filter);
    let pick = |p: GenericParamS| is_dead(p, args, ret);
    if k > 0 {
        lemma_dead_is_filter(params, args, ret, (k - 1) as nat);
        assert(params.take(k as int).drop_last() =~= params.take(k - 1));
        let before = params.take(k - 1).filter(pick);
        let v = params.take(k as int).filter(pick);
        assert forall|i: int| 0 <= i < v.len() implies #[trigger] dead_names(params, args, ret, k)[i]
            == v[i].name() by {
            if i < before.len() {
                assert(dead_names(params, args, ret, (k - 1) as nat)[i] == before[i].name());
            }
        }
    }
}

proof fn lemma_kept_is_filter(
    params: Seq<GenericParamS>,
    cgas: Seq<CgaInfoS>,
    args: Seq<ParsedArgS>,
    dead: Seq<Text>,
    plain: bool,
    k: nat,
)
    requires
        k <= params.len(),
    ensures
        kept_params(params, cgas, args, dead, plain, k) == params.take(k as int).filter(
            |p: GenericParamS|
                !is_dead_lifetime(p, dead) && !is_rank_param(p, cgas) && in_plain_args(
                    args,
                    p.name(),
                ) == plain,
        ),
    decreases k,
{
    reveal(Seq::filter);
    if k > 0 {
        lemma_kept_is_filter(params, cgas, args, dead, plain, (k - 1) as nat);
        assert(params.take(k as int).drop_last() =~= params.take(k - 1));
    }
}

/// Each parameter of an operation has one fate, and parameters keep their order: a lifetime that
/// only the return type names gives way to a fresh one, arrays and lengths go, what an argument
/// without a shape mentions becomes a parameter of the trait, and the rest stays with the impls.
pub proof fn law_parameters_are_sorted(
    item: ItemFnS,
    method: Option<Text>,
    trait_name: Option<Text>,
)
    ensures
        parse_op(item, method, trait_name) matches Ok(s) ==> {
            let params = item.sig.generics.params;
            let dead = params.filter(|p: GenericParamS| only_returned(p, s));
            &&& s.dead_lifetimes.len() == dead.len()
            &&& s.dead_lt_idents.len() == dead.len()
            &&& forall|i: int| 0 <= i < dead.len() ==> #[trigger] s.dead_lifetimes[i] == dead[i].name()
            &&& forall|i: int|
                0 <= i < dead.len() ==> #[trigger] s.dead_lt_idents[i] == "__td_lt"@ + decimal_text(
                    i as nat,
                )
            &&& s.trait_level_params == params.filter(
                |p: GenericParamS|
                    !only_returned(p, s) && !is_shape_param(p, s) && is_mentioned_plainly(p, s),
            )
            &&& s.impl_only_params == params.filter(
                |p: GenericParamS|
                    !only_returned(p, s) && !is_shape_param(p, s) && !is_mentioned_plainly(p, s),
            )
        },
{
    if let Ok(s) = parse_op(item, method, trait_name) {
        let params = item.sig.generics.params;
        let n = params.len();
        let ret = s.return_type;
        lemma_dead_is_filter(params, s.args, ret, n);
        assert(params.take(n as int) =~= params);
        assert forall|p: GenericParamS| #[trigger] is_dead(p, s.args, ret) == only_returned(
            p,
            s,
        ) by {
            if let GenericParamS::Lifetime { ident, .. } = p {
                if in_args(s.args, ident) {
                    let i = choose|i: int|
                        0 <= i < s.args.len() && references((#[trigger] s.args[i]).ty, ident);
                    assert(references(s.args[i].ty, ident));
                }
            }
        }
        lemma_same_filter(
            params,
            |p: GenericParamS| is_dead(p, s.args, ret),
            |p: GenericParamS| only_returned(p, s),
        );
        let dead = params.filter(|p: GenericParamS| is_dead(p, s.args, ret));
        assert forall|i: int| 0 <= i < n implies is_dead_lifetime(
            #[trigger] params[i],
            s.dead_lifetimes,
        ) == only_returned(params[i], s) by {
            lemma_dead_lifetime(params, s, i);
        }
        lemma_kept_is_filter(params, s.cgas, s.args, s.dead_lifetimes, true, n);
        lemma_kept_is_filter(params, s.cgas, s.args, s.dead_lifetimes, false, n);
        lemma_same_filter(
            params,
            |p: GenericParamS|
                !is_dead_lifetime(p, s.dead_lifetimes) && !is_rank_param(p, s.cgas)
                    && in_plain_args(s.args, p.name()) == true,
            |p: GenericParamS|
                !only_returned(p, s) && !is_shape_param(p, s) && is_mentioned_plainly(p, s),
        );
        lemma_same_filter(
            params,
            |p: GenericParamS|
                !is_dead_lifetime(p, s.dead_lifetimes) && !is_rank_param(p, s.cgas)
                    && in_plain_args(s.args, p.name()) == false,
            |p: GenericParamS|
                !only_returned(p, s) && !is_shape_param(p, s) && !is_mentioned_plainly(p, s),
        );
    }
}

proof fn lemma_dead_lifetime(params: Seq<GenericParamS>, s: RankPolyOpSpecS, i: int)
    requires
        0 <= i < params.len(),
        s.dead_lifetimes == dead_names(params, s.args, s.return_type, params.len()),
        forall|p: GenericParamS| #[trigger]
            is_dead(p, s.args, s.return_type) == only_returned(p, s),
    ensures
        is_dead_lifetime(params[i], s.dead_lifetimes) == only_returned(params[i], s),
{
    let pick = |p: GenericParamS| is_dead(p, s.args, s.return_type);
    lemma_dead_is_filter(params, s.args, s.return_type, params.len());
    assert(params.take(params.len() as int) =~= params);
    let dead = params.filter(pick);
    lemma_filter(params, pick);
    if only_returned(params[i], s) {
        assert(pick(params[i]));
        assert(dead.contains(params[i]));
        let k = choose|k: int| 0 <= k < dead.len() && dead[k] == params[i];
        assert(s.dead_lifetimes[k] == params[i].name());
    } else if is_dead_lifetime(params[i], s.dead_lifetimes) {
        let name = params[i].name();
        let k = choose|k: int| 0 <= k < s.dead_lifetimes.len() && s.dead_lifetimes[k] == name;
        assert(pick(dead[k]));
        assert(dead[k].name() == name);
        assert(only_returned(dead[k], s));
        assert(only_returned(params[i], s));
    }
}

proof fn lemma_same_filter<A>(v: Seq<A>, f: spec_fn(A) -> bool, g: spec_fn(A) -> bool)
    requires
        forall|i: int| 0 <= i < v.len() ==> f(#[trigger] v[i]) == g(v[i]),
    ensures
        v.filter(f) == v.filter(g),
    decreases v.len(),
{
    reveal(Seq::filter);
    if v.len() > 0 {
        let w = v.drop_last();
        assert forall|i: int| 0 <= i < w.len() implies f(#[trigger] w[i]) == g(w[i]) by {
            assert(w[i] == v[i]);
        }
        lemma_same_filter(w, f, g);
        assert(v.last() == v[v.len() - 1]);
    }
}

// ---------------------------------------------------------------------------
// Rank-dependent arguments
// ---------------------------------------------------------------------------

/// An argument without a shape has a generic of its own exactly if its type mentions a length;
/// these generics have different names.
pub proof fn law_rank_dependent_arguments(
    item: ItemFnS,
    method: Option<Text>,
    trait_name: Option<Text>,
    i: int,
    j: int,
)
    requires
        0 <= i < j < item.sig.inputs.len(),
    ensures
        parse_op(item, method, trait_name) matches Ok(s) ==> {
            &&& s.rank_dep_arg_idents.len() == s.args.len()
            &&& s.rank_dep_arg_idents[i] is Some <==> s.args[i].cga is None && exists|k: int|
                0 <= k < s.cgas.len() && references(s.args[i].ty, (#[trigger] s.cgas[k]).length_ident)
            &&& s.rank_dep_arg_idents[i] is Some ==> s.rank_dep_arg_idents[i]
                != s.rank_dep_arg_idents[j]
        },
{
    if let Ok(s) = parse_op(item, method, trait_name) {
        let results = plain_args(item.sig.inputs);
        lemma_collect(results);
        if s.rank_dep_arg_idents[i] is Some && s.rank_dep_arg_idents[i]
            == s.rank_dep_arg_idents[j] {
            let a = rank_dependent_count(s.args, s.cgas, i as nat);
            let b = rank_dependent_count(s.args, s.cgas, j as nat);
            lemma_count_grows(s.args, s.cgas, i as nat, j as nat);
            let head = "__td_arg"@;
            let x = head + decimal_text(a);
            let y = head + decimal_text(b);
            assert(x == y);
            assert(decimal_text(a) =~= x.skip(head.len() as int));
            assert(decimal_text(b) =~= y.skip(head.len() as int));
            law_decimal_is_injective(a, b);
        }
    }
}

proof fn lemma_count_grows(args: Seq<ParsedArgS>, cgas: Seq<CgaInfoS>, i: nat, j: nat)
    requires
        i < j <= args.len(),
        is_rank_dependent(args[i as int], cgas),
    ensures
        rank_dependent_count(args, cgas, i) < rank_dependent_count(args, cgas, j),
    decreases j,
{
    if i + 1 < j {
        lemma_count_grows(args, cgas, i, (j - 1) as nat);
    }
}

// ---------------------------------------------------------------------------
// Arrays
// ---------------------------------------------------------------------------

/// The array that a parameter declares: `const X: [i32; N]` with a name for its length.
pub open spec fn declares(p: GenericParamS) -> Option<CgaInfoS> {
    match p {
        GenericParamS::Const { ident, ty: TypeS::Array { elem, len }, .. } => match *elem {
            TypeS::Path(e) => match *len {
                ExprS::Path(l) => if path_ident(e) == Some("i32"@) && path_ident(l) is Some {
                    Some(CgaInfoS { cga_ident: ident, length_ident: path_ident(l)->Some_0 })
                } else {
                    None
                },
                _ => None,
            },
            _ => None,
        },
        _ => None,
    }
}

/// The arrays of an item are those that its parameters declare, in their order.
pub proof fn law_declared_arrays_are_found(params: Seq<GenericParamS>, p: GenericParamS)
    ensures
        declared_cgas(seq![]) == Ok::<Seq<CgaInfoS>, ErrorS>(seq![]),
        declared_cgas(params) matches Ok(v) ==> declares(p) matches Some(cga) ==> declared_cgas(
            params.push(p),
        ) == Ok::<Seq<CgaInfoS>, ErrorS>(v.push(cga)),
        declared_cgas(params) matches Ok(v) ==> declares(p) is None ==> match declared_cgas(
            params.push(p),
        ) {
            Ok(w) => w == v,
            Err(_) => p is Const && p->ty is Array && *p->ty->Array_len is Path,
        },
        declared_cgas(params) matches Err(e) ==> declared_cgas(params.push(p)) == Err::<
            Seq<CgaInfoS>,
            ErrorS,
        >(e),
{
    assert(params_cgas(seq![]) =~= Seq::<Result<Seq<CgaInfoS>, ErrorS>>::empty());
    let results = params_cgas(params.push(p));
    assert(results.drop_last() =~= params_cgas(params));
    assert(results.last() == param_cga(p));
    if let Ok(lists) = collect(results) {
        assert(lists.drop_last() =~= collect(results.drop_last())->Ok_0);
        let v = declared_cgas(params)->Ok_0;
        let x = param_cga(p)->Ok_0;
        assert(declared_cgas(params.push(p)) == Ok::<Seq<CgaInfoS>, ErrorS>(v + x));
        if x.len() == 1 {
            assert(v + x =~= v.push(x[0]));
        } else {
            assert(v + x =~= v);
        }
    }
}

} // verus!
