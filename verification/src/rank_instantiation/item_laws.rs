//! What holds of rewriting signatures, methods, impl blocks and structs.
use super::bindings::{var_cgas, CgaS, MetaS, RankBindingsS, VarCgaS};
use super::bodies::{visit_stmt, visit_stmts};
use super::body_laws::{
    dims_are_fresh, each_in_turn, lemma_clear_stmts, lemma_stmts, names_gone_stmts,
};
use super::instantiator::{
    rewrite_fn, rewrite_impl_block, rewrite_impl_item, rewrite_method, rewrite_struct_fields,
    rewrite_trait_path, rewritten_fields, rewritten_impl_items, struct_for_rank,
};
use super::laws::{law_one_impl_per_combination, single_rank_items};
use super::lengths::{item_at, length_space, length_vars};
use super::signatures::{
    expand_trait_arg, expand_trait_args, expanded_trait_args, rewrite_generics, rewrite_sig,
    rewritten_fn_args,
};
use super::types::{name_path, rewrite_type};
use super::variadic::{impl_cgas, impl_variants};
use crate::ast::{ArgS, ArgumentsS, PathS, StmtS, TypeS};
use crate::error::ErrorS;
use crate::items::{
    FieldS, FnArgS, GenericsS, ImplItemFnS, ImplItemS, ItemFnS, ItemImplS, ItemStructS, SignatureS,
};
use crate::lists::{collect, concat, lemma_collect, lemma_concat_step};
use crate::text::{decimal_text, Text};
use vstd::prelude::*;

verus! {

// ---------------------------------------------------------------------------
// Bindings
// ---------------------------------------------------------------------------

/// `inner` is `b` with the arrays `cgas` in scope besides: each has the length that its variable
/// has in `b`, and everything else is as it was.
pub open spec fn adds_arrays(b: RankBindingsS, cgas: Seq<VarCgaS>, inner: RankBindingsS) -> bool {
    &&& inner.inst_u32 == b.inst_u32
    &&& forall|i: int|
        0 <= i < cgas.len() ==> b.inst_u32.contains_key((#[trigger] cgas[i]).length_var)
            && inner.inst_array.contains_key(cgas[i].name)
    &&& forall|name: Text| #[trigger]
        inner.inst_array.contains_key(name) <==> b.inst_array.contains_key(name) || exists|i: int|
            0 <= i < cgas.len() && (#[trigger] cgas[i]).name == name
    &&& forall|name: Text|
        (forall|i: int| 0 <= i < cgas.len() ==> (#[trigger] cgas[i]).name != name)
            && b.inst_array.contains_key(name) ==> #[trigger] inner.inst_array[name]
            == b.inst_array[name]
    &&& forall|i: int|
        0 <= i < cgas.len() && (forall|j: int|
            i < j < cgas.len() ==> (#[trigger] cgas[j]).name != cgas[i].name) ==> {
            let cga = #[trigger] inner.inst_array[cgas[i].name];
            cga.name == cgas[i].name && cga.element_type == cgas[i].element_type && cga.length
                == b.inst_u32[cgas[i].length_var]
        }
}

/// Arrays whose length variables are all bound come into scope with those lengths, and only those
/// arrays; one whose variable is not bound is refused.
pub proof fn law_arrays_come_into_scope(b: RankBindingsS, cgas: Seq<VarCgaS>)
    ensures
        b.with_var_cgas(cgas, 0) is Ok <==> forall|i: int|
            0 <= i < cgas.len() ==> b.inst_u32.contains_key((#[trigger] cgas[i]).length_var),
        b.with_var_cgas(cgas, 0) matches Ok(inner) ==> adds_arrays(b, cgas, inner),
{
    lemma_adds_arrays(b, cgas, 0);
    assert(cgas.skip(0) =~= cgas);
}

proof fn lemma_adds_arrays(b: RankBindingsS, cgas: Seq<VarCgaS>, i: nat)
    requires
        i <= cgas.len(),
    ensures
        match b.with_var_cgas(cgas, i) {
            Ok(inner) => adds_arrays(b, cgas.skip(i as int), inner),
            Err(_) => exists|j: int|
                i <= j < cgas.len() && !b.inst_u32.contains_key((#[trigger] cgas[j]).length_var),
        },
    decreases cgas.len() - i,
{
    let rest = cgas.skip(i as int);
    if i < cgas.len() {
        let cga = cgas[i as int];
        assert(rest[0] == cga);
        if b.inst_u32.contains_key(cga.length_var) {
            let next = b.with_array(cga, b.inst_u32[cga.length_var] as nat);
            lemma_adds_arrays(next, cgas, i + 1);
            let after = cgas.skip((i + 1) as int);
            assert forall|k: int| 0 <= k < after.len() implies after[k] == rest[k + 1] by {}
            if let Ok(inner) = next.with_var_cgas(cgas, i + 1) {
                assert forall|k: int| 0 <= k < rest.len() implies b.inst_u32.contains_key(
                    (#[trigger] rest[k]).length_var,
                ) && inner.inst_array.contains_key(rest[k].name) by {
                    if k > 0 {
                        assert(after[k - 1] == rest[k]);
                    }
                }
                assert forall|name: Text| #[trigger]
                    inner.inst_array.contains_key(name) <==> b.inst_array.contains_key(name)
                        || exists|k: int| 0 <= k < rest.len() && (#[trigger] rest[k]).name == name by {
                    if exists|k: int| 0 <= k < rest.len() && (#[trigger] rest[k]).name == name {
                        let k = choose|k: int|
                            0 <= k < rest.len() && (#[trigger] rest[k]).name == name;
                        if k > 0 {
                            assert(after[k - 1].name == name);
                        }
                    }
                    if inner.inst_array.contains_key(name) && !next.inst_array.contains_key(name) {
                        let k = choose|k: int|
                            0 <= k < after.len() && (#[trigger] after[k]).name == name;
                        assert(rest[k + 1].name == name);
                    }
                    if next.inst_array.contains_key(name) && !b.inst_array.contains_key(name) {
                        assert(rest[0].name == name);
                    }
                }
                assert forall|name: Text|
                    (forall|k: int| 0 <= k < rest.len() ==> (#[trigger] rest[k]).name != name)
                        && b.inst_array.contains_key(name) implies #[trigger] inner.inst_array[name]
                    == b.inst_array[name] by {
                    assert(rest[0].name != name);
                    assert forall|k: int| 0 <= k < after.len() implies (#[trigger] after[k]).name
                        != name by {
                        assert(rest[k + 1].name != name);
                    }
                    assert(next.inst_array[name] == b.inst_array[name]);
                }
                assert forall|k: int|
                    0 <= k < rest.len() && (forall|j: int|
                        k < j < rest.len() ==> (#[trigger] rest[j]).name != rest[k].name) implies {
                    let cga = #[trigger] inner.inst_array[rest[k].name];
                    cga.name == rest[k].name && cga.element_type == rest[k].element_type
                        && cga.length == b.inst_u32[rest[k].length_var]
                } by {
                    if k == 0 {
                        assert forall|j: int| 0 <= j < after.len() implies (#[trigger] after[j]).name
                            != rest[0].name by {
                            assert(rest[j + 1].name != rest[0].name);
                        }
                        assert(next.inst_array[rest[0].name] == inner.inst_array[rest[0].name]);
                    } else {
                        assert(after[k - 1] == rest[k]);
                        assert forall|j: int| k - 1 < j < after.len() implies (
                        #[trigger] after[j]).name != after[k - 1].name by {
                            assert(rest[j + 1].name != rest[k].name);
                        }
                        let cga = inner.inst_array[after[k - 1].name];
                        assert(cga.length == b.inst_u32[rest[k].length_var]);
                    }
                }
            } else {
                let j = choose|j: int|
                    i + 1 <= j < cgas.len() && !next.inst_u32.contains_key(
                        (#[trigger] cgas[j]).length_var,
                    );
                assert(!b.inst_u32.contains_key(cgas[j].length_var));
            }
        }
    }
}

proof fn lemma_known(b: RankBindingsS, cgas: Seq<CgaS>, i: nat, name: Text)
    requires
        i <= cgas.len(),
    ensures
        b.with_known(cgas, i).inst_u32 == b.inst_u32,
        b.with_known(cgas, i).inst_array.contains_key(name) <==> (b.inst_array.contains_key(name)
            || exists|k: int| i <= k < cgas.len() && (#[trigger] cgas[k]).name == name),
        (forall|k: int| i <= k < cgas.len() ==> (#[trigger] cgas[k]).name != name)
            && b.inst_array.contains_key(name) ==> b.with_known(cgas, i).inst_array[name]
            == b.inst_array[name],
        forall|k: int|
            i <= k < cgas.len() && (#[trigger] cgas[k]).name == name && (forall|j: int|
                k < j < cgas.len() ==> (#[trigger] cgas[j]).name != name) ==> b.with_known(
                cgas,
                i,
            ).inst_array[name] == cgas[k],
    decreases cgas.len() - i,
{
    if i < cgas.len() {
        let cga = cgas[i as int];
        let next = RankBindingsS { inst_array: b.inst_array.insert(cga.name, cga), ..b };
        lemma_known(next, cgas, i + 1, name);
        if exists|k: int| i <= k < cgas.len() && (#[trigger] cgas[k]).name == name {
            let k = choose|k: int| i <= k < cgas.len() && (#[trigger] cgas[k]).name == name;
            if k > i {
                assert(cgas[k].name == name);
            }
        }
        assert forall|k: int|
            i <= k < cgas.len() && (#[trigger] cgas[k]).name == name && (forall|j: int|
                k < j < cgas.len() ==> (#[trigger] cgas[j]).name != name) implies b.with_known(
            cgas,
            i,
        ).inst_array[name] == cgas[k] by {
            if k == i {
                assert(next.inst_array[name] == cga);
            }
        }
    }
}

/// Arrays of known length are in scope exactly as they are given, a later one in place of an
/// earlier one of the same name, and no length variable is.
pub proof fn law_known_arrays_are_in_scope(cgas: Seq<CgaS>, name: Text)
    ensures
        forall|v: Text| !(#[trigger] RankBindingsS::from_generics(cgas).inst_u32.contains_key(v)),
        RankBindingsS::from_generics(cgas).inst_array.contains_key(name) <==> exists|k: int|
            0 <= k < cgas.len() && (#[trigger] cgas[k]).name == name,
        forall|k: int|
            0 <= k < cgas.len() && (#[trigger] cgas[k]).name == name && (forall|j: int|
                k < j < cgas.len() ==> (#[trigger] cgas[j]).name != name)
                ==> RankBindingsS::from_generics(cgas).inst_array[name] == cgas[k],
{
    lemma_known(RankBindingsS::empty(), cgas, 0, name);
}

// ---------------------------------------------------------------------------
// Signatures
// ---------------------------------------------------------------------------

/// The argument that stands for `a`: a receiver as it is, any other with its pattern and its type
/// rewritten.
pub open spec fn arg_rewritten(a: FnArgS, r: FnArgS, b: RankBindingsS) -> bool {
    match a {
        FnArgS::Receiver(_) => r == a,
        FnArgS::Typed { pat, ty } => r matches FnArgS::Typed { pat: q, ty: u } && q == pat
            && rewrite_type(ty, b) == Ok::<TypeS, ErrorS>(u),
    }
}

/// The signature `r` is `s` with its generics and every type in it rewritten.
pub open spec fn sig_rewritten(s: SignatureS, r: SignatureS, b: RankBindingsS) -> bool {
    &&& r.qualifiers == s.qualifiers
    &&& r.is_unsafe == s.is_unsafe
    &&& r.ident == s.ident
    &&& rewrite_generics(s.generics, b) == Ok::<GenericsS, ErrorS>(r.generics)
    &&& r.generics.where_clause == s.generics.where_clause
    &&& r.inputs.len() == s.inputs.len()
    &&& forall|i: int|
        0 <= i < s.inputs.len() ==> arg_rewritten(s.inputs[i], #[trigger] r.inputs[i], b)
    &&& match s.output {
        None => r.output is None,
        Some(t) => r.output matches Some(u) && rewrite_type(t, b) == Ok::<TypeS, ErrorS>(u),
    }
}

/// A rewritten signature has every argument and the return type rewritten; it is refused only
/// where its generics or one of these types is.
pub proof fn law_signature_is_rewritten(s: SignatureS, b: RankBindingsS)
    ensures
        rewrite_sig(s, b) matches Ok(r) ==> sig_rewritten(s, r, b),
        rewrite_sig(s, b) matches Err(e) ==> {
            ||| rewrite_generics(s.generics, b) == Err::<GenericsS, ErrorS>(e)
            ||| exists|i: int|
                0 <= i < s.inputs.len() && (#[trigger] s.inputs[i] matches FnArgS::Typed { pat, ty }
                    && rewrite_type(ty, b) == Err::<TypeS, ErrorS>(e))
            ||| s.output matches Some(t) && rewrite_type(t, b) == Err::<TypeS, ErrorS>(e)
        },
{
    let results = rewritten_fn_args(s.inputs, b);
    lemma_collect(results);
    match collect(results) {
        Ok(inputs) => {
            assert forall|i: int| 0 <= i < s.inputs.len() implies arg_rewritten(
                s.inputs[i],
                #[trigger] inputs[i],
                b,
            ) by {
                assert(results[i] == Ok::<FnArgS, ErrorS>(inputs[i]));
            }
        },
        Err(e) => {
            let i = choose|i: int|
                0 <= i < results.len() && #[trigger] results[i] == Err::<FnArgS, ErrorS>(e);
            let a = s.inputs[i];
            assert(a is Typed && rewrite_type(a->ty, b) == Err::<TypeS, ErrorS>(e));
        },
    }
}

// ---------------------------------------------------------------------------
// Trait arguments
// ---------------------------------------------------------------------------

proof fn lemma_trait_args_step(args: Seq<ArgS>, a: ArgS, b: RankBindingsS)
    ensures
        expand_trait_args(args.push(a), b) == match expand_trait_args(args, b) {
            Err(e) => Err(e),
            Ok(v) => match expand_trait_arg(a, b) {
                Err(e) => Err(e),
                Ok(w) => Ok(v + w),
            },
        },
{
    let results = expanded_trait_args(args.push(a), b);
    assert(results.drop_last() =~= expanded_trait_args(args, b));
    assert(results.last() == expand_trait_arg(a, b));
    if collect(results) is Ok {
        let lists = collect(results)->Ok_0;
        assert(lists.drop_last() =~= collect(results.drop_last())->Ok_0);
    }
}

/// Among the generic arguments of a trait, an array in scope by itself becomes one argument for
/// each of its dimensions, a type is rewritten, and anything else is kept; what comes before is
/// unaffected by what follows.
pub proof fn law_trait_arguments_expand(args: Seq<ArgS>, a: ArgS, b: RankBindingsS)
    ensures
        expand_trait_args(seq![], b) == Ok::<Seq<ArgS>, ErrorS>(seq![]),
        expand_trait_args(args, b) matches Err(e) ==> expand_trait_args(args.push(a), b) == Err::<
            Seq<ArgS>,
            ErrorS,
        >(e),
        expand_trait_args(args, b) matches Ok(v) ==> match a {
            ArgS::Type(t) => if is_array_name(t, b) {
                let cga = b.inst_array[t->Path_0.segments[0].ident];
                expand_trait_args(args.push(a), b) matches Ok(w) && w.len() == v.len() + cga.length
                    && w.take(v.len() as int) == v && forall|i: int|
                    0 <= i < cga.length ==> #[trigger] w[v.len() + i] == ArgS::Type(
                        TypeS::Path(name_path(cga.name + seq!['_'] + decimal_text(i as nat))),
                    )
            } else {
                match rewrite_type(t, b) {
                    Ok(u) => expand_trait_args(args.push(a), b) == Ok::<Seq<ArgS>, ErrorS>(
                        v.push(ArgS::Type(u)),
                    ),
                    Err(e) => expand_trait_args(args.push(a), b) == Err::<Seq<ArgS>, ErrorS>(e),
                }
            },
            _ => expand_trait_args(args.push(a), b) == Ok::<Seq<ArgS>, ErrorS>(v.push(a)),
        },
{
    reveal_strlit("_");
    assert("_"@ =~= seq!['_']);
    assert(expanded_trait_args(seq![], b) =~= Seq::<Result<Seq<ArgS>, ErrorS>>::empty());
    lemma_trait_args_step(args, a, b);
    if let Ok(v) = expand_trait_args(args, b) {
        if let Ok(x) = expand_trait_arg(a, b) {
            let w = v + x;
            assert(w.take(v.len() as int) =~= v);
            assert forall|i: int| 0 <= i < x.len() implies #[trigger] w[v.len() + i] == x[i] by {}
            if x.len() == 1 {
                assert(w =~= v.push(x[0]));
            }
        }
    }
}

/// A type that is the bare name of an array in scope.
pub open spec fn is_array_name(t: TypeS, b: RankBindingsS) -> bool {
    t matches TypeS::Path(p) && !p.leading_colon && p.segments.len() == 1
        && p.segments[0].arguments is Empty && b.inst_array.contains_key(p.segments[0].ident)
}

// ---------------------------------------------------------------------------
// Functions and methods
// ---------------------------------------------------------------------------

/// The statements `r` are `body` with each of them specialised in its place; no name of an array
/// or a length in scope stands by itself in them, provided that no dimension has such a name.
pub open spec fn body_specialised(body: Seq<StmtS>, r: Seq<StmtS>, b: RankBindingsS) -> bool {
    &&& each_in_turn(body, |s: StmtS| visit_stmt(s, b), Ok(r))
    &&& dims_are_fresh(b) ==> !names_gone_stmts(r, b).contains(false)
}

proof fn lemma_body(body: Seq<StmtS>, b: RankBindingsS)
    ensures
        collect(visit_stmts(body, b)) matches Ok(r) ==> body_specialised(body, r, b),
        collect(visit_stmts(body, b)) matches Err(e) ==> body_refused(body, e, b),
{
    lemma_stmts(body, b);
    let step = |s: StmtS| visit_stmt(s, b);
    if let Err(e) = collect(visit_stmts(body, b)) {
        let i = choose|i: int|
            0 <= i < body.len() && step(#[trigger] body[i]) == Err::<StmtS, ErrorS>(e);
        assert(visit_stmt(body[i], b) == Err::<StmtS, ErrorS>(e));
    }
    if dims_are_fresh(b) {
        lemma_clear_stmts(body, b);
    }
}

/// A rewritten function has its signature rewritten and every statement of its body specialised.
pub proof fn law_function_is_specialised(f: ItemFnS, b: RankBindingsS)
    ensures
        rewrite_fn(f, b) matches Ok(g) ==> {
            &&& g.attrs == f.attrs
            &&& g.vis == f.vis
            &&& sig_rewritten(f.sig, g.sig, b)
            &&& body_specialised(f.body, g.body, b)
        },
        rewrite_fn(f, b) matches Err(e) ==> rewrite_sig(f.sig, b) == Err::<SignatureS, ErrorS>(e)
            || body_refused(f.body, e, b),
{
    law_signature_is_rewritten(f.sig, b);
    lemma_body(f.body, b);
}

/// A statement of `body` is refused with `e`.
pub open spec fn body_refused(body: Seq<StmtS>, e: ErrorS, b: RankBindingsS) -> bool {
    exists|i: int|
        0 <= i < body.len() && visit_stmt(#[trigger] body[i], b) == Err::<StmtS, ErrorS>(e)
}

/// The method `g` is `f` specialised: with the arrays that `f` declares in scope besides those of
/// `b`, its signature is rewritten and every statement of its body specialised.
pub open spec fn method_specialised(f: ImplItemFnS, g: ImplItemFnS, b: RankBindingsS) -> bool {
    &&& g.attrs == f.attrs
    &&& g.vis == f.vis
    &&& exists|inner: RankBindingsS|
        {
            &&& adds_arrays(
                b,
                var_cgas(f.sig.generics.params, f.sig.generics.params.len()),
                inner,
            )
            &&& #[trigger] sig_rewritten(f.sig, g.sig, inner)
            &&& body_specialised(f.body, g.body, inner)
        }
}

/// Why a method is refused.
pub open spec fn method_refused(f: ImplItemFnS, e: ErrorS, b: RankBindingsS) -> bool {
    let cgas = var_cgas(f.sig.generics.params, f.sig.generics.params.len());
    ||| exists|i: int|
        0 <= i < cgas.len() && !b.inst_u32.contains_key((#[trigger] cgas[i]).length_var)
    ||| exists|inner: RankBindingsS| #[trigger]
        adds_arrays(b, cgas, inner) && (rewrite_sig(f.sig, inner) == Err::<SignatureS, ErrorS>(e)
            || body_refused(f.body, e, inner))
}

/// A rewritten method has its signature rewritten and every statement of its body specialised,
/// with its own arrays in scope; it is refused only where the length of one of those is not bound,
/// or its signature or a statement is refused.
pub proof fn law_method_is_specialised(f: ImplItemFnS, b: RankBindingsS)
    ensures
        rewrite_method(f, b) matches Ok(g) ==> method_specialised(f, g, b),
        rewrite_method(f, b) matches Err(e) ==> method_refused(f, e, b),
{
    if let Err(e) = rewrite_method(f, b) {
        let cgas = var_cgas(f.sig.generics.params, f.sig.generics.params.len());
        law_arrays_come_into_scope(b, cgas);
        if let Ok(inner) = b.with_var_cgas(cgas, 0) {
            lemma_body(f.body, inner);
            assert(adds_arrays(b, cgas, inner));
        }
    }
    if let Ok(g) = rewrite_method(f, b) {
        let cgas = var_cgas(f.sig.generics.params, f.sig.generics.params.len());
        law_arrays_come_into_scope(b, cgas);
        let inner = b.with_var_cgas(cgas, 0)->Ok_0;
        law_signature_is_rewritten(f.sig, inner);
        lemma_body(f.body, inner);
        assert(sig_rewritten(f.sig, g.sig, inner));
    }
}

// ---------------------------------------------------------------------------
// Impl blocks and structs
// ---------------------------------------------------------------------------

/// The item `r` is `a` specialised: a method with its body, an associated type with its type
/// rewritten, a constant as it is.
pub open spec fn item_specialised(a: ImplItemS, r: ImplItemS, b: RankBindingsS) -> bool {
    match a {
        ImplItemS::Fn(f) => r matches ImplItemS::Fn(g) && method_specialised(f, g, b),
        ImplItemS::Type { head, ty, tail } => r matches ImplItemS::Type { head: h, ty: u, tail: t }
            && h == head && t == tail && rewrite_type(ty, b) == Ok::<TypeS, ErrorS>(u),
        ImplItemS::Const(_) => r == a,
        ImplItemS::Verbatim(_) => false,
    }
}

proof fn lemma_items_specialised(
    items: Seq<ImplItemS>,
    lists: Seq<Seq<ImplItemS>>,
    b: RankBindingsS,
    k: nat,
)
    requires
        k <= items.len(),
        lists.len() == items.len(),
        forall|i: int|
            0 <= i < items.len() ==> rewrite_impl_item(items[i], b) == Ok::<
                Seq<ImplItemS>,
                ErrorS,
            >(#[trigger] lists[i]),
    ensures
        concat(lists.take(k as int)).len() == single_rank_items(items, k).len(),
        forall|i: int|
            0 <= i < single_rank_items(items, k).len() ==> item_specialised(
                single_rank_items(items, k)[i],
                #[trigger] concat(lists.take(k as int))[i],
                b,
            ),
    decreases k,
{
    if k > 0 {
        lemma_items_specialised(items, lists, b, (k - 1) as nat);
        lemma_concat_step(lists, k - 1);
        assert(rewrite_impl_item(items[k - 1], b) == Ok::<Seq<ImplItemS>, ErrorS>(lists[k - 1]));
        if let ImplItemS::Fn(f) = items[k - 1] {
            law_method_is_specialised(f, b);
        }
        let before = concat(lists.take(k - 1));
        let after = concat(lists.take(k as int));
        assert(after == before + lists[k - 1]);
        assert forall|i: int| 0 <= i < single_rank_items(items, k).len() implies item_specialised(
            single_rank_items(items, k)[i],
            #[trigger] after[i],
            b,
        ) by {
            if i < before.len() {
                assert(after[i] == before[i]);
                assert(item_specialised(
                    single_rank_items(items, (k - 1) as nat)[i],
                    before[i],
                    b,
                ));
            } else {
                assert(after[i] == lists[k - 1][0]);
            }
        }
    } else {
        assert(lists.take(0) =~= Seq::<Seq<ImplItemS>>::empty());
    }
}

/// A rewritten impl block has its Self type, its generics and the arguments of its trait
/// rewritten, and each item that does not span several ranks specialised, bodies included.
pub proof fn law_impl_is_specialised(item: ItemImplS, b: RankBindingsS)
    ensures
        rewrite_impl_block(item, b) matches Ok(r) ==> {
            let kept = single_rank_items(item.items, item.items.len());
            &&& r.source == item.source
            &&& r.attrs == item.attrs
            &&& r.qualifiers == item.qualifiers
            &&& rewrite_type(item.self_ty, b) == Ok::<TypeS, ErrorS>(r.self_ty)
            &&& rewrite_generics(item.generics, b) == Ok::<GenericsS, ErrorS>(r.generics)
            &&& trait_rewritten(item.trait_path, r.trait_path, b)
            &&& r.items.len() == kept.len()
            &&& forall|i: int|
                0 <= i < kept.len() ==> item_specialised(kept[i], #[trigger] r.items[i], b)
        },
        rewrite_impl_block(item, b) matches Err(e) ==> {
            ||| rewrite_type(item.self_ty, b) == Err::<TypeS, ErrorS>(e)
            ||| rewrite_generics(item.generics, b) == Err::<GenericsS, ErrorS>(e)
            ||| rewrite_trait_path(item.trait_path, b) is Err
            ||| exists|i: int|
                0 <= i < item.items.len() && item_refused(#[trigger] item.items[i], e, b)
        },
{
    if rewrite_impl_block(item, b) is Err {
        lemma_item_refused(item.items, b);
    }
    if rewrite_impl_block(item, b) is Ok {
        lemma_trait_rewritten(item.trait_path, b);
        lemma_impl_items_specialised(item.items, b);
    }
}

/// Why an item of an impl block is refused: a method or the type of an associated type is, or it
/// is none of these and no constant.
pub open spec fn item_refused(a: ImplItemS, e: ErrorS, b: RankBindingsS) -> bool {
    match a {
        ImplItemS::Fn(f) => !f.variadic && method_refused(f, e, b),
        ImplItemS::Type { ty, .. } => rewrite_type(ty, b) == Err::<TypeS, ErrorS>(e),
        ImplItemS::Const(_) => false,
        ImplItemS::Verbatim(_) => true,
    }
}

proof fn lemma_item_refused(items: Seq<ImplItemS>, b: RankBindingsS)
    ensures
        collect(rewritten_impl_items(items, b)) matches Err(e) ==> exists|i: int|
            0 <= i < items.len() && item_refused(#[trigger] items[i], e, b),
{
    let results = rewritten_impl_items(items, b);
    lemma_collect(results);
    if let Err(e) = collect(results) {
        let i = choose|i: int|
            0 <= i < results.len() && #[trigger] results[i] == Err::<Seq<ImplItemS>, ErrorS>(e);
        assert(rewrite_impl_item(items[i], b) == Err::<Seq<ImplItemS>, ErrorS>(e));
        if let ImplItemS::Fn(f) = items[i] {
            law_method_is_specialised(f, b);
        }
        assert(item_refused(items[i], e, b));
    }
}

proof fn lemma_impl_items_specialised(items: Seq<ImplItemS>, b: RankBindingsS)
    ensures
        collect(rewritten_impl_items(items, b)) matches Ok(lists) ==> {
            let kept = single_rank_items(items, items.len());
            &&& concat(lists).len() == kept.len()
            &&& forall|i: int|
                0 <= i < kept.len() ==> item_specialised(kept[i], #[trigger] concat(lists)[i], b)
        },
{
    let results = rewritten_impl_items(items, b);
    lemma_collect(results);
    if let Ok(lists) = collect(results) {
        assert forall|i: int| 0 <= i < items.len() implies rewrite_impl_item(items[i], b) == Ok::<
            Seq<ImplItemS>,
            ErrorS,
        >(#[trigger] lists[i]) by {
            assert(results[i] == Ok::<Seq<ImplItemS>, ErrorS>(lists[i]));
        }
        lemma_items_specialised(items, lists, b, items.len());
        assert(lists.take(items.len() as int) =~= lists);
    }
}

proof fn lemma_trait_rewritten(p: Option<PathS>, b: RankBindingsS)
    ensures
        rewrite_trait_path(p, b) matches Ok(r) ==> trait_rewritten(p, r, b),
{
    if let Ok(r) = rewrite_trait_path(p, b) {
        if let Some(p) = p {
            let q = r->Some_0;
            assert(q.segments.drop_last() =~= p.segments.drop_last());
        }
    }
}

/// The trait that an impl block is for keeps its name; only the generic arguments of its last
/// segment are expanded.
pub open spec fn trait_rewritten(p: Option<PathS>, r: Option<PathS>, b: RankBindingsS) -> bool {
    match p {
        None => r is None,
        Some(p) => r matches Some(q) && p.segments.len() > 0 && q.segments.len() == p.segments.len()
            && q.qself == p.qself && q.leading_colon == p.leading_colon && q.segments.drop_last()
            == p.segments.drop_last() && q.segments.last().ident == p.segments.last().ident
            && match p.segments.last().arguments {
            ArgumentsS::AngleBracketed { turbofish, args } => match q.segments.last().arguments {
                ArgumentsS::AngleBracketed { turbofish: t, args: to } => t == turbofish
                    && expand_trait_args(args, b) == Ok::<Seq<ArgS>, ErrorS>(to),
                _ => false,
            },
            _ => q.segments.last().arguments == p.segments.last().arguments,
        },
    }
}

/// In the copy of an impl block for a combination of lengths, every item that does not span
/// several ranks is specialised at those lengths, method bodies included, and there are no others.
pub proof fn law_impl_copy_is_specialised(attributes: MetaS, item: ItemImplS, i: int)
    requires
        impl_variants(attributes, item) is Ok,
        0 <= i < impl_variants(attributes, item)->Ok_0.len(),
    ensures
        length_space(attributes, impl_cgas(item)) matches Ok(space) && {
            let copy = impl_variants(attributes, item)->Ok_0[i];
            let lengths = item_at(i as nat, space.lengths, length_vars(impl_cgas(item)));
            let kept = single_rank_items(item.items, item.items.len());
            RankBindingsS::from_variadic(lengths, impl_cgas(item)) matches Ok(b) && {
                &&& rewrite_type(item.self_ty, b) == Ok::<TypeS, ErrorS>(copy.self_ty)
                &&& rewrite_generics(item.generics, b) == Ok::<GenericsS, ErrorS>(copy.generics)
                &&& trait_rewritten(item.trait_path, copy.trait_path, b)
                &&& copy.items.len() == kept.len()
                &&& forall|k: int|
                    0 <= k < kept.len() ==> item_specialised(kept[k], #[trigger] copy.items[k], b)
            }
        },
{
    law_one_impl_per_combination(attributes, item, i);
    let space = length_space(attributes, impl_cgas(item))->Ok_0;
    let lengths = item_at(i as nat, space.lengths, length_vars(impl_cgas(item)));
    let b = RankBindingsS::from_variadic(lengths, impl_cgas(item))->Ok_0;
    law_impl_is_specialised(item, b);
}

/// A rewritten struct keeps its name and the names of its fields; the type of each field is
/// rewritten, and so are its generics where it is made for one rank.
pub proof fn law_struct_is_specialised(s: ItemStructS, b: RankBindingsS)
    ensures
        rewrite_struct_fields(s, b) matches Ok(r) ==> r.generics == s.generics && struct_frame(
            s,
            r,
            b,
        ),
        struct_for_rank(s, b) matches Ok(r) ==> rewrite_generics(s.generics, b) == Ok::<
            GenericsS,
            ErrorS,
        >(r.generics) && struct_frame(s, r, b),
{
    let results = rewritten_fields(s.fields, b);
    lemma_collect(results);
    if let Ok(fields) = collect(results) {
        assert forall|i: int| 0 <= i < s.fields.len() implies field_rewritten(
            s.fields[i],
            #[trigger] fields[i],
            b,
        ) by {
            assert(results[i] == Ok::<FieldS, ErrorS>(fields[i]));
        }
    }
}

pub open spec fn field_rewritten(f: FieldS, r: FieldS, b: RankBindingsS) -> bool {
    r.prefix == f.prefix && r.ident == f.ident && rewrite_type(f.ty, b) == Ok::<TypeS, ErrorS>(r.ty)
}

pub open spec fn struct_frame(s: ItemStructS, r: ItemStructS, b: RankBindingsS) -> bool {
    &&& r.attrs == s.attrs
    &&& r.vis == s.vis
    &&& r.ident == s.ident
    &&& r.style == s.style
    &&& r.fields.len() == s.fields.len()
    &&& forall|i: int|
        0 <= i < s.fields.len() ==> field_rewritten(s.fields[i], #[trigger] r.fields[i], b)
}

} // verus!
