//! What holds of shadow traits, and of the impls that are made for them.
use super::lifetimes::{bound, uses_lifetime};
use super::op_laws::lemma_first_cga;
use super::ranks::{combos, declared_cgas, CgaInfoS, MAX_RANK, RankComboS};
use super::type_laws::{is_array_arg, lemma_arg_cga};
use super::types::{arg_name, first_cga, rank_type, references};
use super::variadic_traits::{
    all_args, all_returns, attr_texts, bound_count, bound_names, classify, declares_cga,
    desugar_impl, desugar_trait, erase_arg, erase_items, erase_sig, first_mention, first_use,
    impl_instance, impl_instances, impl_plan, impl_sigs, in_types, instance_generics,
    instance_items, instance_sig, needs_recv_lifetime, other_attrs, other_params, out_binding,
    shadow_generics, shadow_trait, trait_ref_arg, trait_ref_path, trait_shape, trait_sigs, typed,
    uses_cga, CgaRoleS, ImplPlanS, RankPolyShapeS,
};
use crate::ast::{ArgS, ArgumentsS, PathS, TypeS};
use crate::items::{
    where_text, AttributeS, FnArgS, GenericParamS, ImplItemS, ItemImplS, ItemTraitS, SignatureS,
    TraitItemS,
};
use crate::print::{angle_text, path_text, type_text};
use crate::rank_instantiation::laws::law_decimal_is_injective;
use crate::rank_instantiation::types::name_path;
use crate::text::{decimal_text, join_text, Text};
use vstd::prelude::*;

verus! {

// ---------------------------------------------------------------------------
// Which methods and types there are
// ---------------------------------------------------------------------------

/// The type of an argument that is no receiver.
pub open spec fn given_type(a: FnArgS) -> Seq<TypeS> {
    match a {
        FnArgS::Typed { pat: _, ty } => seq![ty],
        FnArgS::Receiver(_) => seq![],
    }
}

proof fn lemma_typed(inputs: Seq<FnArgS>, k: nat)
    requires
        k <= inputs.len(),
    ensures
        typed(inputs, k) == inputs.take(k as int).fold_left(
            Seq::<TypeS>::empty(),
            |v: Seq<TypeS>, a: FnArgS| v + given_type(a),
        ),
    decreases k,
{
    let step = |v: Seq<TypeS>, a: FnArgS| v + given_type(a);
    if k > 0 {
        lemma_typed(inputs, (k - 1) as nat);
        assert(inputs.take(k as int).drop_last() =~= inputs.take(k - 1));
        assert(inputs.take(k as int).last() == inputs[k - 1]);
        let before = typed(inputs, (k - 1) as nat);
        match inputs[k - 1] {
            FnArgS::Typed { pat, ty } => {
                assert(before + seq![ty] =~= before.push(ty));
            },
            FnArgS::Receiver(_) => {
                assert(before + Seq::<TypeS>::empty() =~= before);
            },
        }
    }
}

/// The types of all arguments are those of each method in turn, receivers apart.
pub proof fn law_argument_types_are_gathered(sigs: Seq<SignatureS>, s: SignatureS)
    ensures
        all_args(seq![], 0) == Seq::<TypeS>::empty(),
        all_args(sigs.push(s), sigs.len() + 1) == all_args(sigs, sigs.len()) + s.inputs.fold_left(
            Seq::<TypeS>::empty(),
            |v: Seq<TypeS>, a: FnArgS| v + given_type(a),
        ),
        all_returns(sigs.push(s), sigs.len() + 1) == match s.output {
            Some(t) => all_returns(sigs, sigs.len()).push(t),
            None => all_returns(sigs, sigs.len()),
        },
{
    lemma_typed(s.inputs, s.inputs.len());
    assert(s.inputs.take(s.inputs.len() as int) =~= s.inputs);
    lemma_prefix(sigs, s, sigs.len());
}

proof fn lemma_prefix(sigs: Seq<SignatureS>, s: SignatureS, k: nat)
    requires
        k <= sigs.len(),
    ensures
        all_args(sigs.push(s), k) == all_args(sigs, k),
        all_returns(sigs.push(s), k) == all_returns(sigs, k),
    decreases k,
{
    if k > 0 {
        lemma_prefix(sigs, s, (k - 1) as nat);
        assert(sigs.push(s)[k - 1] == sigs[k - 1]);
    }
}

/// A type among `types` mentions `name`.
pub open spec fn is_mentioned(types: Seq<TypeS>, name: Text) -> bool {
    exists|i: int| 0 <= i < types.len() && references(#[trigger] types[i], name)
}

/// An array is bound if an argument mentions it, and free otherwise. The bound ones have generics
/// of different names, `Sh0`, `Sh1`, … in the order of their declaration, and there are no more
/// generics than that. A shape has a free array exactly if one is free, and a return type with an
/// array exactly if one mentions an array.
pub proof fn law_shape_is_classified(
    cgas: Seq<CgaInfoS>,
    args: Seq<TypeS>,
    outputs: Seq<TypeS>,
    i: int,
    j: int,
)
    requires
        0 <= i < j < cgas.len(),
    ensures
        ({
            let shape = classify(cgas, args, outputs);
            &&& shape.roles[i] is ShapeBound <==> is_mentioned(args, cgas[i].cga_ident)
            &&& shape.roles[j] is ShapeBound <==> is_mentioned(args, cgas[j].cga_ident)
            &&& shape.roles[i] is ShapeBound && shape.roles[j] is ShapeBound ==> exists|a: nat, b: nat|
                a < b && b < shape.sh_idents.len() && shape.roles[i]->sh_ident == "Sh"@
                    + #[trigger] decimal_text(a) && shape.roles[j]->sh_ident == "Sh"@
                    + #[trigger] decimal_text(b) && shape.roles[i]->sh_ident
                    != shape.roles[j]->sh_ident
            &&& forall|k: int|
                0 <= k < shape.sh_idents.len() ==> #[trigger] shape.sh_idents[k] == "Sh"@
                    + decimal_text(k as nat)
            &&& shape.sh_idents.len() <= cgas.len()
            &&& shape.has_free_cga <==> exists|k: int|
                0 <= k < cgas.len() && !is_mentioned(args, (#[trigger] cgas[k]).cga_ident)
            &&& shape.any_return_uses_cga <==> exists|k: int|
                0 <= k < outputs.len() && mentions_array(#[trigger] outputs[k], cgas)
        }),
{
    let shape = classify(cgas, args, outputs);
    assert forall|name: Text| #[trigger] in_types(args, name) == is_mentioned(args, name) by {}
    lemma_bound_counts(cgas, args, i as nat, j as nat);
    lemma_bound_counts(cgas, args, j as nat, cgas.len());
    if shape.roles[i] is ShapeBound && shape.roles[j] is ShapeBound {
        let a = bound_count(cgas, args, i as nat);
        let b = bound_count(cgas, args, j as nat);
        let head = "Sh"@;
        let x = head + decimal_text(a);
        let y = head + decimal_text(b);
        if x == y {
            assert(decimal_text(a) =~= x.skip(head.len() as int));
            assert(decimal_text(b) =~= y.skip(head.len() as int));
            law_decimal_is_injective(a, b);
        }
    }
    assert forall|t: TypeS| #[trigger] uses_cga(t, cgas) == mentions_array(t, cgas) by {
        lemma_first_cga(cgas, t, 0);
        if let Some(k) = first_cga(cgas, t, 0) {
            assert(references(t, cgas[k as int].cga_ident));
        }
    }
    if shape.has_free_cga {
        let k = choose|k: int|
            0 <= k < cgas.len() && !in_types(args, (#[trigger] cgas[k]).cga_ident);
        assert(!is_mentioned(args, cgas[k].cga_ident));
    }
    if exists|k: int| 0 <= k < cgas.len() && !is_mentioned(args, (#[trigger] cgas[k]).cga_ident) {
        let k = choose|k: int|
            0 <= k < cgas.len() && !is_mentioned(args, (#[trigger] cgas[k]).cga_ident);
        assert(!in_types(args, cgas[k].cga_ident));
    }
    if shape.any_return_uses_cga {
        let k = choose|k: int| 0 <= k < outputs.len() && uses_cga(#[trigger] outputs[k], cgas);
        assert(mentions_array(outputs[k], cgas));
    }
    if exists|k: int| 0 <= k < outputs.len() && mentions_array(#[trigger] outputs[k], cgas) {
        let k = choose|k: int| 0 <= k < outputs.len() && mentions_array(#[trigger] outputs[k], cgas);
        assert(uses_cga(outputs[k], cgas));
    }
}

proof fn lemma_bound_counts(cgas: Seq<CgaInfoS>, args: Seq<TypeS>, i: nat, j: nat)
    requires
        i < j <= cgas.len(),
    ensures
        bound_count(cgas, args, i) <= bound_count(cgas, args, j) <= j,
        in_types(args, cgas[i as int].cga_ident) ==> bound_count(cgas, args, i) < bound_count(
            cgas,
            args,
            j,
        ),
    decreases j,
{
    if i + 1 < j {
        lemma_bound_counts(cgas, args, i, (j - 1) as nat);
    } else {
        lemma_bound_small(cgas, args, i);
    }
}

proof fn lemma_bound_small(cgas: Seq<CgaInfoS>, args: Seq<TypeS>, k: nat)
    ensures
        bound_count(cgas, args, k) <= k,
    decreases k,
{
    if k > 0 {
        lemma_bound_small(cgas, args, (k - 1) as nat);
    }
}

// ---------------------------------------------------------------------------
// The trait
// ---------------------------------------------------------------------------

/// The argument `r` of the shadow trait stands for `a`: one whose first array is bound by the
/// arguments has that array's generic for a type; anything else is kept.
pub open spec fn arg_erased(a: FnArgS, r: FnArgS, cgas: Seq<CgaInfoS>, shape: RankPolyShapeS) -> bool {
    match a {
        FnArgS::Receiver(_) => r == a,
        FnArgS::Typed { pat, ty } => r matches FnArgS::Typed { pat: q, ty: u } && q == pat && {
            &&& (forall|i: int| 0 <= i < cgas.len() ==> !references(ty, (#[trigger] cgas[i]).cga_ident))
                ==> u == ty
            &&& forall|i: int|
                0 <= i < cgas.len() && references(ty, (#[trigger] cgas[i]).cga_ident) && (forall|
                    j: int,
                |
                    0 <= j < i ==> !references(ty, (#[trigger] cgas[j]).cga_ident)) ==> u
                    == match shape.roles[i] {
                    CgaRoleS::ShapeBound { sh_ident } => TypeS::Path(name_path(sh_ident)),
                    CgaRoleS::Free => ty,
                }
        },
    }
}

/// A method of the shadow trait is the method with the types of its arguments erased, and so is
/// its return type where it mentions an array: to the generic `Out` if an array is free, and to
/// the associated type `Out` otherwise. Everything else about it is kept.
pub proof fn law_method_is_erased(s: SignatureS, cgas: Seq<CgaInfoS>, shape: RankPolyShapeS)
    ensures
        ({
            let r = erase_sig(s, cgas, shape);
            &&& r.ident == s.ident
            &&& r.qualifiers == s.qualifiers
            &&& r.is_unsafe == s.is_unsafe
            &&& r.generics == s.generics
            &&& r.inputs.len() == s.inputs.len()
            &&& forall|i: int|
                0 <= i < s.inputs.len() ==> arg_erased(s.inputs[i], #[trigger] r.inputs[i], cgas, shape)
            &&& s.output is None ==> r.output is None
            &&& s.output matches Some(t) ==> if exists|i: int|
                0 <= i < cgas.len() && references(t, (#[trigger] cgas[i]).cga_ident) {
                if shape.has_free_cga {
                    r.output matches Some(u) && type_text(u) == "Out"@
                } else {
                    r.output matches Some(u) && type_text(u) == "Self :: Out"@
                }
            } else {
                r.output == s.output
            }
        }),
{
    let r = erase_sig(s, cgas, shape);
    assert forall|i: int| 0 <= i < s.inputs.len() implies arg_erased(
        s.inputs[i],
        #[trigger] r.inputs[i],
        cgas,
        shape,
    ) by {
        assert(r.inputs[i] == erase_arg(s.inputs[i], cgas, shape));
        if let FnArgS::Typed { pat, ty } = s.inputs[i] {
            lemma_first_cga(cgas, ty, 0);
            if let Some(k) = first_cga(cgas, ty, 0) {
                assert(references(ty, cgas[k as int].cga_ident));
                assert forall|i: int|
                    0 <= i < cgas.len() && references(ty, (#[trigger] cgas[i]).cga_ident) && (
                    forall|j: int|
                        0 <= j < i ==> !references(ty, (#[trigger] cgas[j]).cga_ident)) implies i
                    == k by {
                    if k < i {
                        assert(!references(ty, cgas[k as int].cga_ident));
                    }
                }
            }
        }
    }
    if let Some(t) = s.output {
        lemma_first_cga(cgas, t, 0);
        if let Some(k) = first_cga(cgas, t, 0) {
            assert(references(t, cgas[k as int].cga_ident));
        }
        super::dispatch_laws::lemma_name_text("Out"@);
        lemma_self_out_text();
    }
}

proof fn lemma_self_out_text()
    ensures
        type_text(super::variadic_traits::self_out()) == "Self :: Out"@,
{
    let p = super::variadic_traits::self_out()->Path_0;
    let texts = crate::print::segments_texts(p.segments, false);
    assert(texts.len() == 2);
    assert(texts[0] == crate::print::segment_text(p.segments[0], false));
    assert(texts[1] == crate::print::segment_text(p.segments[1], false));
    reveal_strlit("");
    assert(texts[0] =~= "Self"@);
    assert(texts[1] =~= "Out"@);
    assert(texts.drop_last() =~= seq!["Self"@]);
    assert(join_text(texts.drop_last(), " :: "@) == "Self"@);
    assert(join_text(texts, " :: "@) == "Self"@ + " :: "@ + "Out"@);
    reveal_strlit("Self");
    reveal_strlit(" :: ");
    reveal_strlit("Out");
    reveal_strlit("Self :: Out");
    assert(path_text(p, false) =~= "Self :: Out"@);
}

proof fn lemma_other_attrs(attrs: Seq<AttributeS>, k: nat)
    requires
        k <= attrs.len(),
    ensures
        other_attrs(attrs, k) == attrs.take(k as int).filter(
            |a: AttributeS| a.root != Some("cuda_tile"@),
        ).map_values(|a: AttributeS| a.source),
    decreases k,
{
    reveal(Seq::filter);
    let pick = |a: AttributeS| a.root != Some("cuda_tile"@);
    let text = |a: AttributeS| a.source;
    if k > 0 {
        lemma_other_attrs(attrs, (k - 1) as nat);
        assert(attrs.take(k as int).drop_last() =~= attrs.take(k - 1));
        let before = attrs.take(k - 1).filter(pick);
        if pick(attrs[k - 1]) {
            assert(before.push(attrs[k - 1]).map_values(text) =~= before.map_values(text).push(
                attrs[k - 1].source,
            ));
        }
    } else {
        assert(attrs.take(0).filter(pick).map_values(text) =~= Seq::<Text>::empty());
    }
}

proof fn lemma_other_params(params: Seq<GenericParamS>, cgas: Seq<CgaInfoS>, k: nat)
    requires
        k <= params.len(),
    ensures
        other_params(params, cgas, k) == params.take(k as int).filter(
            |p: GenericParamS| !declares_cga(p, cgas),
        ).map_values(|p: GenericParamS| p.text()),
    decreases k,
{
    reveal(Seq::filter);
    let pick = |p: GenericParamS| !declares_cga(p, cgas);
    let text = |p: GenericParamS| p.text();
    if k > 0 {
        lemma_other_params(params, cgas, (k - 1) as nat);
        assert(params.take(k as int).drop_last() =~= params.take(k - 1));
        let before = params.take(k - 1).filter(pick);
        if pick(params[k - 1]) {
            assert(before.push(params[k - 1]).map_values(text) =~= before.map_values(text).push(
                params[k - 1].text(),
            ));
        }
    } else {
        assert(params.take(0).filter(pick).map_values(text) =~= Seq::<Text>::empty());
    }
}

/// The attributes of the macros themselves are dropped, and so are the parameters that declare
/// arrays; all other attributes and parameters stay, in their order.
pub proof fn law_own_attributes_and_arrays_are_dropped(
    attrs: Seq<AttributeS>,
    params: Seq<GenericParamS>,
    cgas: Seq<CgaInfoS>,
)
    ensures
        other_attrs(attrs, attrs.len()) == attrs.filter(
            |a: AttributeS| a.root != Some("cuda_tile"@),
        ).map_values(|a: AttributeS| a.source),
        other_params(params, cgas, params.len()) == params.filter(
            |p: GenericParamS| !declares_cga(p, cgas),
        ).map_values(|p: GenericParamS| p.text()),
{
    lemma_other_attrs(attrs, attrs.len());
    lemma_other_params(params, cgas, params.len());
    assert(attrs.take(attrs.len() as int) =~= attrs);
    assert(params.take(params.len() as int) =~= params);
}

/// The shadow trait has the parameters that declare no array, a generic for each array that an
/// argument binds, and `Out` if a return type mentions an array while one is free; where none is
/// free it has an associated type instead. Its methods stand in their order.
pub proof fn law_shadow_trait_text(item: ItemTraitS, cgas: Seq<CgaInfoS>)
    ensures
        ({
            let shape = trait_shape(item, cgas);
            let own = other_params(item.generics.params, cgas, item.generics.params.len());
            let out = shape.any_return_uses_cga;
            &&& shadow_generics(item, cgas, shape) == if out && shape.has_free_cga {
                own + shape.sh_idents + seq!["Out"@]
            } else {
                own + shape.sh_idents + seq![]
            }
            &&& erase_items(item.items, cgas, shape).len() == item.items.len()
            &&& forall|i: int|
                0 <= i < item.items.len() ==> #[trigger] erase_items(item.items, cgas, shape)[i]
                    == match item.items[i] {
                    TraitItemS::Fn { attrs, sig, body } => join_text(
                        Seq::new(attrs.len(), |k: int| attrs[k].source),
                        " "@,
                    ) + " "@ + erase_sig(sig, cgas, shape).text() + " "@ + body,
                    TraitItemS::Verbatim(t) => t,
                }
            &&& shadow_trait(item, cgas) == join_text(other_attrs(item.attrs, item.attrs.len()), " "@)
                + " #[allow(non_camel_case_types)] "@ + item.vis + " trait "@ + item.ident + " "@
                + angle_text(shadow_generics(item, cgas, shape)) + (if item.supertraits.len() == 0 {
                ""@
            } else {
                " : "@ + item.supertraits
            }) + where_text(item.generics.where_clause) + (" { "@ + (if out && !shape.has_free_cga {
                "type Out; "@
            } else {
                ""@
            }) + join_text(erase_items(item.items, cgas, shape), " "@) + " }"@)
        }),
{
    let shape = trait_shape(item, cgas);
    assert forall|i: int| 0 <= i < item.items.len() implies #[trigger] erase_items(
        item.items,
        cgas,
        shape,
    )[i] == match item.items[i] {
        TraitItemS::Fn { attrs, sig, body } => join_text(
            Seq::new(attrs.len(), |k: int| attrs[k].source),
            " "@,
        ) + " "@ + erase_sig(sig, cgas, shape).text() + " "@ + body,
        TraitItemS::Verbatim(t) => t,
    } by {
        if let TraitItemS::Fn { attrs, sig, body } = item.items[i] {
            assert(attr_texts(attrs) =~= Seq::new(attrs.len(), |k: int| attrs[k].source));
        }
    }
}

// ---------------------------------------------------------------------------
// Impls
// ---------------------------------------------------------------------------

proof fn lemma_first_mention(types: Seq<TypeS>, name: Text, i: nat)
    requires
        i <= types.len(),
        forall|j: int| 0 <= j < i ==> !references(#[trigger] types[j], name),
    ensures
        is_first(types, |t: TypeS| references(t, name), first_mention(types, name, i)),
    decreases types.len() - i,
{
    let pick = |t: TypeS| references(t, name);
    if i < types.len() {
        if references(types[i as int], name) {
            assert(pick(types[i as int]));
        } else {
            lemma_first_mention(types, name, i + 1);
        }
    }
}

proof fn lemma_first_use(types: Seq<TypeS>, cgas: Seq<CgaInfoS>, i: nat)
    requires
        i <= types.len(),
        forall|j: int| 0 <= j < i ==> !uses_cga(#[trigger] types[j], cgas),
    ensures
        is_first(types, |t: TypeS| mentions_array(t, cgas), first_use(types, cgas, i)),
    decreases types.len() - i,
{
    let pick = |t: TypeS| mentions_array(t, cgas);
    assert forall|t: TypeS| #[trigger] uses_cga(t, cgas) == mentions_array(t, cgas) by {
        lemma_first_cga(cgas, t, 0);
        if let Some(k) = first_cga(cgas, t, 0) {
            assert(references(t, cgas[k as int].cga_ident));
        }
    }
    if i < types.len() {
        if uses_cga(types[i as int], cgas) {
            assert(pick(types[i as int]));
            assert forall|j: int| 0 <= j < i implies !pick(#[trigger] types[j]) by {
                assert(!uses_cga(types[j], cgas));
            }
        } else {
            lemma_first_use(types, cgas, i + 1);
        }
    } else {
        assert forall|j: int| 0 <= j < types.len() implies !pick(#[trigger] types[j]) by {
            assert(!uses_cga(types[j], cgas));
        }
    }
}

/// A type that mentions one of the arrays.
pub open spec fn mentions_array(t: TypeS, cgas: Seq<CgaInfoS>) -> bool {
    exists|i: int| 0 <= i < cgas.len() && references(t, (#[trigger] cgas[i]).cga_ident)
}

/// The first of `types` that `pick` picks.
pub open spec fn is_first(types: Seq<TypeS>, pick: spec_fn(TypeS) -> bool, first: Option<TypeS>) -> bool {
    match first {
        None => forall|i: int| 0 <= i < types.len() ==> !pick(#[trigger] types[i]),
        Some(t) => exists|i: int|
            0 <= i < types.len() && (#[trigger] types[i]) == t && pick(t) && forall|j: int|
                0 <= j < i ==> !pick(#[trigger] types[j]),
    }
}

/// The plan for an impl has for each array the type of the first argument that mentions it, over
/// all methods, and the first return type that mentions an array; its shape is that of its
/// methods.
pub proof fn law_plan_takes_first_mentions(item: ItemImplS, cgas: Seq<CgaInfoS>, i: int)
    requires
        0 <= i < cgas.len(),
    ensures
        ({
            let sigs = impl_sigs(item.items, item.items.len());
            let args = all_args(sigs, sigs.len());
            let outputs = all_returns(sigs, sigs.len());
            let plan = impl_plan(item, cgas);
            &&& plan.cgas == cgas
            &&& plan.shape == classify(cgas, args, outputs)
            &&& plan.shape_types.len() == cgas.len()
            &&& is_first(args, |t: TypeS| references(t, cgas[i].cga_ident), plan.shape_types[i])
            &&& is_first(outputs, |t: TypeS| mentions_array(t, cgas), plan.out_type)
        }),
{
    let sigs = impl_sigs(item.items, item.items.len());
    lemma_first_mention(all_args(sigs, sigs.len()), cgas[i].cga_ident, 0);
    lemma_first_use(all_returns(sigs, sigs.len()), cgas, 0);
}

/// In the trait that an impl is for, an array by itself gives way to the type of the arguments
/// that mention it, or to the return type if it is free, with its anonymous lifetimes bound;
/// everything else about the path is kept.
pub proof fn law_trait_reference_is_filled_in(p: PathS, plan: ImplPlanS, c: RankComboS, turbofish: bool, args: Seq<ArgS>)
    requires
        p.segments.len() > 0,
        p.segments.last().arguments == (ArgumentsS::AngleBracketed { turbofish, args }),
        plan.cgas == c.cgas,
    ensures
        ({
            let q = trait_ref_path(p, plan, c);
            &&& q.qself == p.qself
            &&& q.leading_colon == p.leading_colon
            &&& q.segments.len() == p.segments.len()
            &&& q.segments.drop_last() == p.segments.drop_last()
            &&& q.segments.last().ident == p.segments.last().ident
            &&& match q.segments.last().arguments {
                ArgumentsS::AngleBracketed { turbofish: u, args: to } => u == turbofish && to.len()
                    == args.len() && forall|k: int|
                    0 <= k < args.len() ==> arg_filled_in(args[k], #[trigger] to[k], plan, c),
                _ => false,
            }
        }),
{
    let q = trait_ref_path(p, plan, c);
    assert(q.segments.drop_last() =~= p.segments.drop_last());
    let to = Seq::new(args.len(), |i: int| trait_ref_arg(args[i], plan, c));
    assert(q.segments.last().arguments == (ArgumentsS::AngleBracketed { turbofish, args: to }));
    assert forall|k: int| 0 <= k < args.len() implies arg_filled_in(
        args[k],
        #[trigger] to[k],
        plan,
        c,
    ) by {
        lemma_arg_cga(args[k], c);
    }
}

/// The argument `r` of a trait reference is `a` filled in.
pub open spec fn arg_filled_in(a: ArgS, r: ArgS, plan: ImplPlanS, c: RankComboS) -> bool {
    if is_array_arg(a, c) {
        exists|i: int|
            0 <= i < c.cgas.len() && arg_name(a) == Some((#[trigger] c.cgas[i]).cga_ident) && {
                let given = match plan.shape.roles[i] {
                    CgaRoleS::ShapeBound { .. } => plan.shape_types[i],
                    CgaRoleS::Free => plan.out_type,
                };
                match given {
                    Some(t) => r == ArgS::Type(bound(rank_type(t, c), "__td_recv"@)),
                    None => r == a,
                }
            }
    } else {
        r == a
    }
}

/// In an impl every typed argument and the return type are put at their ranks, with their
/// anonymous lifetimes bound; so an argument has the very type that the trait reference has in
/// its array's place. Receivers and everything else about a method are kept.
pub proof fn law_instance_method_types(s: SignatureS, c: RankComboS)
    ensures
        ({
            let r = instance_sig(s, c);
            &&& r.ident == s.ident
            &&& r.qualifiers == s.qualifiers
            &&& r.is_unsafe == s.is_unsafe
            &&& r.generics == s.generics
            &&& r.inputs.len() == s.inputs.len()
            &&& forall|i: int|
                0 <= i < s.inputs.len() ==> match s.inputs[i] {
                    FnArgS::Receiver(_) => #[trigger] r.inputs[i] == s.inputs[i],
                    FnArgS::Typed { pat, ty } => r.inputs[i] == (FnArgS::Typed {
                        pat,
                        ty: bound(rank_type(ty, c), "__td_recv"@),
                    }),
                }
            &&& r.output == match s.output {
                Some(t) => Some(bound(rank_type(t, c), "__td_recv"@)),
                None => None,
            }
        }),
{
}

/// An impl declares the lifetime of its receiver exactly if one of the types that it fills in, or
/// its Self type, has a place for one; it declares the parameters that declare no array, and a
/// constant for each dimension. It defines `Out` exactly if no array is free and a return type
/// mentions one.
pub proof fn law_instance_declarations(item: ItemImplS, plan: ImplPlanS, c: RankComboS)
    ensures
        ({
            let own = other_params(item.generics.params, plan.cgas, item.generics.params.len());
            let has_lifetime = uses_lifetime(item.self_ty) || (plan.out_type matches Some(t)
                && uses_lifetime(t)) || exists|i: int|
                0 <= i < plan.shape_types.len() && (#[trigger] plan.shape_types[i] matches Some(t)
                    && uses_lifetime(t));
            &&& has_lifetime ==> instance_generics(item, plan, c) == seq!["'"@ + "__td_recv"@] + own
                + c.dim_params()
            &&& !has_lifetime ==> instance_generics(item, plan, c) == own + c.dim_params()
            &&& out_binding(plan, c) == if plan.out_type is Some && !plan.shape.has_free_cga {
                "type Out = "@ + type_text(bound(rank_type(plan.out_type->Some_0, c), "__td_recv"@))
                    + "; "@
            } else {
                ""@
            }
        }),
{
    let own = other_params(item.generics.params, plan.cgas, item.generics.params.len());
    assert(seq![] + own =~= own);
    if needs_recv_lifetime(plan, item.self_ty) {
        if exists|i: int|
            0 <= i < plan.shape_types.len() && super::variadic_traits::opt_uses_lifetime(
                #[trigger] plan.shape_types[i],
            ) {
            let i = choose|i: int|
                0 <= i < plan.shape_types.len() && super::variadic_traits::opt_uses_lifetime(
                    #[trigger] plan.shape_types[i],
                );
            assert(plan.shape_types[i] matches Some(t) && uses_lifetime(t));
        }
    } else {
        assert forall|i: int| 0 <= i < plan.shape_types.len() implies !(
        #[trigger] plan.shape_types[i] matches Some(t) && uses_lifetime(t)) by {
            assert(!super::variadic_traits::opt_uses_lifetime(plan.shape_types[i]));
        }
    }
}

/// The names that the arguments of a method bind.
pub open spec fn bound_name(a: FnArgS) -> Option<Text> {
    match a {
        FnArgS::Typed { pat, ty: _ } => pat.ident,
        FnArgS::Receiver(_) => None,
    }
}

proof fn lemma_bound_names(inputs: Seq<FnArgS>, k: nat)
    requires
        k <= inputs.len(),
    ensures
        bound_names(inputs, k) == inputs.take(k as int).filter(
            |a: FnArgS| bound_name(a) is Some,
        ).map_values(|a: FnArgS| bound_name(a)->Some_0),
    decreases k,
{
    reveal(Seq::filter);
    let pick = |a: FnArgS| bound_name(a) is Some;
    let name = |a: FnArgS| bound_name(a)->Some_0;
    if k > 0 {
        lemma_bound_names(inputs, (k - 1) as nat);
        assert(inputs.take(k as int).drop_last() =~= inputs.take(k - 1));
        let before = inputs.take(k - 1).filter(pick);
        if pick(inputs[k - 1]) {
            assert(before.push(inputs[k - 1]).map_values(name) =~= before.map_values(name).push(
                bound_name(inputs[k - 1])->Some_0,
            ));
        }
    } else {
        assert(inputs.take(0).filter(pick).map_values(name) =~= Seq::<Text>::empty());
    }
}

/// An impl has an item for each item, in their order: a method with its own attributes and its
/// types at their ranks, whose body names each of its arguments once and is never reached;
/// anything else as it is written.
pub proof fn law_instance_items(items: Seq<ImplItemS>, c: RankComboS, i: int)
    requires
        0 <= i < items.len(),
    ensures
        instance_items(items, c).len() == items.len(),
        instance_items(items, c)[i] == match items[i] {
            ImplItemS::Fn(f) => {
                let names = f.sig.inputs.filter(|a: FnArgS| bound_name(a) is Some).map_values(
                    |a: FnArgS| bound_name(a)->Some_0,
                );
                join_text(other_attrs(f.attrs, f.attrs.len()), " "@) + " "@ + instance_sig(
                    f.sig,
                    c,
                ).text() + " "@ + ("{ let _ = ("@ + join_text(names, ", "@)
                    + "); ::std::unreachable!() }"@)
            },
            ImplItemS::Type { head, ty, tail } => head + " "@ + type_text(ty) + " "@ + tail,
            ImplItemS::Const(t) => t,
            ImplItemS::Verbatim(t) => t,
        },
{
    if let ImplItemS::Fn(f) = items[i] {
        lemma_bound_names(f.sig.inputs, f.sig.inputs.len());
        assert(f.sig.inputs.take(f.sig.inputs.len() as int) =~= f.sig.inputs);
    }
}

/// An impl is for the trait with its arguments filled in and for the Self type at its ranks, with
/// the bounds of the impl that it is made from.
pub proof fn law_instance_text(item: ItemImplS, plan: ImplPlanS, path: PathS, c: RankComboS)
    ensures
        impl_instance(item, plan, path, c) == join_text(
            other_attrs(item.attrs, item.attrs.len()),
            " "@,
        ) + " impl "@ + angle_text(instance_generics(item, plan, c)) + " "@ + path_text(
            trait_ref_path(path, plan, c),
            false,
        ) + " for "@ + type_text(bound(rank_type(item.self_ty, c), "__td_recv"@)) + (where_text(
            item.generics.where_clause,
        ) + " { "@ + out_binding(plan, c) + join_text(instance_items(item.items, c), " "@) + " }"@),
{
}

// ---------------------------------------------------------------------------
// Whole items
// ---------------------------------------------------------------------------

/// The methods of a trait and of an impl are its items that are functions, in their order.
pub proof fn law_methods_are_gathered(
    decls: Seq<TraitItemS>,
    decl: TraitItemS,
    items: Seq<ImplItemS>,
    item: ImplItemS,
)
    ensures
        trait_sigs(decls.push(decl), decls.len() + 1) == match decl {
            TraitItemS::Fn { attrs: _, sig, body: _ } => trait_sigs(decls, decls.len()).push(sig),
            TraitItemS::Verbatim(_) => trait_sigs(decls, decls.len()),
        },
        impl_sigs(items.push(item), items.len() + 1) == match item {
            ImplItemS::Fn(f) => impl_sigs(items, items.len()).push(f.sig),
            _ => impl_sigs(items, items.len()),
        },
{
    lemma_trait_sigs_prefix(decls, decl, decls.len());
    lemma_impl_sigs_prefix(items, item, items.len());
}

proof fn lemma_trait_sigs_prefix(decls: Seq<TraitItemS>, decl: TraitItemS, k: nat)
    requires
        k <= decls.len(),
    ensures
        trait_sigs(decls.push(decl), k) == trait_sigs(decls, k),
    decreases k,
{
    if k > 0 {
        lemma_trait_sigs_prefix(decls, decl, (k - 1) as nat);
        assert(decls.push(decl)[k - 1] == decls[k - 1]);
    }
}

proof fn lemma_impl_sigs_prefix(items: Seq<ImplItemS>, item: ImplItemS, k: nat)
    requires
        k <= items.len(),
    ensures
        impl_sigs(items.push(item), k) == impl_sigs(items, k),
    decreases k,
{
    if k > 0 {
        lemma_impl_sigs_prefix(items, item, (k - 1) as nat);
        assert(items.push(item)[k - 1] == items[k - 1]);
    }
}

/// A trait is desugared exactly if it declares an array, and an impl exactly if it declares one,
/// is for a trait, and has a return type for every array that is free. An impl becomes one impl
/// for each combination of ranks, in order.
pub proof fn law_items_are_desugared(decl: ItemTraitS, item: ItemImplS, i: int)
    ensures
        desugar_trait(decl) is Ok <==> (declared_cgas(decl.generics.params) matches Ok(cgas)
            && cgas.len() > 0),
        desugar_trait(decl) matches Ok(t) ==> t == shadow_trait(
            decl,
            declared_cgas(decl.generics.params)->Ok_0,
        ),
        desugar_impl(item) is Ok <==> (declared_cgas(item.generics.params) matches Ok(cgas)
            && cgas.len() > 0 && item.trait_path is Some && (impl_plan(
            item,
            cgas,
        ).shape.has_free_cga ==> impl_plan(item, cgas).out_type is Some)),
        desugar_impl(item) matches Ok(t) ==> {
            let cgas = declared_cgas(item.generics.params)->Ok_0;
            let plan = impl_plan(item, cgas);
            let all = impl_instances(item, plan, item.trait_path->Some_0);
            &&& t == join_text(all, "\n"@)
            &&& all.len() == combos(cgas, MAX_RANK as nat).len()
            &&& 0 <= i < all.len() ==> all[i] == impl_instance(
                item,
                plan,
                item.trait_path->Some_0,
                combos(cgas, MAX_RANK as nat)[i],
            )
        },
{
}

} // verus!
