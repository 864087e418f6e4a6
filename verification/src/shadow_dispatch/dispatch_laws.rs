//! What holds of the trait, the impls and the wrapper that are emitted for an operation.
use super::emit::{
    by_reference, closed_type, closed_types, concrete_return, declarations, dependent_types,
    dispatch, extra_count, extra_names, extra_types, has_assoc_out, impl_decl, impl_decls,
    impl_generics, impl_return, is_extra, method_inputs, muted_body, open_type, open_types,
    other_names, out_generic, param_args, receiver_type, revived, ticked, trait_decl,
    trait_generics, trait_instance_args, trait_ref, trait_return, wrapper_call, wrapper_decl,
    wrapper_generics, wrapper_return, wrapper_trait_args,
};
use super::lifetimes::{replaced, with_outer_lifetime};
use super::op_laws::{
    is_mentioned_plainly, is_shape_param, law_parameters_are_sorted, only_returned,
};
use super::op_spec::{in_args, is_free_cga, is_free_param, parse_op, ParsedArgS, RankPolyOpSpecS};
use super::ranks::{bare, combo_count, combos, CgaInfoS, MAX_RANK, RankComboS};
use super::types::{rank_type, references};
use crate::ast::TypeS;
use crate::items::{param_texts, where_text, GenericParamS, ItemFnS};
use crate::lists::lemma_filter;
use crate::print::{angle_text, path_text, segment_text, segments_texts, type_text};
use crate::rank_instantiation::types::name_path;
use crate::text::{decimal_text, filled, filled_count, join_text, lemma_filled_at, Text};
use vstd::prelude::*;

verus! {

// ---------------------------------------------------------------------------
// The receiver
// ---------------------------------------------------------------------------

/// The type `t` with another referent: a reference stays a reference of its kind, with the
/// lifetime `lt`; any other type is replaced as a whole.
pub open spec fn with_referent(t: TypeS, referent: TypeS, lt: Text) -> TypeS {
    match t {
        TypeS::Reference { lifetime: _, mutable, elem: _ } => TypeS::Reference {
            lifetime: Some(lt),
            mutable,
            elem: Box::new(referent),
        },
        _ => referent,
    }
}

/// The text of a name as a type is that name.
pub proof fn lemma_name_text(name: Text)
    ensures
        type_text(TypeS::Path(name_path(name))) == name,
{
    let p = name_path(name);
    let seg = p.segments[0];
    assert(segments_texts(p.segments, false).len() == 1);
    assert(segments_texts(p.segments, false)[0] == segment_text(seg, false));
    reveal_strlit("");
    assert(segment_text(seg, false) =~= name);
    assert(join_text(segments_texts(p.segments, false), " :: "@) == name);
    assert(path_text(p, false) =~= name);
}

/// The receiver of the wrapper has the reference kind of the receiver in the operation's
/// signature, with `__T` in place of the referent: a `&mut` is a `&mut`, a `&` is a `&`, and
/// anything else is `__T` itself. The type that every impl is for has that same kind, so it
/// matches. All that the wrapper says of its receiver says it of this one type: the argument, the
/// bound, and the return type where that is the receiver's.
pub proof fn law_receiver_keeps_its_kind(s: RankPolyOpSpecS, c: RankComboS)
    requires
        s.wf(),
    ensures
        ({
            let given = s.args[s.receiver as int].ty;
            let own = rank_type(given, c);
            let generic = TypeS::Path(name_path("__T"@));
            &&& receiver_type(s) == type_text(with_referent(given, generic, "__td_recv"@))
            &&& receiver_type(s) == type_text(with_referent(own, generic, "__td_recv"@))
            &&& own is Reference <==> given is Reference
            &&& given is Reference ==> own->mutable == given->mutable
            &&& given is Reference ==> wrapper_generics(s)[0] == "'__td_recv"@
                && wrapper_generics(s).len() == trait_generics(s).len() + 2
            &&& !(given is Reference) ==> wrapper_generics(s).len() == trait_generics(s).len() + 1
            &&& declarations(s.args, open_types(s, receiver_type(s)))[s.receiver as int]
                == s.args[s.receiver as int].name + ": "@ + receiver_type(s)
            &&& s.is_same_shape() && !s.is_void_return() ==> wrapper_return(s) == receiver_type(s)
            &&& has_assoc_out(s) ==> wrapper_return(s) == "< "@ + receiver_type(s) + " as "@
                + trait_ref(s) + " >::Out"@
        }),
{
    let given = s.args[s.receiver as int].ty;
    let generic = TypeS::Path(name_path("__T"@));
    lemma_name_text("__T"@);
    match given {
        TypeS::Reference { lifetime, mutable, elem } => {
            let with = with_referent(given, generic, "__td_recv"@);
            reveal_strlit("&");
            reveal_strlit(" '");
            reveal_strlit("__td_recv");
            reveal_strlit(" mut ");
            reveal_strlit(" ");
            reveal_strlit("__T");
            reveal_strlit("& '__td_recv mut __T");
            reveal_strlit("& '__td_recv __T");
            assert(receiver_type(s) =~= type_text(with));
        },
        _ => {},
    }
}

// ---------------------------------------------------------------------------
// Generics
// ---------------------------------------------------------------------------

proof fn lemma_extra_types(args: Seq<ParsedArgS>, c: RankComboS, k: nat)
    requires
        k <= args.len(),
    ensures
        extra_types(args, c, k).len() == extra_count(args, k),
        forall|i: int|
            0 <= i < k && is_extra(#[trigger] args[i]) ==> extra_count(args, i as nat)
                < extra_count(args, k) && extra_types(args, c, k)[extra_count(args, i as nat) as int]
                == type_text(rank_type(args[i].ty, c)),
    decreases k,
{
    if k > 0 {
        lemma_extra_types(args, c, (k - 1) as nat);
    }
}

proof fn lemma_dependent_types(s: RankPolyOpSpecS, c: RankComboS, k: nat)
    requires
        k <= s.args.len(),
        s.rank_dep_arg_idents.len() == s.args.len(),
    ensures
        dependent_types(s, c, k).len() == filled_count(s.rank_dep_arg_idents, k),
        forall|i: int|
            0 <= i < k && (#[trigger] s.rank_dep_arg_idents[i]) is Some ==> filled_count(
                s.rank_dep_arg_idents,
                i as nat,
            ) < filled_count(s.rank_dep_arg_idents, k) && dependent_types(s, c, k)[filled_count(
                s.rank_dep_arg_idents,
                i as nat,
            ) as int] == type_text(rank_type(s.args[i].ty, c)),
    decreases k,
{
    if k > 0 {
        lemma_dependent_types(s, c, (k - 1) as nat);
    }
}

/// Where the generics of the trait that stand for arguments end.
pub open spec fn args_end(s: RankPolyOpSpecS) -> int {
    (s.dead_lt_idents.len() + extra_count(s.args, s.args.len()) + filled_count(
        s.rank_dep_arg_idents,
        s.rank_dep_arg_idents.len(),
    )) as int
}

/// Where a wrapper's generics for the trait start: behind its own.
pub open spec fn own_generics(s: RankPolyOpSpecS) -> int {
    if s.args[s.receiver as int].ty is Reference { 2 } else { 1 }
}

/// At place `at` of the trait's generics stands `name`, declared so by the trait and by the
/// wrapper, referred to by the wrapper's bound, and bound by the impl to `ty`.
pub open spec fn generic_binds(s: RankPolyOpSpecS, c: RankComboS, at: int, name: Text, ty: Text) -> bool {
    &&& 0 <= at < trait_generics(s).len()
    &&& trait_generics(s)[at] == name
    &&& wrapper_trait_args(s)[at] == name
    &&& trait_instance_args(s, c)[at] == ty
    &&& wrapper_generics(s)[at + own_generics(s) - (if at < s.dead_lt_idents.len() {
        1int
    } else {
        0int
    })] == name
}

/// Each argument has the same place among the generics everywhere. One that has the receiver's
/// type is `Self`; another with a shape is `Sh0`, `Sh1`, … in the trait and in the wrapper, and
/// every impl binds that generic to the argument's own type at its ranks; an argument whose type
/// depends on a rank has a generic in the same way; any other argument has its own type.
pub proof fn law_arguments_have_their_generics(s: RankPolyOpSpecS, c: RankComboS, i: int, like: Text)
    requires
        s.wf(),
        0 <= i < s.args.len(),
    ensures
        ({
            let a = s.args[i];
            let ty = type_text(rank_type(a.ty, c));
            &&& a.cga is Some && a.is_self_like ==> open_type(s, like, i) == like && closed_type(
                s,
                c,
                i,
            ) == "Self"@
            &&& a.cga is Some && !a.is_self_like ==> {
                &&& closed_type(s, c, i) == ty
                &&& open_type(s, like, i) == "Sh"@ + decimal_text(extra_count(s.args, i as nat))
                &&& generic_binds(
                    s,
                    c,
                    (s.dead_lt_idents.len() + extra_count(s.args, i as nat)) as int,
                    open_type(s, like, i),
                    ty,
                )
            }
            &&& a.cga is None && s.rank_dep_arg_idents[i] is Some ==> {
                &&& closed_type(s, c, i) == ty
                &&& open_type(s, like, i) == s.rank_dep_arg_idents[i]->Some_0
                &&& generic_binds(
                    s,
                    c,
                    (s.dead_lt_idents.len() + extra_count(s.args, s.args.len()) + filled_count(
                        s.rank_dep_arg_idents,
                        i as nat,
                    )) as int,
                    open_type(s, like, i),
                    ty,
                )
            }
            &&& a.cga is None && s.rank_dep_arg_idents[i] is None ==> {
                &&& closed_type(s, c, i) == ty
                &&& open_type(s, like, i) == type_text(rank_type(a.ty, RankComboS::none()))
            }
        }),
{
    lemma_extra_types(s.args, c, s.args.len());
    lemma_dependent_types(s, c, s.args.len());
    lemma_filled_at(s.rank_dep_arg_idents, s.args.len());
    lemma_list_lengths(s, c);
    lemma_lists(
        s,
        c,
        extra_count(s.args, i as nat) as int,
        filled_count(s.rank_dep_arg_idents, i as nat) as int,
        0,
    );
}

proof fn lemma_five(a: Seq<Text>, b: Seq<Text>, c: Seq<Text>, d: Seq<Text>, e: Seq<Text>, k: int)
    ensures
        ({
            let all = a + b + c + d + e;
            &&& all.len() == a.len() + b.len() + c.len() + d.len() + e.len()
            &&& 0 <= k < b.len() ==> all[a.len() + k] == b[k]
            &&& 0 <= k < c.len() ==> all[a.len() + b.len() + k] == c[k]
            &&& 0 <= k < d.len() ==> all[a.len() + b.len() + c.len() + k] == d[k]
            &&& 0 <= k < e.len() ==> all[a.len() + b.len() + c.len() + d.len() + k] == e[k]
        }),
{
}

proof fn lemma_wrapper_places(s: RankPolyOpSpecS, k: int)
    requires
        s.wf(),
    ensures
        ({
            let lts = ticked(s.dead_lt_idents);
            let deps = filled(s.rank_dep_arg_idents, s.rank_dep_arg_idents.len());
            let g = wrapper_generics(s);
            let n = lts.len() + own_generics(s);
            let extras = extra_names(s.args);
            let out = out_generic(s);
            let own = param_texts(s.trait_level_params);
            &&& 0 <= k < extras.len() ==> g[n + k] == extras[k]
            &&& 0 <= k < deps.len() ==> g[n + extras.len() + k] == deps[k]
            &&& 0 <= k < out.len() ==> g[n + extras.len() + deps.len() + k] == out[k]
            &&& 0 <= k < own.len() ==> g[n + extras.len() + deps.len() + out.len() + k] == own[k]
        }),
{
    let head = (if by_reference(s) { seq!["'__td_recv"@] } else { seq![] }) + ticked(
        s.dead_lt_idents,
    ) + seq!["__T"@];
    lemma_five(
        head,
        extra_names(s.args),
        filled(s.rank_dep_arg_idents, s.rank_dep_arg_idents.len()),
        out_generic(s),
        param_texts(s.trait_level_params),
        k,
    );
}

/// What stands at the place of extra argument `e`, of rank-dependent argument `d`, of `Out` and of
/// parameter `p` in each list.
proof fn lemma_lists(s: RankPolyOpSpecS, c: RankComboS, e: int, d: int, p: int)
    requires
        s.wf(),
    ensures
        ({
            let n = s.dead_lt_idents.len();
            let extras = extra_names(s.args);
            let deps = filled(s.rank_dep_arg_idents, s.rank_dep_arg_idents.len());
            let out = out_generic(s);
            let own = param_texts(s.trait_level_params);
            let args = param_args(s.trait_level_params);
            let o = own_generics(s);
            let types = extra_types(s.args, c, s.args.len());
            let dtypes = dependent_types(s, c, s.args.len());
            &&& trait_generics(s).len() == n + extras.len() + deps.len() + out.len() + own.len()
            &&& 0 <= e < extras.len() ==> trait_generics(s)[n + e] == extras[e]
                && wrapper_trait_args(s)[n + e] == extras[e] && wrapper_generics(s)[n + o + e]
                == extras[e]
            &&& 0 <= e < types.len() ==> trait_instance_args(s, c)[n + e] == types[e]
            &&& 0 <= d < deps.len() ==> trait_generics(s)[n + extras.len() + d] == deps[d]
                && wrapper_trait_args(s)[n + extras.len() + d] == deps[d] && wrapper_generics(s)[n
                + o + extras.len() + d] == deps[d]
            &&& 0 <= d < dtypes.len() ==> trait_instance_args(s, c)[n + types.len() + d]
                == dtypes[d]
            &&& s.return_is_free() ==> trait_generics(s)[n + extras.len() + deps.len() as int]
                == "Out"@ && wrapper_trait_args(s)[n + extras.len() + deps.len() as int] == "Out"@
                && wrapper_generics(s)[n + o + extras.len() + deps.len()] == "Out"@
                && trait_instance_args(s, c)[n + types.len() + dtypes.len() as int]
                == concrete_return(s, c)
            &&& 0 <= p < own.len() ==> {
                let at = n + extras.len() + deps.len() + out.len() + p;
                &&& trait_generics(s)[at] == own[p]
                &&& wrapper_trait_args(s)[at] == args[p]
                &&& wrapper_generics(s)[at + o] == own[p]
                &&& trait_instance_args(s, c)[n + types.len() + dtypes.len() + out.len() + p]
                    == args[p]
            }
        }),
{
    let lts = ticked(s.dead_lt_idents);
    let extras = extra_names(s.args);
    let deps = filled(s.rank_dep_arg_idents, s.rank_dep_arg_idents.len());
    let out = out_generic(s);
    let own = param_texts(s.trait_level_params);
    let args = param_args(s.trait_level_params);
    let types = extra_types(s.args, c, s.args.len());
    let dtypes = dependent_types(s, c, s.args.len());
    let ret = if s.return_is_free() { seq![concrete_return(s, c)] } else { seq![] };
    lemma_five(lts, extras, deps, out, own, e);
    lemma_five(lts, extras, deps, out, own, d);
    lemma_five(lts, extras, deps, out, own, 0);
    lemma_five(lts, extras, deps, out, own, p);
    lemma_five(lts, extras, deps, out, args, e);
    lemma_five(lts, extras, deps, out, args, d);
    lemma_five(lts, extras, deps, out, args, 0);
    lemma_five(lts, extras, deps, out, args, p);
    lemma_five(lts, types, dtypes, ret, args, e);
    lemma_five(lts, types, dtypes, ret, args, d);
    lemma_five(lts, types, dtypes, ret, args, 0);
    lemma_five(lts, types, dtypes, ret, args, p);
    lemma_wrapper_places(s, e);
    lemma_wrapper_places(s, d);
    lemma_wrapper_places(s, 0);
    lemma_wrapper_places(s, p);
}

/// Lifetimes that only the return type names come first among the generics, everywhere.
pub proof fn law_fresh_lifetimes_come_first(s: RankPolyOpSpecS, c: RankComboS, k: int)
    requires
        s.wf(),
        0 <= k < s.dead_lt_idents.len(),
    ensures
        generic_binds(s, c, k, "'"@ + s.dead_lt_idents[k], "'"@ + s.dead_lt_idents[k]),
        impl_generics(s, c)[k] == "'"@ + s.dead_lt_idents[k],
{
    let lts = ticked(s.dead_lt_idents);
    assert(lts[k] == "'"@ + s.dead_lt_idents[k]);
    assert(trait_generics(s)[k] == lts[k]);
    assert(wrapper_generics(s)[k + own_generics(s) - 1] == lts[k]);
}

proof fn lemma_list_lengths(s: RankPolyOpSpecS, c: RankComboS)
    requires
        s.wf(),
    ensures
        extra_names(s.args).len() == extra_count(s.args, s.args.len()),
        extra_types(s.args, c, s.args.len()).len() == extra_count(s.args, s.args.len()),
        filled(s.rank_dep_arg_idents, s.rank_dep_arg_idents.len()).len() == filled_count(
            s.rank_dep_arg_idents,
            s.rank_dep_arg_idents.len(),
        ),
        dependent_types(s, c, s.args.len()).len() == filled_count(
            s.rank_dep_arg_idents,
            s.rank_dep_arg_idents.len(),
        ),
{
    lemma_extra_types(s.args, c, s.args.len());
    lemma_dependent_types(s, c, s.args.len());
    lemma_filled_at(s.rank_dep_arg_idents, s.args.len());
}

/// Behind the generics for the arguments stands `Out`, where the arguments do not determine the
/// return type; every impl binds it to the return type at its ranks.
pub proof fn law_free_return_is_bound(s: RankPolyOpSpecS, c: RankComboS)
    requires
        s.wf(),
        s.return_is_free(),
    ensures
        generic_binds(s, c, args_end(s), "Out"@, concrete_return(s, c)),
{
    lemma_list_lengths(s, c);
    lemma_lists(s, c, 0, 0, 0);
}

/// The operation's own parameters that an argument without a shape mentions come last among the
/// generics of the trait; impls and the wrapper hand them through.
pub proof fn law_own_parameters_come_last(s: RankPolyOpSpecS, c: RankComboS, k: int)
    requires
        s.wf(),
        0 <= k < s.trait_level_params.len(),
    ensures
        ({
            let at = args_end(s) + (if s.return_is_free() { 1int } else { 0int }) + k;
            let p = s.trait_level_params[k];
            &&& at < trait_generics(s).len()
            &&& trait_generics(s)[at] == p.text()
            &&& wrapper_generics(s)[at + own_generics(s)] == p.text()
            &&& wrapper_trait_args(s)[at] == p.arg_text()
            &&& trait_instance_args(s, c)[at] == p.arg_text()
        }),
{
    lemma_list_lengths(s, c);
    lemma_lists(s, c, 0, 0, k);
}

/// An impl declares the fresh lifetimes, the operation's parameters that the trait does not have,
/// those that it has, and a constant for each dimension of each array.
pub proof fn law_impl_declares_its_generics(s: RankPolyOpSpecS, c: RankComboS, k: int)
    ensures
        ({
            let n = s.dead_lt_idents.len();
            let own = s.impl_only_params.len();
            let shared = s.trait_level_params.len();
            let g = impl_generics(s, c);
            &&& g.len() == n + own + shared + c.dim_params().len()
            &&& 0 <= k < own ==> g[n + k] == s.impl_only_params[k].text()
            &&& 0 <= k < shared ==> g[n + own + k] == s.trait_level_params[k].text()
            &&& 0 <= k < c.dim_params().len() ==> g[n + own + shared + k] == c.dim_params()[k]
        }),
{
}

// ---------------------------------------------------------------------------
// Return types
// ---------------------------------------------------------------------------

/// The trait, its impls and the wrapper say the same of the return type: nothing if there is
/// none; the receiver's own type if it is that; `Out`, which the impl binds, if the arguments do
/// not determine it; and otherwise the associated type `Out`, which the impl defines.
pub proof fn law_returns_agree(s: RankPolyOpSpecS, c: RankComboS)
    ensures
        s.is_void_return() ==> trait_return(s) == "()"@ && impl_return(s, c) == "()"@
            && wrapper_return(s) == "()"@ && !has_assoc_out(s),
        !s.is_void_return() && s.is_same_shape() ==> trait_return(s) == "Self"@ && impl_return(s, c)
            == "Self"@ && wrapper_return(s) == receiver_type(s) && !has_assoc_out(s),
        !s.is_void_return() && s.return_is_free() ==> trait_return(s) == "Out"@ && impl_return(s, c)
            == concrete_return(s, c) && wrapper_return(s) == "Out"@ && !has_assoc_out(s),
        !s.is_void_return() && !s.is_same_shape() && !s.return_is_free() ==> trait_return(s)
            == "Self::Out"@ && impl_return(s, c) == "Self::Out"@ && wrapper_return(s) == "< "@
            + receiver_type(s) + " as "@ + s.trait_ident + " "@ + angle_text(wrapper_trait_args(s))
            + " >::Out"@ && has_assoc_out(s),
{
    if has_assoc_out(s) {
        assert(wrapper_return(s) =~= "< "@ + receiver_type(s) + " as "@ + s.trait_ident + " "@
            + angle_text(wrapper_trait_args(s)) + " >::Out"@);
    }
}

/// What an impl returns is the return type at its ranks, with the lifetimes that only it names
/// replaced by the fresh ones; where there are none, nothing is replaced.
pub proof fn law_return_is_put_at_its_ranks(s: RankPolyOpSpecS, c: RankComboS)
    requires
        s.wf(),
    ensures
        concrete_return(s, c) == type_text(
            revived(
                rank_type(s.return_type, c),
                s.dead_lifetimes,
                s.dead_lt_idents,
                s.dead_lifetimes.len(),
            ),
        ),
        s.dead_lifetimes.len() == 0 ==> concrete_return(s, c) == type_text(
            rank_type(s.return_type, c),
        ),
        s.dead_lifetimes.len() == 1 ==> concrete_return(s, c) == type_text(
            replaced(rank_type(s.return_type, c), s.dead_lifetimes, s.dead_lt_idents[0]),
        ),
{
    if s.dead_lifetimes.len() == 1 {
        let t = rank_type(s.return_type, c);
        assert(seq![s.dead_lifetimes[0]] =~= s.dead_lifetimes);
        assert(revived(t, s.dead_lifetimes, s.dead_lt_idents, 0) == t);
        assert(revived(t, s.dead_lifetimes, s.dead_lt_idents, 1) == replaced(
            t,
            seq![s.dead_lifetimes[0]],
            s.dead_lt_idents[0],
        ));
    }
}

/// Lifetimes that only the return type names are replaced one by one, each by the fresh lifetime
/// of the same place.
pub proof fn law_dead_lifetimes_are_revived(
    t: TypeS,
    dead: Seq<Text>,
    fresh: Seq<Text>,
    d: Text,
    f: Text,
)
    requires
        dead.len() == fresh.len(),
    ensures
        revived(t, seq![], seq![], 0) == t,
        revived(t, dead.push(d), fresh.push(f), dead.len() + 1) == replaced(
            revived(t, dead, fresh, dead.len()),
            seq![d],
            f,
        ),
{
    lemma_revived_prefix(t, dead, fresh, d, f, dead.len());
}

proof fn lemma_revived_prefix(
    t: TypeS,
    dead: Seq<Text>,
    fresh: Seq<Text>,
    d: Text,
    f: Text,
    k: nat,
)
    requires
        dead.len() == fresh.len(),
        k <= dead.len(),
    ensures
        revived(t, dead.push(d), fresh.push(f), k) == revived(t, dead, fresh, k),
    decreases k,
{
    if k > 0 {
        lemma_revived_prefix(t, dead, fresh, d, f, (k - 1) as nat);
    }
}

// ---------------------------------------------------------------------------
// Arguments
// ---------------------------------------------------------------------------

/// The method takes `self` for the receiver and the other arguments in their order, each with its
/// type; the wrapper takes all of them, and hands the others to the receiver's method in that
/// order; an impl names each of them once in its body.
pub proof fn law_arguments_are_forwarded(
    s: RankPolyOpSpecS,
    c: RankComboS,
    types: Seq<Text>,
    i: int,
)
    requires
        s.wf(),
        types.len() == s.args.len(),
        0 <= i < s.args.len(),
        i != s.receiver,
    ensures
        ({
            let at = if i < s.receiver { i } else { i - 1 };
            &&& method_inputs(s, types)[0] == "self"@
            &&& method_inputs(s, types).len() == s.args.len()
            &&& method_inputs(s, types)[at + 1] == s.args[i].name + ": "@ + types[i]
            &&& other_names(s).len() == s.args.len() - 1
            &&& other_names(s)[at] == s.args[i].name
            &&& declarations(s.args, types).len() == s.args.len()
            &&& declarations(s.args, types)[i] == s.args[i].name + ": "@ + types[i]
            &&& open_types(s, types[i]).len() == s.args.len()
            &&& open_types(s, types[i])[i] == open_type(s, types[i], i)
            &&& closed_types(s, c).len() == s.args.len()
            &&& closed_types(s, c)[i] == closed_type(s, c, i)
            &&& wrapper_call(s) == s.args[s.receiver as int].name + "."@ + s.method_ident + "("@
                + join_text(other_names(s), ", "@) + ")"@
            &&& muted_body(other_names(s)) == "{ let _ = ("@ + join_text(other_names(s), ", "@)
                + "); ::std::unreachable!() }"@
        }),
{
}

/// The wrapper is public under the operation's own name; it is unsafe exactly if the operation
/// is, and calls the method in an unsafe block exactly if so; and it demands that its receiver
/// implements the trait, besides the operation's own bounds.
pub proof fn law_wrapper_text(s: RankPolyOpSpecS)
    requires
        s.wf(),
    ensures
        ({
            let bounds = " where "@ + receiver_type(s) + ": "@ + (s.trait_ident + " "@ + angle_text(
                wrapper_trait_args(s),
            )) + match s.where_clause {
                Some(preds) => ", "@ + join_text(preds, " , "@),
                None => ""@,
            };
            let head = "("@ + join_text(
                declarations(s.args, open_types(s, receiver_type(s))),
                ", "@,
            ) + ") -> "@ + wrapper_return(s) + bounds;
            wrapper_decl(s) == if s.is_unsafe {
                "pub "@ + "unsafe "@ + "fn "@ + s.fn_ident + " "@ + angle_text(wrapper_generics(s))
                    + head + (" { unsafe { "@ + wrapper_call(s) + " } }"@)
            } else {
                "pub "@ + ""@ + "fn "@ + s.fn_ident + " "@ + angle_text(wrapper_generics(s)) + head
                    + (" { "@ + wrapper_call(s) + " }"@)
            }
        }),
{
}

/// The trait has one method, and an associated type exactly if the return type is one; each impl
/// has that method for the receiver's type at its ranks, and defines that type. All of them are
/// unsafe exactly if the operation is, and have its bounds.
pub proof fn law_trait_and_impl_text(s: RankPolyOpSpecS, c: RankComboS)
    requires
        s.wf(),
    ensures
        ({
            let bounds = where_text(s.where_clause);
            let head = (if s.is_unsafe { "unsafe "@ } else { ""@ }) + "fn "@ + s.method_ident + "("@;
            let own = type_text(rank_type(s.args[s.receiver as int].ty, c));
            &&& trait_decl(s) == "#[allow(non_camel_case_types)] pub trait "@ + s.trait_ident + " "@
                + angle_text(trait_generics(s)) + bounds + " { "@ + (if has_assoc_out(s) {
                "type Out; "@
            } else {
                ""@
            }) + (head + join_text(method_inputs(s, open_types(s, "Self"@)), ", "@) + ") -> "@
                + trait_return(s)) + "; }"@
            &&& impl_decl(s, c) == "impl "@ + angle_text(impl_generics(s, c)) + " "@ + s.trait_ident
                + " "@ + angle_text(trait_instance_args(s, c)) + " for "@ + own + bounds + " { "@ + (
            if has_assoc_out(s) {
                "type Out = "@ + concrete_return(s, c) + "; "@
            } else {
                ""@
            }) + (head + join_text(method_inputs(s, closed_types(s, c)), ", "@) + ") -> "@
                + impl_return(s, c)) + (" "@ + muted_body(other_names(s)) + " }"@)
        }),
{
}

// ---------------------------------------------------------------------------
// Combinations
// ---------------------------------------------------------------------------

/// The trait comes first, an impl for each combination of ranks follows, in order, and the wrapper
/// comes last.
pub proof fn law_one_impl_per_combination(s: RankPolyOpSpecS, i: int)
    requires
        0 <= i < combo_count(s.cgas, MAX_RANK as nat),
    ensures
        dispatch(s) == trait_decl(s) + "\n"@ + join_text(impl_decls(s), "\n"@) + "\n"@
            + wrapper_decl(s),
        impl_decls(s).len() == combos(s.cgas, MAX_RANK as nat).len(),
        impl_decls(s)[i] == impl_decl(s, combos(s.cgas, MAX_RANK as nat)[i]),
        combos(s.cgas, MAX_RANK as nat)[i].cgas == s.cgas,
{
}

/// The return type is free exactly if it is not the receiver's own and mentions a parameter or an
/// array that no argument mentions; lifetimes do not count, nor do parameters that are lengths.
pub proof fn law_free_return(
    item: ItemFnS,
    method: Option<Text>,
    trait_name: Option<Text>,
)
    ensures
        parse_op(item, method, trait_name) matches Ok(s) ==> {
            let params = item.sig.generics.params;
            s.return_is_free() <==> !s.is_same_shape() && ((exists|i: int|
                0 <= i < params.len() && only_returned_param(#[trigger] params[i], s)) || exists|
                i: int,
            |
                0 <= i < s.cgas.len() && only_returned_name((#[trigger] s.cgas[i]).cga_ident, s))
        },
{
    if let Ok(s) = parse_op(item, method, trait_name) {
        let params = item.sig.generics.params;
        law_parameters_are_sorted(item, method, trait_name);
        let pick = |p: GenericParamS|
            !only_returned(p, s) && !is_shape_param(p, s) && !is_mentioned_plainly(p, s);
        lemma_filter(params, pick);
        assert forall|name: Text|
            (references(s.return_type, name) && !#[trigger] in_args(s.args, name))
                == only_returned_name(name, s) by {
            if in_args(s.args, name) {
                let i = choose|i: int|
                    0 <= i < s.args.len() && references((#[trigger] s.args[i]).ty, name);
                assert(references(s.args[i].ty, name));
            }
        }
        if exists|i: int|
            0 <= i < s.impl_only_params.len() && is_free_param(#[trigger] s.impl_only_params[i], s) {
            let i = choose|i: int|
                0 <= i < s.impl_only_params.len() && is_free_param(
                    #[trigger] s.impl_only_params[i],
                    s,
                );
            let p = s.impl_only_params[i];
            assert(pick(params.filter(pick)[i]));
            assert(!in_args(s.args, p.name()));
            assert(params.contains(params.filter(pick)[i]));
            let j = choose|j: int| 0 <= j < params.len() && params[j] == p;
            assert(only_returned_param(params[j], s));
        }
        if exists|i: int| 0 <= i < params.len() && only_returned_param(#[trigger] params[i], s) {
            let i = choose|i: int|
                0 <= i < params.len() && only_returned_param(#[trigger] params[i], s);
            let p = params[i];
            assert(!in_args(s.args, p.name()));
            assert(pick(p)) by {
                if is_mentioned_plainly(p, s) {
                    let k = choose|k: int|
                        0 <= k < s.args.len() && (#[trigger] s.args[k]).cga is None && references(
                            s.args[k].ty,
                            p.name(),
                        );
                    assert(in_args(s.args, p.name()));
                }
            }
            assert(params.filter(pick).contains(params[i]));
            let k = choose|k: int|
                0 <= k < s.impl_only_params.len() && s.impl_only_params[k] == p;
            assert(is_free_param(s.impl_only_params[k], s));
        }
        if exists|i: int| 0 <= i < s.cgas.len() && is_free_cga(#[trigger] s.cgas[i], s) {
            let i = choose|i: int| 0 <= i < s.cgas.len() && is_free_cga(#[trigger] s.cgas[i], s);
            assert(!in_args(s.args, s.cgas[i].cga_ident));
            assert(only_returned_name(s.cgas[i].cga_ident, s));
        }
        if exists|i: int|
            0 <= i < s.cgas.len() && only_returned_name((#[trigger] s.cgas[i]).cga_ident, s) {
            let i = choose|i: int|
                0 <= i < s.cgas.len() && only_returned_name((#[trigger] s.cgas[i]).cga_ident, s);
            assert(!in_args(s.args, s.cgas[i].cga_ident));
            assert(is_free_cga(s.cgas[i], s));
        }
    }
}

/// A name that the return type mentions and no argument does.
pub open spec fn only_returned_name(name: Text, s: RankPolyOpSpecS) -> bool {
    references(s.return_type, name) && forall|i: int|
        0 <= i < s.args.len() ==> !references((#[trigger] s.args[i]).ty, name)
}

/// A parameter, no lifetime and no array or length, that the return type mentions and no argument
/// does.
pub open spec fn only_returned_param(p: GenericParamS, s: RankPolyOpSpecS) -> bool {
    !(p is Lifetime) && !is_shape_param(p, s) && only_returned_name(p.name(), s)
}

/// The return type is the receiver's exactly if it mentions an array, the same one first, and is
/// written in the same way.
pub proof fn law_same_shape(s: RankPolyOpSpecS)
    ensures
        s.is_same_shape() <==> s.return_cga is Some && s.return_cga
            == s.args[s.receiver as int].cga && type_text(s.return_type) == type_text(
            s.args[s.receiver as int].ty,
        ),
        s.is_void_return() <==> s.return_type == TypeS::Tuple(seq![]),
{
    if let TypeS::Tuple(elems) = s.return_type {
        if elems.len() == 0 {
            assert(elems =~= seq![]);
        }
    }
}

// ---------------------------------------------------------------------------
// Dimensions
// ---------------------------------------------------------------------------

/// An array of rank `r` has `r` dimensions, named after it and their index; a raw name is used
/// without its prefix. Each has a constant.
pub proof fn law_dimensions_are_named(c: RankComboS, cga: Text, i: int)
    requires
        0 <= i < c.rank_of(cga),
    ensures
        c.dim_names(cga).len() == c.rank_of(cga),
        c.dim_names(cga)[i] == bare(cga) + "_"@ + decimal_text(i as nat),
        c.cga_params(cga).len() == c.rank_of(cga),
        c.cga_params(cga)[i] == "const "@ + c.dim_names(cga)[i] + ": i32"@,
        bare(seq!['r', '#'] + cga) == cga,
        !(cga.len() >= 2 && cga[0] == 'r' && cga[1] == '#') ==> bare(cga) == cga,
{
    assert(bare(seq!['r', '#'] + cga) =~= cga);
}

/// The constants of a combination are those of each array in turn, in the order of their
/// declaration.
pub proof fn law_dimension_constants(ranks: Seq<nat>, to_group: Map<Text, usize>, cgas: Seq<CgaInfoS>, cga: CgaInfoS)
    ensures
        ({
            let fewer = RankComboS { ranks, to_group, cgas };
            let c = RankComboS { ranks, to_group, cgas: cgas.push(cga) };
            &&& c.dim_params() == fewer.dim_params() + c.cga_params(cga.cga_ident)
            &&& c.rank_of(cga.cga_ident) == fewer.rank_of(cga.cga_ident)
            &&& RankComboS { ranks, to_group, cgas: seq![] }.dim_params() == Seq::<Text>::empty()
        }),
{
    let fewer = RankComboS { ranks, to_group, cgas };
    let c = RankComboS { ranks, to_group, cgas: cgas.push(cga) };
    let lists = Seq::new(c.cgas.len(), |i: int| c.cga_params(c.cgas[i].cga_ident));
    let before = Seq::new(fewer.cgas.len(), |i: int| fewer.cga_params(fewer.cgas[i].cga_ident));
    assert forall|i: int| 0 <= i < before.len() implies #[trigger] lists[i] == before[i] by {
        assert(c.cgas[i] == fewer.cgas[i]);
        assert(c.cga_params(c.cgas[i].cga_ident) =~= fewer.cga_params(fewer.cgas[i].cga_ident));
    }
    assert(lists.drop_last() =~= before);
    assert(lists.last() == c.cga_params(cga.cga_ident));
}

/// The table of dimensions has an entry for each array, with the names of its dimensions.
pub proof fn law_dimension_table(c: RankComboS, k: nat, i: int)
    requires
        0 <= i < k <= c.cgas.len(),
    ensures
        c.dim_table(k).contains_key(c.cgas[i].cga_ident),
        c.dim_table(k)[c.cgas[i].cga_ident] == c.dim_names(c.cgas[i].cga_ident),
    decreases k,
{
    if i < k - 1 {
        law_dimension_table(c, (k - 1) as nat, i);
    }
}

/// Giving a reference a lifetime of its own keeps its mutability and what it refers to; anything
/// else stays as it is.
pub proof fn law_outer_lifetime_is_set(t: TypeS, lt: Text)
    ensures
        match t {
            TypeS::Reference { lifetime: _, mutable, elem } => with_outer_lifetime(t, lt)
                == (TypeS::Reference { lifetime: Some(lt), mutable, elem }),
            _ => with_outer_lifetime(t, lt) == t,
        },
{
}

} // verus!
