//! Specialisation of generic parameters, trait arguments and signatures.
use super::bindings::{dim, dim_text, CgaS, RankBindings, RankBindingsS};
use super::types::{make_name_path, name_path, rewrite_type, rewrite_type_for_rank};
use crate::ast::{arg_s, args_s, ArgS, GenericArgument, Type, TypeS};
use crate::copy::clone_arg;
use crate::error::{agrees, error_at, Error, ErrorS, SpannedError};
use crate::grammar::{
    const_param_source, generic_param_refusal, judge, numbered_word, refuse_generic_param,
    splits_into_tokens, tokenizes, verdict,
};
use crate::items::{
    clone_opt_strings, views, FnArg, FnArgS, GenericParam, GenericParamS, Generics, GenericsS,
    Signature, SignatureS,
};
use crate::lists::{collect, concat, lemma_collect_step};
use crate::print::{get_ident, path_ident};
use crate::text::{cat3, cat4, same, Text};
use vstd::prelude::*;

verus! {

// ---------------------------------------------------------------------------
// Generic parameters
// ---------------------------------------------------------------------------

/// A scalar const parameter of type `i32`.
pub open spec fn scalar_param(name: Text) -> GenericParamS {
    GenericParamS::Const { ident: name, ty: TypeS::Path(name_path("i32"@)), rest: ""@ }
}

/// The verdict on the declaration of a const parameter. A numbered word of type `i32`
/// always passes.
pub open spec fn param_verdict(at: Text, name: Text, ty: Text) -> Result<(), ErrorS> {
    let source = const_param_source(name, ty);
    if numbered_word(name) && ty == "i32"@ {
        Ok(())
    } else {
        verdict(
            at,
            "Failed to parse generic param '"@ + source + "'"@,
            tokenizes(source),
            generic_param_refusal(source),
        )
    }
}

/// One dimension of an array, as a parameter of its own.
pub open spec fn dim_param(at: Text, cga: CgaS, i: nat) -> Result<GenericParamS, ErrorS> {
    let name = dim_text(cga.name, i);
    match param_verdict(at, name, cga.element_type) {
        Err(e) => Err(e),
        Ok(_) => Ok(scalar_param(name)),
    }
}

pub open spec fn dim_params(at: Text, cga: CgaS) -> Seq<Result<GenericParamS, ErrorS>> {
    Seq::new(cga.length, |i: int| dim_param(at, cga, i as nat))
}

/// What one parameter becomes: an array is replaced by its dimensions.
pub open spec fn expand_param(p: GenericParamS, b: RankBindingsS) -> Result<
    Seq<GenericParamS>,
    ErrorS,
> {
    match p {
        GenericParamS::Const { ident, ty, rest: _ } => match ty {
            TypeS::Array { .. } => if !b.inst_array.contains_key(ident) {
                Err(error_at(ident, "Missing inst_array entry for '"@ + ident + "'"@))
            } else {
                let cga = b.inst_array[ident];
                if cga.element_type != "i32"@ {
                    Err(
                        error_at(
                            ident,
                            "Expected element_type 'i32', got '"@ + cga.element_type + "'"@,
                        ),
                    )
                } else {
                    collect(dim_params(ident, cga))
                }
            },
            _ => Ok(seq![p]),
        },
        _ => Ok(seq![p]),
    }
}

pub open spec fn expanded_params(params: Seq<GenericParamS>, b: RankBindingsS) -> Seq<
    Result<Seq<GenericParamS>, ErrorS>,
> {
    Seq::new(params.len(), |i: int| expand_param(params[i], b))
}

/// All parameters expanded, in order.
pub open spec fn expand_params(params: Seq<GenericParamS>, b: RankBindingsS) -> Result<
    Seq<GenericParamS>,
    ErrorS,
> {
    match collect(expanded_params(params, b)) {
        Err(e) => Err(e),
        Ok(lists) => Ok(concat(lists)),
    }
}

pub open spec fn rewrite_generics(g: GenericsS, b: RankBindingsS) -> Result<GenericsS, ErrorS> {
    match expand_params(g.params, b) {
        Err(e) => Err(e),
        Ok(params) => Ok(GenericsS { params, ..g }),
    }
}

fn expand_dims(at: &String, name: &str, element_type: &str, length: u32) -> (r: Result<
    Vec<GenericParam>,
    Error,
>)
    requires
        element_type@ == "i32"@,
    ensures
        ({
            let cga = CgaS { name: name@, element_type: element_type@, length: length as nat };
            match r {
                Ok(v) => collect(dim_params(at@, cga)) == Ok::<Seq<GenericParamS>, ErrorS>(
                    views(v@),
                ),
                Err(e) => collect(dim_params(at@, cga)) == Err::<Seq<GenericParamS>, ErrorS>(e@),
            }
        }),
{
    let ghost cga = CgaS { name: name@, element_type: element_type@, length: length as nat };
    let ghost results = dim_params(at@, cga);
    let mut out: Vec<GenericParam> = Vec::new();
    let mut i: u32 = 0;
    assert(results.take(0) =~= seq![]);
    assert(views(out@) =~= seq![]);
    while i < length
        invariant
            i <= length,
            cga == (CgaS { name: name@, element_type: element_type@, length: length as nat }),
            results == dim_params(at@, cga),
            element_type@ == "i32"@,
            collect(results.take(i as int)) == Ok::<Seq<GenericParamS>, ErrorS>(views(out@)),
        decreases length - i,
    {
        proof {
            lemma_collect_step(results, i as int);
            assert(results[i as int] == dim_param(at@, cga, i as nat));
        }
        let d = dim(name, i);
        let source = cat4("const ", d.as_str(), ": ", element_type);
        assert(source@ == const_param_source(d@, element_type@));
        let failure = cat3("Failed to parse generic param '", source.as_str(), "'");
        match judge(
            at.as_str(),
            failure.as_str(),
            splits_into_tokens(source.as_str()),
            refuse_generic_param(source.as_str()),
        ) {
            Err(e) => {
                return Err(e);
            },
            Ok(_) => {},
        }
        let param = GenericParam::Const {
            ident: d,
            ty: Type::Path(make_name_path("i32".to_owned())),
            rest: "".to_owned(),
        };
        let ghost prev = out@;
        out.push(param);
        assert(views(out@) =~= views(prev).push(param@));
        i = i + 1;
    }
    assert(results.take(i as int) =~= results);
    Ok(out)
}

fn expand(p: &GenericParam, b: &RankBindings) -> (r: Result<Vec<GenericParam>, Error>)
    ensures
        match r {
            Ok(v) => expand_param(p@, b@) == Ok::<Seq<GenericParamS>, ErrorS>(views(v@)),
            Err(e) => expand_param(p@, b@) == Err::<Seq<GenericParamS>, ErrorS>(e@),
        },
{
    match p {
        GenericParam::Const { ident, ty, rest: _ } => match ty {
            Type::Array { .. } => {
                return match b.array(ident.as_str()) {
                    None => {
                        let m = cat3("Missing inst_array entry for '", ident.as_str(), "'");
                        ident.err(m.as_str())
                    },
                    Some(cga) => if !same(cga.element_type.as_str(), "i32") {
                        let m = cat3(
                            "Expected element_type 'i32', got '",
                            cga.element_type.as_str(),
                            "'",
                        );
                        ident.err(m.as_str())
                    } else {
                        expand_dims(
                            ident,
                            cga.name.as_str(),
                            cga.element_type.as_str(),
                            cga.length,
                        )
                    },
                };
            },
            _ => {},
        },
        _ => {},
    }
    let mut one: Vec<GenericParam> = Vec::new();
    one.push(p.copy());
    assert(views(one@) =~= seq![p@]);
    Ok(one)
}

fn push_params(out: &mut Vec<GenericParam>, more: Vec<GenericParam>)
    ensures
        views(final(out)@) == views(old(out)@) + views(more@),
{
    let ghost before = views(out@);
    let mut i: usize = 0;
    while i < more.len()
        invariant
            i <= more@.len(),
            views(out@) == before + views(more@).take(i as int),
        decreases more@.len() - i,
    {
        let ghost prev = out@;
        out.push(more[i].copy());
        assert(views(out@) =~= views(prev).push(more@[i as int]@));
        assert(views(out@) =~= before + views(more@).take(i + 1));
        i = i + 1;
    }
    assert(views(more@).take(i as int) =~= views(more@));
}

/// Expands const generic array params in a `Generics` clause into individual const
/// params.
pub fn rewrite_generics_for_rank(generics: &Generics, const_instances: &RankBindings) -> (r: Result<
    Generics,
    Error,
>)
    ensures
        agrees(r, rewrite_generics(generics@, const_instances@)),
{
    let ghost params = generics@.params;
    let ghost results = expanded_params(params, const_instances@);
    let ghost mut lists: Seq<Seq<GenericParamS>> = seq![];
    let mut out: Vec<GenericParam> = Vec::new();
    let mut i: usize = 0;
    assert(results.take(0) =~= seq![]);
    assert(views(out@) =~= concat(lists));
    while i < generics.params.len()
        invariant
            i <= generics.params@.len(),
            params == views(generics.params@),
            results == expanded_params(params, const_instances@),
            collect(results.take(i as int)) == Ok::<Seq<Seq<GenericParamS>>, ErrorS>(lists),
            views(out@) == concat(lists),
        decreases generics.params@.len() - i,
    {
        proof {
            lemma_collect_step(results, i as int);
            assert(results[i as int] == expand_param(
                generics.params@[i as int]@,
                const_instances@,
            ));
        }
        let more = match expand(&generics.params[i], const_instances) {
            Ok(v) => v,
            Err(e) => {
                return Err(e);
            },
        };
        proof {
            let next = lists.push(views(more@));
            assert(next.drop_last() =~= lists);
            lists = next;
        }
        push_params(&mut out, more);
        i = i + 1;
    }
    assert(results.take(i as int) =~= results);
    Ok(Generics { params: out, where_clause: clone_opt_strings(&generics.where_clause) })
}

// ---------------------------------------------------------------------------
// Arguments of a trait
// ---------------------------------------------------------------------------

/// A type argument that is a single name.
pub open spec fn name_arg(name: Text) -> ArgS {
    ArgS::Type(TypeS::Path(name_path(name)))
}

/// What one argument of a trait becomes: the bare name of an array is replaced by its
/// dimensions, any other type is specialised.
pub open spec fn expand_trait_arg(a: ArgS, b: RankBindingsS) -> Result<Seq<ArgS>, ErrorS> {
    match a {
        ArgS::Type(t) => {
            let array = match t {
                TypeS::Path(p) => match path_ident(p) {
                    Some(name) => if b.inst_array.contains_key(name) {
                        Some(b.inst_array[name])
                    } else {
                        None
                    },
                    None => None,
                },
                _ => None,
            };
            match array {
                Some(cga) => Ok(Seq::new(cga.length, |i: int| name_arg(dim_text(cga.name, i as nat)))),
                None => match rewrite_type(t, b) {
                    Err(e) => Err(e),
                    Ok(t) => Ok(seq![ArgS::Type(t)]),
                },
            }
        },
        _ => Ok(seq![a]),
    }
}

pub open spec fn expanded_trait_args(args: Seq<ArgS>, b: RankBindingsS) -> Seq<
    Result<Seq<ArgS>, ErrorS>,
> {
    Seq::new(args.len(), |i: int| expand_trait_arg(args[i], b))
}

pub open spec fn expand_trait_args(args: Seq<ArgS>, b: RankBindingsS) -> Result<Seq<ArgS>, ErrorS> {
    match collect(expanded_trait_args(args, b)) {
        Err(e) => Err(e),
        Ok(lists) => Ok(concat(lists)),
    }
}

fn array_of<'a>(t: &Type, b: &'a RankBindings) -> (r: Option<&'a super::bindings::CGAParameter>)
    ensures
        ({
            let array = match t@ {
                TypeS::Path(p) => match path_ident(p) {
                    Some(name) => if b@.inst_array.contains_key(name) {
                        Some(b@.inst_array[name])
                    } else {
                        None
                    },
                    None => None,
                },
                _ => None,
            };
            match r {
                Some(c) => array == Some(c@),
                None => array is None,
            }
        }),
{
    match t {
        Type::Path(p) => match get_ident(p) {
            Some(name) => b.array(name.as_str()),
            None => None,
        },
        _ => None,
    }
}

fn trait_arg(a: &GenericArgument, b: &RankBindings) -> (r: Result<Vec<GenericArgument>, Error>)
    ensures
        match r {
            Ok(v) => expand_trait_arg(a@, b@) == Ok::<Seq<ArgS>, ErrorS>(args_s(v@)),
            Err(e) => expand_trait_arg(a@, b@) == Err::<Seq<ArgS>, ErrorS>(e@),
        },
{
    let mut out: Vec<GenericArgument> = Vec::new();
    match a {
        GenericArgument::Type(t) => match array_of(t, b) {
            Some(cga) => {
                let mut i: u32 = 0;
                while i < cga.length
                    invariant
                        i <= cga.length,
                        out@.len() == i,
                        forall|j: int|
                            0 <= j < i ==> arg_s(#[trigger] out@[j]) == name_arg(
                                dim_text(cga.name@, j as nat),
                            ),
                    decreases cga.length - i,
                {
                    let d = dim(cga.name.as_str(), i);
                    out.push(GenericArgument::Type(Type::Path(make_name_path(d))));
                    i = i + 1;
                }
                assert(args_s(out@) =~= Seq::new(
                    cga.length as nat,
                    |i: int| name_arg(dim_text(cga.name@, i as nat)),
                ));
                Ok(out)
            },
            None => match rewrite_type_for_rank(t, b) {
                Ok(t) => {
                    let ghost model = t@;
                    out.push(GenericArgument::Type(t));
                    assert(args_s(out@) =~= seq![ArgS::Type(model)]);
                    Ok(out)
                },
                Err(e) => Err(e),
            },
        },
        other => {
            out.push(clone_arg(other));
            assert(args_s(out@) =~= seq![a@]);
            Ok(out)
        },
    }
}

fn push_args(out: &mut Vec<GenericArgument>, more: Vec<GenericArgument>)
    ensures
        args_s(final(out)@) == args_s(old(out)@) + args_s(more@),
{
    let ghost before = args_s(out@);
    let mut i: usize = 0;
    assert(args_s(more@).take(0) =~= seq![]);
    assert(args_s(out@) =~= before + args_s(more@).take(0));
    while i < more.len()
        invariant
            i <= more@.len(),
            args_s(more@).len() == more@.len(),
            args_s(out@) == before + args_s(more@).take(i as int),
        decreases more@.len() - i,
    {
        let ghost prev = out@;
        out.push(clone_arg(&more[i]));
        assert(args_s(more@)[i as int] == arg_s(more@[i as int]));
        assert(args_s(out@) =~= args_s(prev).push(more@[i as int]@));
        assert(args_s(more@).take(i + 1) =~= args_s(more@).take(i as int).push(
            more@[i as int]@,
        ));
        assert(args_s(out@) =~= before + args_s(more@).take(i + 1));
        i = i + 1;
    }
    assert(args_s(more@).take(i as int) =~= args_s(more@));
}

/// Desugars variadic types within angle-bracketed generic arguments.
///
/// - Bare CGA name (e.g. `<E, D>` where `D: [i32; N]`): expand to the per-rank scalar
///   dim refs `D_0, D_1, …, D_{K-1}`.
/// - Type referencing a CGA (e.g. `<E, Tile<E, D>>`): suffix and expand as in any type.
pub fn rewrite_generic_args_for_rank(
    generic_args: &Vec<GenericArgument>,
    const_instances: &RankBindings,
) -> (r: Result<Vec<GenericArgument>, Error>)
    ensures
        match r {
            Ok(v) => expand_trait_args(args_s(generic_args@), const_instances@) == Ok::<
                Seq<ArgS>,
                ErrorS,
            >(args_s(v@)),
            Err(e) => expand_trait_args(args_s(generic_args@), const_instances@) == Err::<
                Seq<ArgS>,
                ErrorS,
            >(e@),
        },
{
    let ghost models = args_s(generic_args@);
    let ghost results = expanded_trait_args(models, const_instances@);
    let ghost mut lists: Seq<Seq<ArgS>> = seq![];
    let mut out: Vec<GenericArgument> = Vec::new();
    let mut i: usize = 0;
    assert(results.take(0) =~= seq![]);
    assert(args_s(out@) =~= concat(lists));
    while i < generic_args.len()
        invariant
            i <= generic_args@.len(),
            models == args_s(generic_args@),
            models.len() == generic_args@.len(),
            results == expanded_trait_args(models, const_instances@),
            collect(results.take(i as int)) == Ok::<Seq<Seq<ArgS>>, ErrorS>(lists),
            args_s(out@) == concat(lists),
        decreases generic_args@.len() - i,
    {
        proof {
            lemma_collect_step(results, i as int);
            assert(models[i as int] == arg_s(generic_args@[i as int]));
            assert(results[i as int] == expand_trait_arg(models[i as int], const_instances@));
        }
        let more = match trait_arg(&generic_args[i], const_instances) {
            Ok(v) => v,
            Err(e) => {
                return Err(e);
            },
        };
        proof {
            let next = lists.push(args_s(more@));
            assert(next.drop_last() =~= lists);
            lists = next;
        }
        push_args(&mut out, more);
        i = i + 1;
    }
    assert(results.take(i as int) =~= results);
    Ok(out)
}

// ---------------------------------------------------------------------------
// Signatures
// ---------------------------------------------------------------------------

/// An argument of a function; a receiver stays as it is.
pub open spec fn rewrite_fn_arg(a: FnArgS, b: RankBindingsS) -> Result<FnArgS, ErrorS> {
    match a {
        FnArgS::Receiver(_) => Ok(a),
        FnArgS::Typed { pat, ty } => match rewrite_type(ty, b) {
            Err(e) => Err(e),
            Ok(ty) => Ok(FnArgS::Typed { pat, ty }),
        },
    }
}

pub open spec fn rewritten_fn_args(v: Seq<FnArgS>, b: RankBindingsS) -> Seq<
    Result<FnArgS, ErrorS>,
> {
    Seq::new(v.len(), |i: int| rewrite_fn_arg(v[i], b))
}

pub open spec fn rewrite_output(t: Option<TypeS>, b: RankBindingsS) -> Result<
    Option<TypeS>,
    ErrorS,
> {
    match t {
        None => Ok(None),
        Some(t) => match rewrite_type(t, b) {
            Err(e) => Err(e),
            Ok(t) => Ok(Some(t)),
        },
    }
}

/// Generics, arguments and return type specialised, in this order.
pub open spec fn rewrite_sig(s: SignatureS, b: RankBindingsS) -> Result<SignatureS, ErrorS> {
    match rewrite_generics(s.generics, b) {
        Err(e) => Err(e),
        Ok(generics) => match collect(rewritten_fn_args(s.inputs, b)) {
            Err(e) => Err(e),
            Ok(inputs) => match rewrite_output(s.output, b) {
                Err(e) => Err(e),
                Ok(output) => Ok(SignatureS { generics, inputs, output, ..s }),
            },
        },
    }
}

fn fn_args(v: &Vec<FnArg>, b: &RankBindings) -> (r: Result<Vec<FnArg>, Error>)
    ensures
        match r {
            Ok(w) => collect(rewritten_fn_args(views(v@), b@)) == Ok::<Seq<FnArgS>, ErrorS>(
                views(w@),
            ),
            Err(e) => collect(rewritten_fn_args(views(v@), b@)) == Err::<Seq<FnArgS>, ErrorS>(e@),
        },
{
    let ghost models = views(v@);
    let ghost results = rewritten_fn_args(models, b@);
    let mut out: Vec<FnArg> = Vec::new();
    let mut i: usize = 0;
    assert(results.take(0) =~= seq![]);
    assert(views(out@) =~= seq![]);
    while i < v.len()
        invariant
            i <= v@.len(),
            models == views(v@),
            results == rewritten_fn_args(models, b@),
            collect(results.take(i as int)) == Ok::<Seq<FnArgS>, ErrorS>(views(out@)),
        decreases v@.len() - i,
    {
        proof {
            lemma_collect_step(results, i as int);
            assert(results[i as int] == rewrite_fn_arg(v@[i as int]@, b@));
        }
        let done = match &v[i] {
            FnArg::Receiver(_) => v[i].copy(),
            FnArg::Typed { pat, ty } => match rewrite_type_for_rank(ty, b) {
                Ok(ty) => FnArg::Typed { pat: pat.copy(), ty },
                Err(e) => {
                    return Err(e);
                },
            },
        };
        let ghost prev = out@;
        out.push(done);
        assert(views(out@) =~= views(prev).push(done@));
        i = i + 1;
    }
    assert(results.take(i as int) =~= results);
    Ok(out)
}

/// Desugars const generic arrays in a function signature's generics, inputs, and output.
pub fn rewrite_fn_sig(sig: &Signature, const_instances: &RankBindings) -> (r: Result<
    Signature,
    Error,
>)
    ensures
        agrees(r, rewrite_sig(sig@, const_instances@)),
{
    let generics = match rewrite_generics_for_rank(&sig.generics, const_instances) {
        Ok(g) => g,
        Err(e) => {
            return Err(e);
        },
    };
    let inputs = match fn_args(&sig.inputs, const_instances) {
        Ok(v) => v,
        Err(e) => {
            return Err(e);
        },
    };
    let output = match &sig.output {
        None => None,
        Some(t) => match rewrite_type_for_rank(t, const_instances) {
            Ok(t) => Some(t),
            Err(e) => {
                return Err(e);
            },
        },
    };
    Ok(
        Signature {
            qualifiers: sig.qualifiers.clone(),
            is_unsafe: sig.is_unsafe,
            ident: sig.ident.clone(),
            generics,
            inputs,
            output,
        },
    )
}

} // verus!
