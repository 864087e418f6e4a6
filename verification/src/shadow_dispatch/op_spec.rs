//! Parsed view of a rank-polymorphic operation.
use super::ranks::{declared_cgas, find_cgas, CgaInfo, CgaInfoS};
use super::types::{
    find_cga, first_cga, references, same_source, type_references_ident, types_equal,
};
use crate::ast::{Type, TypeS};
use crate::copy::clone_type;
use crate::error::{agrees, error_at, Error, ErrorS, SpannedError};
use crate::items::{
    clone_opt_strings, opt_texts, views, FnArg, FnArgS, GenericParam, GenericParamS, ItemFn,
    ItemFnS,
};
use crate::lists::{collect, lemma_collect_step};
use crate::text::{
    cat2, decimal, decimal_text, includes, opt_text, pascal_case, pascal_text, same, slots_s, texts, Text,
};
use vstd::prelude::*;

verus! {

// ---------------------------------------------------------------------------
// Arguments
// ---------------------------------------------------------------------------

/// An argument of the operation.
#[derive(Debug)]
pub struct ParsedArg {
    pub name: String,
    /// CGA this arg's type references (first match), if any.
    pub cga: Option<String>,
    pub ty: Type,
    /// Whether this arg's type is structurally identical to the first shape-bearing arg's
    /// type (so it should become `Self` in the method).
    pub is_self_like: bool,
}

pub struct ParsedArgS {
    pub name: Text,
    pub cga: Option<Text>,
    pub ty: TypeS,
    pub is_self_like: bool,
}

impl View for ParsedArg {
    type V = ParsedArgS;

    open spec fn view(&self) -> ParsedArgS {
        ParsedArgS {
            name: self.name@,
            cga: opt_text(self.cga),
            ty: self.ty@,
            is_self_like: self.is_self_like,
        }
    }
}

/// The name and the type of an argument. A receiver, and a pattern that is not a plain
/// binding, is an error.
pub open spec fn plain_arg(a: FnArgS) -> Result<(Text, TypeS), ErrorS> {
    match a {
        FnArgS::Receiver(t) => Err(
            error_at(t, "shadow_dispatch: free fns only (no `self` receiver)"@),
        ),
        FnArgS::Typed { pat, ty } => match pat.ident {
            Some(name) => Ok((name, ty)),
            None => Err(
                error_at(pat.source, "shadow_dispatch: unsupported argument pattern"@),
            ),
        },
    }
}

pub open spec fn plain_args(v: Seq<FnArgS>) -> Seq<Result<(Text, TypeS), ErrorS>> {
    Seq::new(v.len(), |i: int| plain_arg(v[i]))
}

/// The name of the first array that occurs in a type.
pub open spec fn cga_name(cgas: Seq<CgaInfoS>, t: TypeS) -> Option<Text> {
    match first_cga(cgas, t, 0) {
        Some(i) => Some(cgas[i as int].cga_ident),
        None => None,
    }
}

/// The first argument from index `i` on whose type mentions an array.
pub open spec fn first_shape(v: Seq<(Text, TypeS)>, cgas: Seq<CgaInfoS>, i: nat) -> Option<nat>
    decreases v.len() - i,
{
    if i >= v.len() {
        None
    } else if cga_name(cgas, v[i as int].1) is Some {
        Some(i)
    } else {
        first_shape(v, cgas, i + 1)
    }
}

/// An argument next to the first shape-bearing one, whose type is `receiver`.
pub open spec fn parse_arg(a: (Text, TypeS), cgas: Seq<CgaInfoS>, receiver: TypeS) -> ParsedArgS {
    let cga = cga_name(cgas, a.1);
    ParsedArgS { name: a.0, cga, ty: a.1, is_self_like: cga is Some && same_source(receiver, a.1) }
}

pub open spec fn parse_args(v: Seq<(Text, TypeS)>, cgas: Seq<CgaInfoS>, receiver: TypeS) -> Seq<
    ParsedArgS,
> {
    Seq::new(v.len(), |i: int| parse_arg(v[i], cgas, receiver))
}

/// A name occurs in the type of an argument.
pub open spec fn in_args(args: Seq<ParsedArgS>, name: Text) -> bool {
    exists|i: int| 0 <= i < args.len() && references((#[trigger] args[i]).ty, name)
}

/// A name occurs in the type of an argument that mentions no array.
pub open spec fn in_plain_args(args: Seq<ParsedArgS>, name: Text) -> bool {
    exists|i: int|
        0 <= i < args.len() && (#[trigger] args[i]).cga is None && references(args[i].ty, name)
}

fn name_in_args(args: &Vec<ParsedArg>, name: &str) -> (r: bool)
    ensures
        r == in_args(views(args@), name@),
{
    let mut i: usize = 0;
    while i < args.len()
        invariant
            i <= args@.len(),
            forall|j: int| 0 <= j < i ==> !references((#[trigger] views(args@)[j]).ty, name@),
        decreases args@.len() - i,
    {
        assert(views(args@)[i as int] == args@[i as int]@);
        if type_references_ident(&args[i].ty, name) {
            return true;
        }
        i = i + 1;
    }
    false
}

fn name_in_plain_args(args: &Vec<ParsedArg>, name: &str) -> (r: bool)
    ensures
        r == in_plain_args(views(args@), name@),
{
    let mut i: usize = 0;
    while i < args.len()
        invariant
            i <= args@.len(),
            forall|j: int|
                0 <= j < i ==> !((#[trigger] views(args@)[j]).cga is None && references(
                    views(args@)[j].ty,
                    name@,
                )),
        decreases args@.len() - i,
    {
        assert(views(args@)[i as int] == args@[i as int]@);
        if args[i].cga.is_none() && type_references_ident(&args[i].ty, name) {
            return true;
        }
        i = i + 1;
    }
    false
}

// ---------------------------------------------------------------------------
// Generics
// ---------------------------------------------------------------------------

/// A lifetime that appears in the return type but not in any argument type.
pub open spec fn is_dead(p: GenericParamS, args: Seq<ParsedArgS>, ret: TypeS) -> bool {
    p matches GenericParamS::Lifetime { ident, .. } && references(ret, ident) && !in_args(
        args,
        ident,
    )
}

/// The names of the dead lifetimes among the first `k` parameters.
pub open spec fn dead_names(
    params: Seq<GenericParamS>,
    args: Seq<ParsedArgS>,
    ret: TypeS,
    k: nat,
) -> Seq<Text>
    decreases k,
{
    if k == 0 {
        seq![]
    } else {
        let rest = dead_names(params, args, ret, (k - 1) as nat);
        if is_dead(params[k - 1], args, ret) { rest.push(params[k - 1].name()) } else { rest }
    }
}

/// A parameter that stands for an array or for a length.
pub open spec fn is_rank_param(p: GenericParamS, cgas: Seq<CgaInfoS>) -> bool {
    p matches GenericParamS::Const { ident, .. } && exists|i: int|
        0 <= i < cgas.len() && ((#[trigger] cgas[i]).cga_ident == ident || cgas[i].length_ident
            == ident)
}

/// A lifetime parameter with one of the given names.
pub open spec fn is_dead_lifetime(p: GenericParamS, dead: Seq<Text>) -> bool {
    p matches GenericParamS::Lifetime { ident, .. } && dead.contains(ident)
}

/// The parameters among the first `k` that are neither dead lifetimes nor arrays or
/// lengths, and that occur (`plain`) or do not occur in an argument that mentions no array.
pub open spec fn kept_params(
    params: Seq<GenericParamS>,
    cgas: Seq<CgaInfoS>,
    args: Seq<ParsedArgS>,
    dead: Seq<Text>,
    plain: bool,
    k: nat,
) -> Seq<GenericParamS>
    decreases k,
{
    if k == 0 {
        seq![]
    } else {
        let rest = kept_params(params, cgas, args, dead, plain, (k - 1) as nat);
        let p = params[k - 1];
        if is_dead_lifetime(p, dead) || is_rank_param(p, cgas) || in_plain_args(args, p.name())
            != plain {
            rest
        } else {
            rest.push(p)
        }
    }
}

/// An argument that mentions no array, but a length of one.
pub open spec fn is_rank_dependent(a: ParsedArgS, cgas: Seq<CgaInfoS>) -> bool {
    a.cga is None && exists|i: int|
        0 <= i < cgas.len() && references(a.ty, (#[trigger] cgas[i]).length_ident)
}

/// How many of the first `k` arguments are rank-dependent.
pub open spec fn rank_dependent_count(args: Seq<ParsedArgS>, cgas: Seq<CgaInfoS>, k: nat) -> nat
    decreases k,
{
    if k == 0 {
        0
    } else {
        rank_dependent_count(args, cgas, (k - 1) as nat) + if is_rank_dependent(args[k - 1], cgas) {
            1nat
        } else {
            0nat
        }
    }
}

/// The names of the generics for rank-dependent arguments: `__td_arg0`, `__td_arg1`, ...
pub open spec fn rank_dependent_names(args: Seq<ParsedArgS>, cgas: Seq<CgaInfoS>) -> Seq<
    Option<Text>,
> {
    Seq::new(
        args.len(),
        |i: int|
            if is_rank_dependent(args[i], cgas) {
                Some("__td_arg"@ + decimal_text(rank_dependent_count(args, cgas, i as nat)))
            } else {
                None
            },
    )
}

/// The names of the lifetimes for dead ones: `__td_lt0`, `__td_lt1`, ...
pub open spec fn fresh_lifetimes(n: nat) -> Seq<Text> {
    Seq::new(n, |i: int| "__td_lt"@ + decimal_text(i as nat))
}

// ---------------------------------------------------------------------------
// The operation
// ---------------------------------------------------------------------------

/// Parsed view of a rank-polymorphic op's signature.
#[derive(Debug)]
pub struct RankPolyOpSpec {
    /// The free-fn's ident (used for wrapper name, trait name basis).
    pub fn_ident: String,
    /// The trait method ident (usually same as `fn_ident`).
    pub method_ident: String,
    pub trait_ident: String,
    /// All CGAs in the signature, in declaration order.
    pub cgas: Vec<CgaInfo>,
    /// Generics that a non-shape-bearing arg references (trait-level).
    pub trait_level_params: Vec<GenericParam>,
    /// Generics that only appear inside shape-bearing arg types (impl-only). Excludes dead
    /// lifetimes, those that appear only in the return type.
    pub impl_only_params: Vec<GenericParam>,
    pub where_clause: Option<Vec<String>>,
    /// Arguments in source order.
    pub args: Vec<ParsedArg>,
    /// The first argument whose type mentions an array.
    pub receiver: usize,
    /// CGA used by return type, if return is shape-bearing.
    pub return_cga: Option<String>,
    /// Full return type.
    pub return_type: Type,
    /// `true` if the `fn` is `unsafe`. Propagated to the trait method, the impl
    /// method, and the wrapper free fn.
    pub is_unsafe: bool,
    /// Lifetime params that appear only in the return.
    pub dead_lifetimes: Vec<String>,
    /// Synthesized trait-level lifetime idents, one per dead lifetime.
    pub dead_lt_idents: Vec<String>,
    /// For each non-shape arg whose type references a CGA length ident (e.g.
    /// `idx: [i32; N]`), the synthesized trait generic ident used in its place. Aligned to
    /// `args` by index.
    pub rank_dep_arg_idents: Vec<Option<String>>,
}

pub struct RankPolyOpSpecS {
    pub fn_ident: Text,
    pub method_ident: Text,
    pub trait_ident: Text,
    pub cgas: Seq<CgaInfoS>,
    pub trait_level_params: Seq<GenericParamS>,
    pub impl_only_params: Seq<GenericParamS>,
    pub where_clause: Option<Seq<Text>>,
    pub args: Seq<ParsedArgS>,
    pub receiver: nat,
    pub return_cga: Option<Text>,
    pub return_type: TypeS,
    pub is_unsafe: bool,
    pub dead_lifetimes: Seq<Text>,
    pub dead_lt_idents: Seq<Text>,
    pub rank_dep_arg_idents: Seq<Option<Text>>,
}

impl View for RankPolyOpSpec {
    type V = RankPolyOpSpecS;

    open spec fn view(&self) -> RankPolyOpSpecS {
        RankPolyOpSpecS {
            fn_ident: self.fn_ident@,
            method_ident: self.method_ident@,
            trait_ident: self.trait_ident@,
            cgas: views(self.cgas@),
            trait_level_params: views(self.trait_level_params@),
            impl_only_params: views(self.impl_only_params@),
            where_clause: opt_texts(self.where_clause),
            args: views(self.args@),
            receiver: self.receiver as nat,
            return_cga: opt_text(self.return_cga),
            return_type: self.return_type@,
            is_unsafe: self.is_unsafe,
            dead_lifetimes: texts(self.dead_lifetimes@),
            dead_lt_idents: texts(self.dead_lt_idents@),
            rank_dep_arg_idents: slots_s(self.rank_dep_arg_idents@),
        }
    }
}

pub open spec fn no_cga_text() -> Text {
    "shadow_dispatch: no `const X: [i32; N]` generic found (is this op rank-polymorphic?)"@
}

/// The return type of a function; the unit type where it gives none.
pub open spec fn return_type_of(output: Option<TypeS>) -> TypeS {
    match output {
        Some(t) => t,
        None => TypeS::Tuple(seq![]),
    }
}

/// The view of an operation whose arrays and arguments are known. The receiver is the
/// argument of that index.
pub open spec fn op_spec(
    item: ItemFnS,
    method: Option<Text>,
    trait_name: Option<Text>,
    cgas: Seq<CgaInfoS>,
    plain: Seq<(Text, TypeS)>,
    receiver: nat,
) -> RankPolyOpSpecS {
    let params = item.sig.generics.params;
    let args = parse_args(plain, cgas, plain[receiver as int].1);
    let ret = return_type_of(item.sig.output);
    let dead = dead_names(params, args, ret, params.len());
    RankPolyOpSpecS {
        fn_ident: item.sig.ident,
        method_ident: match method {
            Some(m) => m,
            None => item.sig.ident,
        },
        trait_ident: match trait_name {
            Some(t) => t,
            None => pascal_text(item.sig.ident, true),
        },
        cgas,
        trait_level_params: kept_params(params, cgas, args, dead, true, params.len()),
        impl_only_params: kept_params(params, cgas, args, dead, false, params.len()),
        where_clause: item.sig.generics.where_clause,
        args,
        receiver,
        return_cga: match item.sig.output {
            Some(t) => cga_name(cgas, t),
            None => None,
        },
        return_type: ret,
        is_unsafe: item.sig.is_unsafe,
        dead_lifetimes: dead,
        dead_lt_idents: fresh_lifetimes(dead.len()),
        rank_dep_arg_idents: rank_dependent_names(args, cgas),
    }
}

/// The view of an operation. It needs an array, plain arguments only, and an argument that
/// mentions an array.
pub open spec fn parse_op(item: ItemFnS, method: Option<Text>, trait_name: Option<Text>) -> Result<
    RankPolyOpSpecS,
    ErrorS,
> {
    match declared_cgas(item.sig.generics.params) {
        Err(e) => Err(e),
        Ok(cgas) => if cgas.len() == 0 {
            Err(error_at(item.sig.ident, no_cga_text()))
        } else {
            match collect(plain_args(item.sig.inputs)) {
                Err(e) => Err(e),
                Ok(plain) => match first_shape(plain, cgas, 0) {
                    None => Err(
                        error_at(
                            item.sig.ident,
                            "shadow_dispatch: no shape-bearing argument found"@,
                        ),
                    ),
                    Some(receiver) => Ok(
                        op_spec(item, method, trait_name, cgas, plain, receiver),
                    ),
                },
            }
        },
    }
}

pub open spec fn pairs_view(v: Seq<(String, Type)>) -> Seq<(Text, TypeS)> {
    Seq::new(v.len(), |i: int| (v[i].0@, v[i].1@))
}

fn collect_args(inputs: &Vec<FnArg>) -> (r: Result<Vec<(String, Type)>, Error>)
    ensures
        match r {
            Ok(v) => collect(plain_args(views(inputs@))) == Ok::<Seq<(Text, TypeS)>, ErrorS>(
                pairs_view(v@),
            ),
            Err(e) => collect(plain_args(views(inputs@))) == Err::<Seq<(Text, TypeS)>, ErrorS>(e@),
        },
{
    let ghost models = views(inputs@);
    let ghost results = plain_args(models);
    let mut out: Vec<(String, Type)> = Vec::new();
    let mut i: usize = 0;
    assert(results.take(0) =~= seq![]);
    assert(pairs_view(out@) =~= seq![]);
    while i < inputs.len()
        invariant
            i <= inputs@.len(),
            models == views(inputs@),
            results == plain_args(models),
            collect(results.take(i as int)) == Ok::<Seq<(Text, TypeS)>, ErrorS>(pairs_view(out@)),
        decreases inputs@.len() - i,
    {
        proof {
            lemma_collect_step(results, i as int);
            assert(results[i as int] == plain_arg(inputs@[i as int]@));
        }
        match &inputs[i] {
            FnArg::Receiver(t) => {
                return t.err("shadow_dispatch: free fns only (no `self` receiver)");
            },
            FnArg::Typed { pat, ty } => match &pat.ident {
                Some(name) => {
                    let ghost prev = out@;
                    out.push((name.clone(), clone_type(ty)));
                    assert(pairs_view(out@) =~= pairs_view(prev).push((name@, ty@)));
                },
                None => {
                    return pat.source.err("shadow_dispatch: unsupported argument pattern");
                },
            },
        }
        i = i + 1;
    }
    assert(results.take(i as int) =~= results);
    Ok(out)
}

fn find_shape(v: &Vec<(String, Type)>, cgas: &Vec<CgaInfo>) -> (r: Option<usize>)
    ensures
        match r {
            Some(i) => i < v@.len() && first_shape(pairs_view(v@), views(cgas@), 0) == Some(
                i as nat,
            ),
            None => first_shape(pairs_view(v@), views(cgas@), 0) is None,
        },
{
    let mut i: usize = 0;
    while i < v.len()
        invariant
            i <= v@.len(),
            first_shape(pairs_view(v@), views(cgas@), 0) == first_shape(
                pairs_view(v@),
                views(cgas@),
                i as nat,
            ),
        decreases v@.len() - i,
    {
        if find_cga(cgas, &v[i].1).is_some() {
            return Some(i);
        }
        i = i + 1;
    }
    None
}

fn name_of_cga(cgas: &Vec<CgaInfo>, ty: &Type) -> (r: Option<String>)
    ensures
        opt_text(r) == cga_name(views(cgas@), ty@),
{
    match find_cga(cgas, ty) {
        Some(i) => Some(cgas[i].cga_ident.clone()),
        None => None,
    }
}

fn make_args(v: &Vec<(String, Type)>, cgas: &Vec<CgaInfo>, receiver: &Type) -> (r: Vec<ParsedArg>)
    ensures
        views(r@) == parse_args(pairs_view(v@), views(cgas@), receiver@),
{
    let mut out: Vec<ParsedArg> = Vec::new();
    let mut i: usize = 0;
    while i < v.len()
        invariant
            i <= v@.len(),
            out@.len() == i,
            forall|j: int|
                0 <= j < i ==> (#[trigger] out@[j])@ == parse_arg(
                    pairs_view(v@)[j],
                    views(cgas@),
                    receiver@,
                ),
        decreases v@.len() - i,
    {
        let cga = name_of_cga(cgas, &v[i].1);
        let is_self_like = cga.is_some() && types_equal(receiver, &v[i].1);
        out.push(
            ParsedArg { name: v[i].0.clone(), cga, ty: clone_type(&v[i].1), is_self_like },
        );
        i = i + 1;
    }
    assert(views(out@) =~= parse_args(pairs_view(v@), views(cgas@), receiver@));
    out
}

fn find_dead(params: &Vec<GenericParam>, args: &Vec<ParsedArg>, ret: &Type) -> (r: Vec<String>)
    ensures
        texts(r@) == dead_names(views(params@), views(args@), ret@, params@.len()),
{
    let mut out: Vec<String> = Vec::new();
    let mut i: usize = 0;
    assert(texts(out@) =~= seq![]);
    while i < params.len()
        invariant
            i <= params@.len(),
            texts(out@) == dead_names(views(params@), views(args@), ret@, i as nat),
        decreases params@.len() - i,
    {
        assert(views(params@)[i as int] == params@[i as int]@);
        match &params[i] {
            GenericParam::Lifetime { ident, rest: _ } => {
                if type_references_ident(ret, ident.as_str()) && !name_in_args(
                    args,
                    ident.as_str(),
                ) {
                    let ghost prev = out@;
                    out.push(ident.clone());
                    proof {
                        crate::text::lemma_texts_push(prev, out@.last());
                    }
                }
            },
            _ => {},
        }
        i = i + 1;
    }
    out
}

fn stands_for_rank(p: &GenericParam, cgas: &Vec<CgaInfo>) -> (r: bool)
    ensures
        r == is_rank_param(p@, views(cgas@)),
{
    match p {
        GenericParam::Const { ident, ty: _, rest: _ } => {
            let mut i: usize = 0;
            while i < cgas.len()
                invariant
                    i <= cgas@.len(),
                    p@ matches GenericParamS::Const { ident: name, .. } && name == ident@,
                    forall|j: int|
                        0 <= j < i ==> !((#[trigger] views(cgas@)[j]).cga_ident == ident@ || views(
                            cgas@,
                        )[j].length_ident == ident@),
                decreases cgas@.len() - i,
            {
                assert(views(cgas@)[i as int] == cgas@[i as int]@);
                if same(cgas[i].cga_ident.as_str(), ident.as_str()) || same(
                    cgas[i].length_ident.as_str(),
                    ident.as_str(),
                ) {
                    return true;
                }
                i = i + 1;
            }
            false
        },
        _ => false,
    }
}

fn is_dead_param(p: &GenericParam, dead: &Vec<String>) -> (r: bool)
    ensures
        r == is_dead_lifetime(p@, texts(dead@)),
{
    match p {
        GenericParam::Lifetime { ident, rest: _ } => includes(dead, ident.as_str()),
        _ => false,
    }
}

fn keep_params(
    params: &Vec<GenericParam>,
    cgas: &Vec<CgaInfo>,
    args: &Vec<ParsedArg>,
    dead: &Vec<String>,
    plain: bool,
) -> (r: Vec<GenericParam>)
    ensures
        views(r@) == kept_params(
            views(params@),
            views(cgas@),
            views(args@),
            texts(dead@),
            plain,
            params@.len(),
        ),
{
    let mut out: Vec<GenericParam> = Vec::new();
    let mut i: usize = 0;
    assert(views(out@) =~= seq![]);
    while i < params.len()
        invariant
            i <= params@.len(),
            views(out@) == kept_params(
                views(params@),
                views(cgas@),
                views(args@),
                texts(dead@),
                plain,
                i as nat,
            ),
        decreases params@.len() - i,
    {
        let p = &params[i];
        assert(views(params@)[i as int] == p@);
        if !is_dead_param(p, dead) && !stands_for_rank(p, cgas) && name_in_plain_args(
            args,
            p.name().as_str(),
        ) == plain {
            let ghost prev = out@;
            out.push(p.copy());
            assert(views(out@) =~= views(prev).push(p@));
        }
        i = i + 1;
    }
    out
}

fn depends_on_rank(a: &ParsedArg, cgas: &Vec<CgaInfo>) -> (r: bool)
    ensures
        r == is_rank_dependent(a@, views(cgas@)),
{
    if a.cga.is_some() {
        return false;
    }
    let mut i: usize = 0;
    while i < cgas.len()
        invariant
            i <= cgas@.len(),
            a@.cga is None,
            forall|j: int|
                0 <= j < i ==> !references(a@.ty, (#[trigger] views(cgas@)[j]).length_ident),
        decreases cgas@.len() - i,
    {
        assert(views(cgas@)[i as int] == cgas@[i as int]@);
        if type_references_ident(&a.ty, cgas[i].length_ident.as_str()) {
            return true;
        }
        i = i + 1;
    }
    false
}

fn name_rank_dependent(args: &Vec<ParsedArg>, cgas: &Vec<CgaInfo>) -> (r: Vec<Option<String>>)
    ensures
        slots_s(r@) == rank_dependent_names(views(args@), views(cgas@)),
{
    let mut out: Vec<Option<String>> = Vec::new();
    let mut next: usize = 0;
    let mut i: usize = 0;
    while i < args.len()
        invariant
            i <= args@.len(),
            next <= i,
            next == rank_dependent_count(views(args@), views(cgas@), i as nat),
            out@.len() == i,
            forall|j: int|
                0 <= j < i ==> opt_text(#[trigger] out@[j]) == rank_dependent_names(
                    views(args@),
                    views(cgas@),
                )[j],
        decreases args@.len() - i,
    {
        assert(views(args@)[i as int] == args@[i as int]@);
        if depends_on_rank(&args[i], cgas) {
            let d = decimal(next);
            out.push(Some(cat2("__td_arg", d.as_str())));
            next = next + 1;
        } else {
            out.push(None);
        }
        i = i + 1;
    }
    assert(slots_s(out@) =~= rank_dependent_names(views(args@), views(cgas@)));
    out
}

fn name_lifetimes(n: usize) -> (r: Vec<String>)
    ensures
        texts(r@) == fresh_lifetimes(n as nat),
{
    let mut out: Vec<String> = Vec::new();
    let mut i: usize = 0;
    while i < n
        invariant
            i <= n,
            out@.len() == i,
            forall|j: int|
                0 <= j < i ==> (#[trigger] out@[j])@ == "__td_lt"@ + decimal_text(j as nat),
        decreases n - i,
    {
        let d = decimal(i);
        out.push(cat2("__td_lt", d.as_str()));
        i = i + 1;
    }
    assert(texts(out@) =~= fresh_lifetimes(n as nat));
    out
}

impl RankPolyOpSpecS {
    /// The receiver is an argument that mentions an array, and the lists fit together.
    pub open spec fn wf(self) -> bool {
        &&& self.receiver < self.args.len()
        &&& self.args[self.receiver as int].cga is Some
        &&& self.args[self.receiver as int].is_self_like
        &&& forall|i: int| 0 <= i < self.receiver ==> (#[trigger] self.args[i]).cga is None
        &&& self.rank_dep_arg_idents.len() == self.args.len()
        &&& self.dead_lifetimes.len() == self.dead_lt_idents.len()
        &&& self.cgas.len() > 0
    }
}

proof fn lemma_first_shape(v: Seq<(Text, TypeS)>, cgas: Seq<CgaInfoS>, i: nat)
    requires
        forall|j: int| 0 <= j < i ==> cga_name(cgas, (#[trigger] v[j]).1) is None,
    ensures
        first_shape(v, cgas, i) matches Some(k) ==> {
            &&& k < v.len()
            &&& cga_name(cgas, v[k as int].1) is Some
            &&& forall|j: int| 0 <= j < k ==> cga_name(cgas, (#[trigger] v[j]).1) is None
        },
    decreases v.len() - i,
{
    if i < v.len() && cga_name(cgas, v[i as int].1) is None {
        lemma_first_shape(v, cgas, i + 1);
    }
}

impl RankPolyOpSpec {
    /// Reads the signature of an operation. `method_override` and `trait_name_override` take
    /// the place of the names that follow from the function's name.
    pub fn parse(
        item: &ItemFn,
        method_override: Option<String>,
        trait_name_override: Option<String>,
    ) -> (r: Result<RankPolyOpSpec, Error>)
        ensures
            agrees(
                r,
                parse_op(item@, opt_text(method_override), opt_text(trait_name_override)),
            ),
            r matches Ok(s) ==> s@.wf(),
    {
        let cgas = match find_cgas(&item.sig.generics) {
            Ok(v) => v,
            Err(e) => {
                return Err(e);
            },
        };
        if cgas.len() == 0 {
            return item.sig.ident.err(
                "shadow_dispatch: no `const X: [i32; N]` generic found (is this op rank-polymorphic?)",
            );
        }
        let plain = match collect_args(&item.sig.inputs) {
            Ok(v) => v,
            Err(e) => {
                return Err(e);
            },
        };
        let receiver: usize = match find_shape(&plain, &cgas) {
            Some(i) => i,
            None => {
                return item.sig.ident.err("shadow_dispatch: no shape-bearing argument found");
            },
        };
        let args = make_args(&plain, &cgas, &plain[receiver].1);
        let (return_type, return_cga) = match &item.sig.output {
            Some(t) => (clone_type(t), name_of_cga(&cgas, t)),
            None => {
                let unit: Vec<Type> = Vec::new();
                assert(crate::ast::types_s(unit@) =~= seq![]);
                (Type::Tuple(unit), None)
            },
        };
        let params = &item.sig.generics.params;
        let dead_lifetimes = find_dead(params, &args, &return_type);
        let dead_lt_idents = name_lifetimes(dead_lifetimes.len());
        let trait_level_params = keep_params(params, &cgas, &args, &dead_lifetimes, true);
        let impl_only_params = keep_params(params, &cgas, &args, &dead_lifetimes, false);
        let rank_dep_arg_idents = name_rank_dependent(&args, &cgas);
        let method_ident = match method_override {
            Some(m) => m,
            None => item.sig.ident.clone(),
        };
        let trait_ident = match trait_name_override {
            Some(t) => t,
            None => pascal_case(item.sig.ident.as_str()),
        };
        proof {
            lemma_first_shape(pairs_view(plain@), views(cgas@), 0);
            let n = receiver as int;
            assert(views(args@)[n] == parse_arg(
                pairs_view(plain@)[n],
                views(cgas@),
                plain@[n].1@,
            ));
            assert forall|i: int| 0 <= i < n implies (#[trigger] views(args@)[i]).cga is None by {
                assert(cga_name(views(cgas@), pairs_view(plain@)[i].1) is None);
            }
        }
        Ok(
            RankPolyOpSpec {
                fn_ident: item.sig.ident.clone(),
                method_ident,
                trait_ident,
                cgas,
                trait_level_params,
                impl_only_params,
                where_clause: clone_opt_strings(&item.sig.generics.where_clause),
                args,
                receiver,
                return_cga,
                return_type,
                is_unsafe: item.sig.is_unsafe,
                dead_lifetimes,
                dead_lt_idents,
                rank_dep_arg_idents,
            },
        )
    }
}

// ---------------------------------------------------------------------------
// Kinds of operations
// ---------------------------------------------------------------------------

/// A type parameter or a constant that the return type mentions and no argument does.
pub open spec fn is_free_param(p: GenericParamS, s: RankPolyOpSpecS) -> bool {
    &&& !(p is Lifetime)
    &&& references(s.return_type, p.name())
    &&& !in_args(s.args, p.name())
}

/// An array that the return type mentions and no argument does.
pub open spec fn is_free_cga(c: CgaInfoS, s: RankPolyOpSpecS) -> bool {
    references(s.return_type, c.cga_ident) && !in_args(s.args, c.cga_ident)
}

impl RankPolyOpSpecS {
    /// The return type is that of the first shape-bearing argument.
    pub open spec fn is_same_shape(self) -> bool {
        let receiver = self.args[self.receiver as int];
        self.return_cga is Some && self.return_cga == receiver.cga && same_source(
            receiver.ty,
            self.return_type,
        )
    }

    /// The operation returns `()`.
    pub open spec fn is_void_return(self) -> bool {
        self.return_type matches TypeS::Tuple(elems) && elems.len() == 0
    }

    /// The return type, other than that of the first shape-bearing argument, mentions a
    /// generic that no argument does.
    pub open spec fn return_is_free(self) -> bool {
        &&& !self.is_same_shape()
        &&& {
            ||| exists|i: int|
                0 <= i < self.impl_only_params.len() && is_free_param(
                    #[trigger] self.impl_only_params[i],
                    self,
                )
            ||| exists|i: int| 0 <= i < self.cgas.len() && is_free_cga(#[trigger] self.cgas[i], self)
        }
    }
}

impl RankPolyOpSpec {
    /// Is the return type the same as that of the Self-like first shape arg?
    pub fn is_same_shape(&self) -> (r: bool)
        requires
            self@.wf(),
        ensures
            r == self@.is_same_shape(),
    {
        let receiver = &self.args[self.receiver];
        assert(self@.args[self.receiver as int] == receiver@);
        match (&self.return_cga, &receiver.cga) {
            (Some(ret), Some(first)) => same(ret.as_str(), first.as_str()) && types_equal(
                &receiver.ty,
                &self.return_type,
            ),
            _ => false,
        }
    }

    /// Returns true if the op returns `()`: the trait method just returns `()`.
    pub fn is_void_return(&self) -> (r: bool)
        ensures
            r == self@.is_void_return(),
    {
        match &self.return_type {
            Type::Tuple(elems) => {
                assert(crate::ast::types_s(elems@).len() == elems@.len());
                elems.len() == 0
            },
            _ => false,
        }
    }

    fn has_free_param(&self) -> (r: bool)
        ensures
            r == exists|i: int|
                0 <= i < self@.impl_only_params.len() && is_free_param(
                    #[trigger] self@.impl_only_params[i],
                    self@,
                ),
    {
        let mut i: usize = 0;
        while i < self.impl_only_params.len()
            invariant
                i <= self.impl_only_params@.len(),
                forall|j: int|
                    0 <= j < i ==> !is_free_param(#[trigger] self@.impl_only_params[j], self@),
            decreases self.impl_only_params@.len() - i,
        {
            let p = &self.impl_only_params[i];
            assert(self@.impl_only_params[i as int] == p@);
            let lifetime = match p {
                GenericParam::Lifetime { .. } => true,
                _ => false,
            };
            if !lifetime && type_references_ident(&self.return_type, p.name().as_str())
                && !name_in_args(&self.args, p.name().as_str()) {
                return true;
            }
            i = i + 1;
        }
        false
    }

    fn has_free_cga(&self) -> (r: bool)
        ensures
            r == exists|i: int|
                0 <= i < self@.cgas.len() && is_free_cga(#[trigger] self@.cgas[i], self@),
    {
        let mut i: usize = 0;
        while i < self.cgas.len()
            invariant
                i <= self.cgas@.len(),
                forall|j: int| 0 <= j < i ==> !is_free_cga(#[trigger] self@.cgas[j], self@),
            decreases self.cgas@.len() - i,
        {
            let c = &self.cgas[i];
            assert(self@.cgas[i as int] == c@);
            if type_references_ident(&self.return_type, c.cga_ident.as_str()) && !name_in_args(
                &self.args,
                c.cga_ident.as_str(),
            ) {
                return true;
            }
            i = i + 1;
        }
        false
    }

    /// The return type contains generic params that aren't present in any argument type. An
    /// associated `Out` cannot be derived because multiple valid Outs would share the same
    /// Self + arg types, so `Out` must become a trait generic that the caller ascribes at the
    /// return site. Examples: `permute`, `reduce_sum`, `exti`, `cat`.
    pub fn return_is_free(&self) -> (r: bool)
        requires
            self@.wf(),
        ensures
            r == self@.return_is_free(),
    {
        if self.is_same_shape() {
            return false;
        }
        self.has_free_param() || self.has_free_cga()
    }
}

} // verus!
