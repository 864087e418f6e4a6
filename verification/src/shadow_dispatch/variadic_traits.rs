//! Desugaring of rank-polymorphic traits and of their impls.
//!
//! For a declaration like
//!
//! ```text
//! pub trait BroadcastScalar<E, const D: [i32; N]> where Self: ElementType {
//!     fn broadcast(self, shape: Shape<D>) -> Tile<E, D>;
//! }
//! ```
//!
//! [`desugar_variadic_trait_decl`] emits a single CGA-erased shadow trait:
//!
//! ```text
//! pub trait BroadcastScalar<E, Sh0> where Self: ElementType {
//!     type Out;
//!     fn broadcast(self, shape: Sh0) -> Self::Out;
//! }
//! ```
//!
//! and [`desugar_variadic_trait_impl`], applied to the matching impl, one concrete impl per
//! combination of ranks. Where some array appears only in a return type, `Out` is a generic
//! of the trait instead of an associated type.
use super::emit::muted_body;
use super::lifetimes::{bind_anon_lifetimes_to, bound, type_uses_lifetime, uses_lifetime};
use super::ranks::{
    combo_at, combo_count, combos, declared_cgas, find_cgas, lemma_combo_wf, CgaInfo, CgaInfoS,
    RankCombo, RankComboS, RankSpace, MAX_RANK,
};
use super::types::{
    arg_cga, find_cga, first_cga, match_arg_to_cga, rank_type, references, rewrite_ty_for_rank,
    type_references_ident,
};
use crate::ast::{
    arg_s, args_s, segment_s, segments_s, ArgS, ArgumentsS, GenericArgument, Path, PathArguments,
    PathS, PathSegment, SegmentS, Type, TypeS,
};
use crate::copy::{clone_arg, clone_path, clone_type};
use crate::error::{error_at, Error, ErrorS, SpannedError};
use crate::items::{
    opt_type, print_where, views, where_text, Attribute, AttributeS, FnArg, FnArgS, GenericParam,
    GenericParamS, ImplItem, ImplItemFn, ImplItemFnS, ImplItemS, ItemImpl, ItemImplS, ItemTrait,
    ItemTraitS, Signature, SignatureS, TraitItem, TraitItemS,
};
use crate::print::{angle_text, path_text, print_angle, print_path, print_type, type_text};
use crate::rank_instantiation::types::{
    make_name_path, name_path, replace_last_arguments, with_last_arguments,
};
use crate::text::{
    append_all, cat2, cat3, cat4, cat5, cat7, decimal, decimal_text, join, join_text,
    lemma_texts_push, same, texts, Text,
};
use vstd::prelude::*;

verus! {

// ---------------------------------------------------------------------------
// Roles of arrays
// ---------------------------------------------------------------------------

/// One CGA's role in the rank-polymorphic-trait desugaring.
#[derive(Debug)]
pub enum CgaRole {
    /// Referenced by some method argument: gets a synthesized `Sh<i>` type generic in the
    /// shadow trait.
    ShapeBound { sh_ident: String },
    /// In no method argument: collapses into the `Out` trait generic.
    Free,
}

pub enum CgaRoleS {
    ShapeBound { sh_ident: Text },
    Free,
}

impl View for CgaRole {
    type V = CgaRoleS;

    open spec fn view(&self) -> CgaRoleS {
        match *self {
            CgaRole::ShapeBound { sh_ident } => CgaRoleS::ShapeBound { sh_ident: sh_ident@ },
            CgaRole::Free => CgaRoleS::Free,
        }
    }
}

/// Per-CGA classification + the shadow trait's overall return-type shape.
#[derive(Debug)]
pub struct RankPolyShape {
    /// Aligned to the trait's CGA list.
    pub roles: Vec<CgaRole>,
    /// Trait generics for shape-bound CGAs, in declaration order.
    pub sh_idents: Vec<String>,
    /// `true` when at least one CGA is free. Determines whether `Out` is a trait generic vs
    /// an associated type.
    pub has_free_cga: bool,
    /// `true` when at least one method's return type uses any CGA.
    pub any_return_uses_cga: bool,
}

pub struct RankPolyShapeS {
    pub roles: Seq<CgaRoleS>,
    pub sh_idents: Seq<Text>,
    pub has_free_cga: bool,
    pub any_return_uses_cga: bool,
}

impl View for RankPolyShape {
    type V = RankPolyShapeS;

    open spec fn view(&self) -> RankPolyShapeS {
        RankPolyShapeS {
            roles: views(self.roles@),
            sh_idents: texts(self.sh_idents@),
            has_free_cga: self.has_free_cga,
            any_return_uses_cga: self.any_return_uses_cga,
        }
    }
}

/// A name occurs in one of the types.
pub open spec fn in_types(types: Seq<TypeS>, name: Text) -> bool {
    exists|i: int| 0 <= i < types.len() && references(#[trigger] types[i], name)
}

/// How many of the first `k` arrays occur in one of the types.
pub open spec fn bound_count(cgas: Seq<CgaInfoS>, types: Seq<TypeS>, k: nat) -> nat
    decreases k,
{
    if k == 0 {
        0
    } else {
        bound_count(cgas, types, (k - 1) as nat) + if in_types(types, cgas[k - 1].cga_ident) {
            1nat
        } else {
            0nat
        }
    }
}

/// The generic of the shape-bound array of that number.
pub open spec fn sh_name(i: nat) -> Text {
    "Sh"@ + decimal_text(i)
}

pub open spec fn role_of(cgas: Seq<CgaInfoS>, types: Seq<TypeS>, i: int) -> CgaRoleS {
    if in_types(types, cgas[i].cga_ident) {
        CgaRoleS::ShapeBound { sh_ident: sh_name(bound_count(cgas, types, i as nat)) }
    } else {
        CgaRoleS::Free
    }
}

/// A type mentions an array.
pub open spec fn uses_cga(t: TypeS, cgas: Seq<CgaInfoS>) -> bool {
    first_cga(cgas, t, 0) is Some
}

/// The roles of all arrays, given the types of all arguments and of all outputs.
pub open spec fn classify(cgas: Seq<CgaInfoS>, args: Seq<TypeS>, outputs: Seq<TypeS>) -> RankPolyShapeS {
    RankPolyShapeS {
        roles: Seq::new(cgas.len(), |i: int| role_of(cgas, args, i)),
        sh_idents: Seq::new(bound_count(cgas, args, cgas.len()), |i: int| sh_name(i as nat)),
        has_free_cga: exists|i: int|
            0 <= i < cgas.len() && !in_types(args, (#[trigger] cgas[i]).cga_ident),
        any_return_uses_cga: exists|i: int|
            0 <= i < outputs.len() && uses_cga(#[trigger] outputs[i], cgas),
    }
}

fn found_in(types: &Vec<&Type>, name: &str) -> (r: bool)
    ensures
        r == in_types(ref_types(types@), name@),
{
    let mut i: usize = 0;
    while i < types.len()
        invariant
            i <= types@.len(),
            forall|j: int| 0 <= j < i ==> !references(#[trigger] ref_types(types@)[j], name@),
        decreases types@.len() - i,
    {
        assert(ref_types(types@)[i as int] == types@[i as int]@);
        if type_references_ident(types[i], name) {
            return true;
        }
        i = i + 1;
    }
    false
}

pub open spec fn ref_types(v: Seq<&Type>) -> Seq<TypeS> {
    Seq::new(v.len(), |i: int| v[i]@)
}

/// Classify each CGA based on whether any method argument references it. `arg_types` are the
/// types of every typed argument across every method, `return_types` the return types.
pub fn classify_cgas(cgas: &Vec<CgaInfo>, arg_types: &Vec<&Type>, return_types: &Vec<&Type>) -> (r:
    RankPolyShape)
    ensures
        r@ == classify(views(cgas@), ref_types(arg_types@), ref_types(return_types@)),
{
    let ghost models = views(cgas@);
    let ghost args = ref_types(arg_types@);
    let ghost outputs = ref_types(return_types@);
    let mut sh_idents: Vec<String> = Vec::new();
    let mut roles: Vec<CgaRole> = Vec::new();
    let mut has_free_cga = false;
    let mut i: usize = 0;
    assert(texts(sh_idents@) =~= seq![]);
    while i < cgas.len()
        invariant
            i <= cgas@.len(),
            models == views(cgas@),
            args == ref_types(arg_types@),
            sh_idents@.len() == bound_count(models, args, i as nat),
            texts(sh_idents@) == Seq::new(
                bound_count(models, args, i as nat),
                |k: int| sh_name(k as nat),
            ),
            roles@.len() == i,
            forall|j: int| 0 <= j < i ==> (#[trigger] roles@[j])@ == role_of(models, args, j),
            has_free_cga == exists|j: int|
                0 <= j < i && !in_types(args, (#[trigger] models[j]).cga_ident),
        decreases cgas@.len() - i,
    {
        assert(models[i as int] == cgas@[i as int]@);
        if found_in(arg_types, cgas[i].cga_ident.as_str()) {
            let d = decimal(sh_idents.len());
            let sh = cat2("Sh", d.as_str());
            roles.push(CgaRole::ShapeBound { sh_ident: sh.clone() });
            let ghost prev = sh_idents@;
            sh_idents.push(sh);
            proof {
                lemma_texts_push(prev, sh);
            }
            assert(texts(sh_idents@) =~= Seq::new(
                bound_count(models, args, (i + 1) as nat),
                |k: int| sh_name(k as nat),
            ));
        } else {
            roles.push(CgaRole::Free);
            has_free_cga = true;
        }
        i = i + 1;
    }
    let mut any_return_uses_cga = false;
    let mut i: usize = 0;
    while i < return_types.len()
        invariant
            i <= return_types@.len(),
            models == views(cgas@),
            outputs == ref_types(return_types@),
            any_return_uses_cga == exists|j: int|
                0 <= j < i && uses_cga(#[trigger] outputs[j], models),
        decreases return_types@.len() - i,
    {
        assert(outputs[i as int] == return_types@[i as int]@);
        if find_cga(cgas, return_types[i]).is_some() {
            any_return_uses_cga = true;
        }
        i = i + 1;
    }
    assert(views(roles@) =~= Seq::new(models.len(), |i: int| role_of(models, args, i)));
    RankPolyShape { roles, sh_idents, has_free_cga, any_return_uses_cga }
}

// ---------------------------------------------------------------------------
// Methods of an item
// ---------------------------------------------------------------------------

/// The types of the typed arguments among the first `k`.
pub open spec fn typed(inputs: Seq<FnArgS>, k: nat) -> Seq<TypeS>
    decreases k,
{
    if k == 0 {
        seq![]
    } else {
        match inputs[k - 1] {
            FnArgS::Typed { pat: _, ty } => typed(inputs, (k - 1) as nat).push(ty),
            FnArgS::Receiver(_) => typed(inputs, (k - 1) as nat),
        }
    }
}

/// The types of all arguments of the first `k` methods.
pub open spec fn all_args(sigs: Seq<SignatureS>, k: nat) -> Seq<TypeS>
    decreases k,
{
    if k == 0 {
        seq![]
    } else {
        all_args(sigs, (k - 1) as nat) + typed(sigs[k - 1].inputs, sigs[k - 1].inputs.len())
    }
}

/// The return types of the first `k` methods.
pub open spec fn all_returns(sigs: Seq<SignatureS>, k: nat) -> Seq<TypeS>
    decreases k,
{
    if k == 0 {
        seq![]
    } else {
        match sigs[k - 1].output {
            Some(t) => all_returns(sigs, (k - 1) as nat).push(t),
            None => all_returns(sigs, (k - 1) as nat),
        }
    }
}

pub open spec fn ref_sigs(v: Seq<&Signature>) -> Seq<SignatureS> {
    Seq::new(v.len(), |i: int| v[i]@)
}

fn push_typed<'a>(out: &mut Vec<&'a Type>, inputs: &'a Vec<FnArg>)
    ensures
        ref_types(final(out)@) == ref_types(old(out)@) + typed(views(inputs@), inputs@.len()),
{
    let ghost start = ref_types(out@);
    let mut i: usize = 0;
    while i < inputs.len()
        invariant
            i <= inputs@.len(),
            ref_types(out@) =~= start + typed(views(inputs@), i as nat),
        decreases inputs@.len() - i,
    {
        assert(views(inputs@)[i as int] == inputs@[i as int]@);
        match &inputs[i] {
            FnArg::Typed { pat: _, ty } => {
                let ghost prev = out@;
                out.push(ty);
                assert(ref_types(out@) =~= ref_types(prev).push(ty@));
            },
            FnArg::Receiver(_) => {},
        }
        i = i + 1;
    }
}

fn collect_args<'a>(sigs: &Vec<&'a Signature>) -> (r: Vec<&'a Type>)
    ensures
        ref_types(r@) == all_args(ref_sigs(sigs@), sigs@.len()),
{
    let mut out: Vec<&'a Type> = Vec::new();
    let mut i: usize = 0;
    assert(ref_types(out@) =~= seq![]);
    while i < sigs.len()
        invariant
            i <= sigs@.len(),
            ref_types(out@) == all_args(ref_sigs(sigs@), i as nat),
        decreases sigs@.len() - i,
    {
        push_typed(&mut out, &sigs[i].inputs);
        i = i + 1;
    }
    out
}

fn collect_returns<'a>(sigs: &Vec<&'a Signature>) -> (r: Vec<&'a Type>)
    ensures
        ref_types(r@) == all_returns(ref_sigs(sigs@), sigs@.len()),
{
    let mut out: Vec<&'a Type> = Vec::new();
    let mut i: usize = 0;
    assert(ref_types(out@) =~= seq![]);
    while i < sigs.len()
        invariant
            i <= sigs@.len(),
            ref_types(out@) == all_returns(ref_sigs(sigs@), i as nat),
        decreases sigs@.len() - i,
    {
        assert(ref_sigs(sigs@)[i as int].output == opt_type(sigs@[i as int].output));
        match &sigs[i].output {
            Some(t) => {
                let ghost prev = out@;
                out.push(t);
                assert(ref_types(out@) =~= ref_types(prev).push(t@));
            },
            None => {},
        }
        i = i + 1;
    }
    out
}

/// The signatures of the methods among the first `k` items of a trait.
pub open spec fn trait_sigs(items: Seq<TraitItemS>, k: nat) -> Seq<SignatureS>
    decreases k,
{
    if k == 0 {
        seq![]
    } else {
        match items[k - 1] {
            TraitItemS::Fn { attrs: _, sig, body: _ } => trait_sigs(items, (k - 1) as nat).push(
                sig,
            ),
            TraitItemS::Verbatim(_) => trait_sigs(items, (k - 1) as nat),
        }
    }
}

/// The signatures of the methods among the first `k` items of an impl block.
pub open spec fn impl_sigs(items: Seq<ImplItemS>, k: nat) -> Seq<SignatureS>
    decreases k,
{
    if k == 0 {
        seq![]
    } else {
        match items[k - 1] {
            ImplItemS::Fn(f) => impl_sigs(items, (k - 1) as nat).push(f.sig),
            _ => impl_sigs(items, (k - 1) as nat),
        }
    }
}

fn collect_trait_sigs<'a>(items: &'a Vec<TraitItem>) -> (r: Vec<&'a Signature>)
    ensures
        ref_sigs(r@) == trait_sigs(views(items@), items@.len()),
{
    let mut out: Vec<&'a Signature> = Vec::new();
    let mut i: usize = 0;
    assert(ref_sigs(out@) =~= seq![]);
    while i < items.len()
        invariant
            i <= items@.len(),
            ref_sigs(out@) == trait_sigs(views(items@), i as nat),
        decreases items@.len() - i,
    {
        assert(views(items@)[i as int] == items@[i as int]@);
        match &items[i] {
            TraitItem::Fn { attrs: _, sig, body: _ } => {
                let ghost prev = out@;
                out.push(sig);
                assert(ref_sigs(out@) =~= ref_sigs(prev).push(sig@));
            },
            TraitItem::Verbatim(_) => {},
        }
        i = i + 1;
    }
    out
}

fn collect_impl_sigs<'a>(items: &'a Vec<ImplItem>) -> (r: Vec<&'a Signature>)
    ensures
        ref_sigs(r@) == impl_sigs(views(items@), items@.len()),
{
    let mut out: Vec<&'a Signature> = Vec::new();
    let mut i: usize = 0;
    assert(ref_sigs(out@) =~= seq![]);
    while i < items.len()
        invariant
            i <= items@.len(),
            ref_sigs(out@) == impl_sigs(views(items@), i as nat),
        decreases items@.len() - i,
    {
        assert(views(items@)[i as int] == items@[i as int]@);
        match &items[i] {
            ImplItem::Fn(f) => {
                let ghost prev = out@;
                out.push(&f.sig);
                assert(ref_sigs(out@) =~= ref_sigs(prev).push(f.sig@));
            },
            _ => {},
        }
        i = i + 1;
    }
    out
}

// ---------------------------------------------------------------------------
// Attributes and generics
// ---------------------------------------------------------------------------

/// The sources of the attributes among the first `k` that are not `#[cuda_tile::*]`.
pub open spec fn other_attrs(attrs: Seq<AttributeS>, k: nat) -> Seq<Text>
    decreases k,
{
    if k == 0 {
        seq![]
    } else {
        let rest = other_attrs(attrs, (k - 1) as nat);
        if attrs[k - 1].root == Some("cuda_tile"@) { rest } else { rest.push(attrs[k - 1].source) }
    }
}

/// Drop `#[cuda_tile::*]` attrs (they've served their purpose at this point).
pub fn filter_cuda_tile_attrs(attrs: &Vec<Attribute>) -> (r: Vec<String>)
    ensures
        texts(r@) == other_attrs(views(attrs@), attrs@.len()),
{
    let mut out: Vec<String> = Vec::new();
    let mut i: usize = 0;
    assert(texts(out@) =~= seq![]);
    while i < attrs.len()
        invariant
            i <= attrs@.len(),
            texts(out@) == other_attrs(views(attrs@), i as nat),
        decreases attrs@.len() - i,
    {
        assert(views(attrs@)[i as int] == attrs@[i as int]@);
        let own = match &attrs[i].root {
            Some(root) => same(root.as_str(), "cuda_tile"),
            None => false,
        };
        if !own {
            let ghost prev = out@;
            out.push(attrs[i].source.clone());
            proof {
                lemma_texts_push(prev, out@.last());
            }
        }
        i = i + 1;
    }
    out
}

/// A parameter declares one of the arrays.
pub open spec fn declares_cga(p: GenericParamS, cgas: Seq<CgaInfoS>) -> bool {
    p matches GenericParamS::Const { ident, .. } && exists|i: int|
        0 <= i < cgas.len() && (#[trigger] cgas[i]).cga_ident == ident
}

/// The parameters among the first `k` that declare no array.
pub open spec fn other_params(params: Seq<GenericParamS>, cgas: Seq<CgaInfoS>, k: nat) -> Seq<Text>
    decreases k,
{
    if k == 0 {
        seq![]
    } else {
        let rest = other_params(params, cgas, (k - 1) as nat);
        if declares_cga(params[k - 1], cgas) { rest } else { rest.push(params[k - 1].text()) }
    }
}

fn is_declared(p: &GenericParam, cgas: &Vec<CgaInfo>) -> (r: bool)
    ensures
        r == declares_cga(p@, views(cgas@)),
{
    match p {
        GenericParam::Const { ident, ty: _, rest: _ } => {
            let mut i: usize = 0;
            while i < cgas.len()
                invariant
                    i <= cgas@.len(),
                    p@ matches GenericParamS::Const { ident: name, .. } && name == ident@,
                    forall|j: int|
                        0 <= j < i ==> (#[trigger] views(cgas@)[j]).cga_ident != ident@,
                decreases cgas@.len() - i,
            {
                assert(views(cgas@)[i as int] == cgas@[i as int]@);
                if same(cgas[i].cga_ident.as_str(), ident.as_str()) {
                    return true;
                }
                i = i + 1;
            }
            false
        },
        _ => false,
    }
}

fn print_other_params(params: &Vec<GenericParam>, cgas: &Vec<CgaInfo>) -> (r: Vec<String>)
    ensures
        texts(r@) == other_params(views(params@), views(cgas@), params@.len()),
{
    let mut out: Vec<String> = Vec::new();
    let mut i: usize = 0;
    assert(texts(out@) =~= seq![]);
    while i < params.len()
        invariant
            i <= params@.len(),
            texts(out@) == other_params(views(params@), views(cgas@), i as nat),
        decreases params@.len() - i,
    {
        assert(views(params@)[i as int] == params@[i as int]@);
        if !is_declared(&params[i], cgas) {
            let ghost prev = out@;
            out.push(params[i].print());
            proof {
                lemma_texts_push(prev, out@.last());
            }
        }
        i = i + 1;
    }
    out
}

// ---------------------------------------------------------------------------
// The shadow trait
// ---------------------------------------------------------------------------

/// `Self::Out`.
pub open spec fn self_out() -> TypeS {
    TypeS::Path(
        PathS {
            qself: None,
            leading_colon: false,
            segments: seq![
                SegmentS { ident: "Self"@, arguments: ArgumentsS::Empty },
                SegmentS { ident: "Out"@, arguments: ArgumentsS::Empty },
            ],
        },
    )
}

fn make_self_out() -> (r: Type)
    ensures
        r@ == self_out(),
{
    let mut segments: Vec<PathSegment> = Vec::new();
    segments.push(PathSegment { ident: "Self".to_owned(), arguments: PathArguments::Empty });
    segments.push(PathSegment { ident: "Out".to_owned(), arguments: PathArguments::Empty });
    assert(segments_s(segments@) =~= seq![
        SegmentS { ident: "Self"@, arguments: ArgumentsS::Empty },
        SegmentS { ident: "Out"@, arguments: ArgumentsS::Empty },
    ]);
    let path = Path { qself: None, leading_colon: false, segments };
    assert(TypeS::Path(path@) == self_out());
    Type::Path(path)
}

/// An argument of a method of the shadow trait: one that mentions an array gets the generic
/// of the first such array.
pub open spec fn erase_arg(a: FnArgS, cgas: Seq<CgaInfoS>, shape: RankPolyShapeS) -> FnArgS {
    match a {
        FnArgS::Typed { pat, ty } => match first_cga(cgas, ty, 0) {
            Some(i) => match shape.roles[i as int] {
                CgaRoleS::ShapeBound { sh_ident } => FnArgS::Typed {
                    pat,
                    ty: TypeS::Path(name_path(sh_ident)),
                },
                CgaRoleS::Free => a,
            },
            None => a,
        },
        FnArgS::Receiver(_) => a,
    }
}

/// A return type that mentions an array becomes the output type.
pub open spec fn erase_output(t: Option<TypeS>, cgas: Seq<CgaInfoS>, shape: RankPolyShapeS) -> Option<
    TypeS,
> {
    match t {
        Some(ty) => if uses_cga(ty, cgas) {
            if shape.has_free_cga {
                Some(TypeS::Path(name_path("Out"@)))
            } else {
                Some(self_out())
            }
        } else {
            t
        },
        None => None,
    }
}

/// A method signature of the shadow trait.
pub open spec fn erase_sig(s: SignatureS, cgas: Seq<CgaInfoS>, shape: RankPolyShapeS) -> SignatureS {
    SignatureS {
        inputs: Seq::new(s.inputs.len(), |i: int| erase_arg(s.inputs[i], cgas, shape)),
        output: erase_output(s.output, cgas, shape),
        ..s
    }
}

/// The sources of all attributes.
pub open spec fn attr_texts(attrs: Seq<AttributeS>) -> Seq<Text> {
    Seq::new(attrs.len(), |i: int| attrs[i].source)
}

/// An item of the shadow trait.
pub open spec fn erase_item(item: TraitItemS, cgas: Seq<CgaInfoS>, shape: RankPolyShapeS) -> Text {
    match item {
        TraitItemS::Fn { attrs, sig, body } => join_text(attr_texts(attrs), " "@) + " "@ + erase_sig(
            sig,
            cgas,
            shape,
        ).text() + " "@ + body,
        TraitItemS::Verbatim(t) => t,
    }
}

pub open spec fn erase_items(items: Seq<TraitItemS>, cgas: Seq<CgaInfoS>, shape: RankPolyShapeS) -> Seq<
    Text,
> {
    Seq::new(items.len(), |i: int| erase_item(items[i], cgas, shape))
}

pub open spec fn trait_shape(item: ItemTraitS, cgas: Seq<CgaInfoS>) -> RankPolyShapeS {
    let sigs = trait_sigs(item.items, item.items.len());
    classify(cgas, all_args(sigs, sigs.len()), all_returns(sigs, sigs.len()))
}

pub open spec fn supertraits_text(t: Text) -> Text {
    if t.len() == 0 { ""@ } else { " : "@ + t }
}

/// The generics of the shadow trait: those that declare no array, one for each shape-bound
/// array, and `Out` where it is not an associated type.
pub open spec fn shadow_generics(item: ItemTraitS, cgas: Seq<CgaInfoS>, shape: RankPolyShapeS) -> Seq<
    Text,
> {
    other_params(item.generics.params, cgas, item.generics.params.len()) + shape.sh_idents
        + if shape.has_free_cga && shape.any_return_uses_cga {
        seq!["Out"@]
    } else {
        seq![]
    }
}

/// The shadow trait.
pub open spec fn shadow_trait(item: ItemTraitS, cgas: Seq<CgaInfoS>) -> Text {
    let shape = trait_shape(item, cgas);
    join_text(other_attrs(item.attrs, item.attrs.len()), " "@)
        + " #[allow(non_camel_case_types)] "@ + item.vis + " trait "@ + item.ident + " "@
        + angle_text(shadow_generics(item, cgas, shape)) + supertraits_text(item.supertraits)
        + where_text(item.generics.where_clause) + (" { "@ + (if shape.any_return_uses_cga
        && !shape.has_free_cga {
        "type Out; "@
    } else {
        ""@
    }) + join_text(erase_items(item.items, cgas, shape), " "@) + " }"@)
}

/// What a trait declaration becomes. It needs an array.
pub open spec fn desugar_trait(item: ItemTraitS) -> Result<Text, ErrorS> {
    match declared_cgas(item.generics.params) {
        Err(e) => Err(e),
        Ok(cgas) => if cgas.len() == 0 {
            Err(
                error_at(
                    item.ident,
                    "variadic_trait: no `const X: [i32; N]` generic found (is this trait rank-polymorphic?)"@,
                ),
            )
        } else {
            Ok(shadow_trait(item, cgas))
        },
    }
}

/// Rewrite a trait method signature for the shadow trait: shape-bearing arg types become
/// their corresponding `Sh<i>`; CGA-using return types become `Self::Out` or the
/// trait-generic `Out`.
pub fn rewrite_trait_method_for_rank_poly(
    sig: &Signature,
    cgas: &Vec<CgaInfo>,
    shape: &RankPolyShape,
) -> (r: Signature)
    requires
        shape.roles@.len() == cgas@.len(),
    ensures
        r@ == erase_sig(sig@, views(cgas@), shape@),
{
    let mut inputs: Vec<FnArg> = Vec::new();
    let mut i: usize = 0;
    while i < sig.inputs.len()
        invariant
            i <= sig.inputs@.len(),
            shape.roles@.len() == cgas@.len(),
            inputs@.len() == i,
            forall|j: int|
                0 <= j < i ==> (#[trigger] inputs@[j])@ == erase_arg(
                    sig@.inputs[j],
                    views(cgas@),
                    shape@,
                ),
        decreases sig.inputs@.len() - i,
    {
        let a = &sig.inputs[i];
        assert(sig@.inputs[i as int] == a@);
        let done = match a {
            FnArg::Typed { pat, ty } => match find_cga(cgas, ty) {
                Some(c) => {
                    assert(shape@.roles[c as int] == shape.roles@[c as int]@);
                    match &shape.roles[c] {
                        CgaRole::ShapeBound { sh_ident } => FnArg::Typed {
                            pat: pat.copy(),
                            ty: Type::Path(make_name_path(sh_ident.clone())),
                        },
                        CgaRole::Free => a.copy(),
                    }
                },
                None => a.copy(),
            },
            FnArg::Receiver(_) => a.copy(),
        };
        inputs.push(done);
        i = i + 1;
    }
    assert(views(inputs@) =~= erase_sig(sig@, views(cgas@), shape@).inputs);
    let output = match &sig.output {
        Some(t) => if find_cga(cgas, t).is_some() {
            if shape.has_free_cga {
                Some(Type::Path(make_name_path("Out".to_owned())))
            } else {
                Some(make_self_out())
            }
        } else {
            Some(clone_type(t))
        },
        None => None,
    };
    Signature {
        qualifiers: sig.qualifiers.clone(),
        is_unsafe: sig.is_unsafe,
        ident: sig.ident.clone(),
        generics: sig.generics.copy(),
        inputs,
        output,
    }
}

fn print_attrs(attrs: &Vec<Attribute>) -> (r: Vec<String>)
    ensures
        texts(r@) == attr_texts(views(attrs@)),
{
    let mut out: Vec<String> = Vec::new();
    let mut i: usize = 0;
    while i < attrs.len()
        invariant
            i <= attrs@.len(),
            out@.len() == i,
            forall|j: int| 0 <= j < i ==> (#[trigger] out@[j])@ == attrs@[j]@.source,
        decreases attrs@.len() - i,
    {
        out.push(attrs[i].source.clone());
        i = i + 1;
    }
    assert(texts(out@) =~= attr_texts(views(attrs@)));
    out
}

fn erase_trait_items(items: &Vec<TraitItem>, cgas: &Vec<CgaInfo>, shape: &RankPolyShape) -> (r: Vec<
    String,
>)
    requires
        shape.roles@.len() == cgas@.len(),
    ensures
        texts(r@) == erase_items(views(items@), views(cgas@), shape@),
{
    let mut out: Vec<String> = Vec::new();
    let mut i: usize = 0;
    while i < items.len()
        invariant
            i <= items@.len(),
            shape.roles@.len() == cgas@.len(),
            out@.len() == i,
            forall|j: int|
                0 <= j < i ==> (#[trigger] out@[j])@ == erase_item(
                    items@[j]@,
                    views(cgas@),
                    shape@,
                ),
        decreases items@.len() - i,
    {
        match &items[i] {
            TraitItem::Fn { attrs, sig, body } => {
                let head = join(&print_attrs(attrs), " ");
                let sig = rewrite_trait_method_for_rank_poly(sig, cgas, shape).print();
                out.push(cat5(head.as_str(), " ", sig.as_str(), " ", body.as_str()));
            },
            TraitItem::Verbatim(t) => {
                out.push(t.clone());
            },
        }
        i = i + 1;
    }
    assert(texts(out@) =~= erase_items(views(items@), views(cgas@), shape@));
    out
}

/// Desugar a `#[cuda_tile::variadic_trait]`-annotated trait declaration into a single
/// CGA-erased shadow trait.
pub fn desugar_variadic_trait_decl(item: &ItemTrait) -> (r: Result<String, Error>)
    ensures
        match r {
            Ok(text) => desugar_trait(item@) == Ok::<Text, ErrorS>(text@),
            Err(e) => desugar_trait(item@) == Err::<Text, ErrorS>(e@),
        },
{
    let cgas = match find_cgas(&item.generics) {
        Ok(v) => v,
        Err(e) => {
            return Err(e);
        },
    };
    if cgas.len() == 0 {
        return item.ident.err(
            "variadic_trait: no `const X: [i32; N]` generic found (is this trait rank-polymorphic?)",
        );
    }
    let sigs = collect_trait_sigs(&item.items);
    assert(ref_sigs(sigs@).len() == sigs@.len());
    let arg_types = collect_args(&sigs);
    let return_types = collect_returns(&sigs);
    let shape = classify_cgas(&cgas, &arg_types, &return_types);
    assert(shape@ == trait_shape(item@, views(cgas@)));
    assert(shape@.roles.len() == cgas@.len());
    let items = join(&erase_trait_items(&item.items, &cgas, &shape), " ");
    let mut params = print_other_params(&item.generics.params, &cgas);
    append_all(&mut params, &shape.sh_idents);
    if shape.has_free_cga && shape.any_return_uses_cga {
        let ghost prev = params@;
        params.push("Out".to_owned());
        assert(texts(params@) =~= texts(prev) + seq!["Out"@]);
    } else {
        assert(texts(params@) =~= texts(params@) + seq![]);
    }
    let generics = print_angle(&params);
    let attrs = join(&filter_cuda_tile_attrs(&item.attrs), " ");
    let supertraits = if item.supertraits.as_str().unicode_len() == 0 {
        "".to_owned()
    } else {
        cat2(" : ", item.supertraits.as_str())
    };
    let preds = print_where(&item.generics.where_clause);
    let assoc = if shape.any_return_uses_cga && !shape.has_free_cga { "type Out; " } else { "" };
    let head = cat7(
        attrs.as_str(),
        " #[allow(non_camel_case_types)] ",
        item.vis.as_str(),
        " trait ",
        item.ident.as_str(),
        " ",
        generics.as_str(),
    );
    let body = cat4(" { ", assoc, items.as_str(), " }");
    Ok(cat4(head.as_str(), supertraits.as_str(), preds.as_str(), body.as_str()))
}

// ---------------------------------------------------------------------------
// Impls of the shadow trait
// ---------------------------------------------------------------------------

/// The lifetime that impls bind anonymous lifetimes to.
pub open spec fn recv_lifetime() -> Text {
    "__td_recv"@
}

/// The first of the types from index `i` on that mentions a name.
pub open spec fn first_mention(types: Seq<TypeS>, name: Text, i: nat) -> Option<TypeS>
    decreases types.len() - i,
{
    if i >= types.len() {
        None
    } else if references(types[i as int], name) {
        Some(types[i as int])
    } else {
        first_mention(types, name, i + 1)
    }
}

/// The first of the types from index `i` on that mentions an array.
pub open spec fn first_use(types: Seq<TypeS>, cgas: Seq<CgaInfoS>, i: nat) -> Option<TypeS>
    decreases types.len() - i,
{
    if i >= types.len() {
        None
    } else if uses_cga(types[i as int], cgas) {
        Some(types[i as int])
    } else {
        first_use(types, cgas, i + 1)
    }
}

/// What an impl block is emitted from: the roles of its arrays, for each array the type of
/// the first argument that mentions it, and the first return type that mentions an array.
pub struct ImplPlanS {
    pub cgas: Seq<CgaInfoS>,
    pub shape: RankPolyShapeS,
    pub shape_types: Seq<Option<TypeS>>,
    pub out_type: Option<TypeS>,
}

pub open spec fn impl_plan(item: ItemImplS, cgas: Seq<CgaInfoS>) -> ImplPlanS {
    let sigs = impl_sigs(item.items, item.items.len());
    let args = all_args(sigs, sigs.len());
    let outputs = all_returns(sigs, sigs.len());
    ImplPlanS {
        cgas,
        shape: classify(cgas, args, outputs),
        shape_types: Seq::new(cgas.len(), |i: int| first_mention(args, cgas[i].cga_ident, 0)),
        out_type: first_use(outputs, cgas, 0),
    }
}

/// A type at the ranks of a combination, without anonymous lifetimes.
pub open spec fn anchored(t: TypeS, c: RankComboS) -> TypeS {
    bound(rank_type(t, c), recv_lifetime())
}

pub open spec fn opt_uses_lifetime(t: Option<TypeS>) -> bool {
    t matches Some(t) && uses_lifetime(t)
}

/// One of the types that go into an impl carries a lifetime.
pub open spec fn needs_recv_lifetime(plan: ImplPlanS, self_ty: TypeS) -> bool {
    ||| exists|i: int|
        0 <= i < plan.shape_types.len() && opt_uses_lifetime(#[trigger] plan.shape_types[i])
    ||| opt_uses_lifetime(plan.out_type)
    ||| uses_lifetime(self_ty)
}

/// The type that takes the place of an array in the trait reference.
pub open spec fn substitute(plan: ImplPlanS, i: int) -> Option<TypeS> {
    match plan.shape.roles[i] {
        CgaRoleS::ShapeBound { .. } => plan.shape_types[i],
        CgaRoleS::Free => plan.out_type,
    }
}

/// An argument of the trait reference.
pub open spec fn trait_ref_arg(a: ArgS, plan: ImplPlanS, c: RankComboS) -> ArgS {
    match arg_cga(a, plan.cgas) {
        Some(i) => match substitute(plan, i as int) {
            Some(t) => ArgS::Type(anchored(t, c)),
            None => a,
        },
        None => a,
    }
}

/// The trait reference at the ranks of a combination.
pub open spec fn trait_ref_path(p: PathS, plan: ImplPlanS, c: RankComboS) -> PathS {
    if p.segments.len() == 0 {
        p
    } else {
        match p.segments.last().arguments {
            ArgumentsS::AngleBracketed { turbofish, args } => with_last_arguments(
                p,
                ArgumentsS::AngleBracketed {
                    turbofish,
                    args: Seq::new(args.len(), |i: int| trait_ref_arg(args[i], plan, c)),
                },
            ),
            _ => p,
        }
    }
}

/// The generics of an impl at the ranks of a combination.
pub open spec fn instance_generics(item: ItemImplS, plan: ImplPlanS, c: RankComboS) -> Seq<Text> {
    (if needs_recv_lifetime(plan, item.self_ty) { seq!["'"@ + recv_lifetime()] } else { seq![] })
        + other_params(item.generics.params, plan.cgas, item.generics.params.len())
        + c.dim_params()
}

/// The binding of the associated output type.
pub open spec fn out_binding(plan: ImplPlanS, c: RankComboS) -> Text {
    if plan.shape.has_free_cga {
        ""@
    } else {
        match plan.out_type {
            Some(t) => "type Out = "@ + type_text(anchored(t, c)) + "; "@,
            None => ""@,
        }
    }
}

pub open spec fn instance_arg(a: FnArgS, c: RankComboS) -> FnArgS {
    match a {
        FnArgS::Typed { pat, ty } => FnArgS::Typed { pat, ty: anchored(ty, c) },
        FnArgS::Receiver(_) => a,
    }
}

/// A method signature at the ranks of a combination.
pub open spec fn instance_sig(s: SignatureS, c: RankComboS) -> SignatureS {
    SignatureS {
        inputs: Seq::new(s.inputs.len(), |i: int| instance_arg(s.inputs[i], c)),
        output: match s.output {
            Some(t) => Some(anchored(t, c)),
            None => None,
        },
        ..s
    }
}

/// The names that the first `k` arguments bind.
pub open spec fn bound_names(inputs: Seq<FnArgS>, k: nat) -> Seq<Text>
    decreases k,
{
    if k == 0 {
        seq![]
    } else {
        let rest = bound_names(inputs, (k - 1) as nat);
        match inputs[k - 1] {
            FnArgS::Typed { pat, ty: _ } => match pat.ident {
                Some(name) => rest.push(name),
                None => rest,
            },
            FnArgS::Receiver(_) => rest,
        }
    }
}

/// A method at the ranks of a combination. It is never called.
pub open spec fn instance_method(f: ImplItemFnS, c: RankComboS) -> Text {
    join_text(other_attrs(f.attrs, f.attrs.len()), " "@) + " "@ + instance_sig(f.sig, c).text()
        + " "@ + muted_body(bound_names(f.sig.inputs, f.sig.inputs.len()))
}

/// An item of an impl at the ranks of a combination.
pub open spec fn instance_item(item: ImplItemS, c: RankComboS) -> Text {
    match item {
        ImplItemS::Fn(f) => instance_method(f, c),
        ImplItemS::Type { head, ty, tail } => head + " "@ + type_text(ty) + " "@ + tail,
        ImplItemS::Const(t) => t,
        ImplItemS::Verbatim(t) => t,
    }
}

pub open spec fn instance_items(items: Seq<ImplItemS>, c: RankComboS) -> Seq<Text> {
    Seq::new(items.len(), |i: int| instance_item(items[i], c))
}

/// The impl at the ranks of a combination.
pub open spec fn impl_instance(item: ItemImplS, plan: ImplPlanS, path: PathS, c: RankComboS) -> Text {
    join_text(other_attrs(item.attrs, item.attrs.len()), " "@) + " impl "@ + angle_text(
        instance_generics(item, plan, c),
    ) + " "@ + path_text(trait_ref_path(path, plan, c), false) + " for "@ + type_text(
        anchored(item.self_ty, c),
    ) + (where_text(item.generics.where_clause) + " { "@ + out_binding(plan, c) + join_text(
        instance_items(item.items, c),
        " "@,
    ) + " }"@)
}

pub open spec fn impl_instances(item: ItemImplS, plan: ImplPlanS, path: PathS) -> Seq<Text> {
    Seq::new(
        combo_count(plan.cgas, MAX_RANK as nat),
        |i: int| impl_instance(item, plan, path, combo_at(plan.cgas, MAX_RANK as nat, i as nat)),
    )
}

pub open spec fn free_cga_text() -> Text {
    "variadic_trait_impl: free CGAs detected but no method has a return type that uses them — cannot substitute case-3c trait args"@
}

/// What an impl block becomes. It needs an array and a trait, and a return type for an array
/// that no argument mentions.
pub open spec fn desugar_impl(item: ItemImplS) -> Result<Text, ErrorS> {
    match declared_cgas(item.generics.params) {
        Err(e) => Err(e),
        Ok(cgas) => if cgas.len() == 0 {
            Err(
                error_at(
                    item.source,
                    "variadic_trait_impl: no `const X: [i32; N]` generic found"@,
                ),
            )
        } else {
            match item.trait_path {
                None => Err(
                    error_at(
                        item.source,
                        "variadic_trait_impl: expected a trait impl (e.g. `impl T for X`)"@,
                    ),
                ),
                Some(path) => {
                    let plan = impl_plan(item, cgas);
                    if plan.shape.has_free_cga && plan.out_type is None {
                        Err(error_at(item.source, free_cga_text()))
                    } else {
                        Ok(join_text(impl_instances(item, plan, path), "\n"@))
                    }
                },
            }
        },
    }
}

/// The combinations of ranks of an impl block can be counted.
pub open spec fn impl_fits(item: ItemImplS) -> bool {
    declared_cgas(item.generics.params) matches Ok(cgas) ==> combo_count(cgas, MAX_RANK as nat)
        <= usize::MAX
}

/// What an impl block is emitted from.
struct ImplPlan {
    cgas: Vec<CgaInfo>,
    shape: RankPolyShape,
    shape_types: Vec<Option<Type>>,
    out_type: Option<Type>,
}

pub open spec fn opt_types(v: Seq<Option<Type>>) -> Seq<Option<TypeS>> {
    Seq::new(v.len(), |i: int| opt_type(v[i]))
}

impl View for ImplPlan {
    type V = ImplPlanS;

    closed spec fn view(&self) -> ImplPlanS {
        ImplPlanS {
            cgas: views(self.cgas@),
            shape: self.shape@,
            shape_types: opt_types(self.shape_types@),
            out_type: opt_type(self.out_type),
        }
    }
}

fn find_mention(types: &Vec<&Type>, name: &str) -> (r: Option<Type>)
    ensures
        opt_type(r) == first_mention(ref_types(types@), name@, 0),
{
    let mut i: usize = 0;
    while i < types.len()
        invariant
            i <= types@.len(),
            first_mention(ref_types(types@), name@, 0) == first_mention(
                ref_types(types@),
                name@,
                i as nat,
            ),
        decreases types@.len() - i,
    {
        if type_references_ident(types[i], name) {
            return Some(clone_type(types[i]));
        }
        i = i + 1;
    }
    None
}

fn find_use(types: &Vec<&Type>, cgas: &Vec<CgaInfo>) -> (r: Option<Type>)
    ensures
        opt_type(r) == first_use(ref_types(types@), views(cgas@), 0),
{
    let mut i: usize = 0;
    while i < types.len()
        invariant
            i <= types@.len(),
            first_use(ref_types(types@), views(cgas@), 0) == first_use(
                ref_types(types@),
                views(cgas@),
                i as nat,
            ),
        decreases types@.len() - i,
    {
        if find_cga(cgas, types[i]).is_some() {
            return Some(clone_type(types[i]));
        }
        i = i + 1;
    }
    None
}

fn make_plan(item: &ItemImpl, cgas: Vec<CgaInfo>) -> (r: ImplPlan)
    ensures
        r@ == impl_plan(item@, views(cgas@)),
        r.shape.roles@.len() == r.cgas@.len(),
        r.shape_types@.len() == r.cgas@.len(),
{
    let sigs = collect_impl_sigs(&item.items);
    assert(ref_sigs(sigs@).len() == sigs@.len());
    let arg_types = collect_args(&sigs);
    let return_types = collect_returns(&sigs);
    let shape = classify_cgas(&cgas, &arg_types, &return_types);
    let ghost args = ref_types(arg_types@);
    let mut shape_types: Vec<Option<Type>> = Vec::new();
    let mut i: usize = 0;
    while i < cgas.len()
        invariant
            i <= cgas@.len(),
            args == ref_types(arg_types@),
            shape_types@.len() == i,
            forall|j: int|
                0 <= j < i ==> opt_type(#[trigger] shape_types@[j]) == first_mention(
                    args,
                    views(cgas@)[j].cga_ident,
                    0,
                ),
        decreases cgas@.len() - i,
    {
        shape_types.push(find_mention(&arg_types, cgas[i].cga_ident.as_str()));
        i = i + 1;
    }
    assert(opt_types(shape_types@) =~= impl_plan(item@, views(cgas@)).shape_types);
    let out_type = find_use(&return_types, &cgas);
    assert(shape@.roles.len() == cgas@.len());
    ImplPlan { cgas, shape, shape_types, out_type }
}

fn anchor_type(t: &Type, combo: &RankCombo) -> (r: Type)
    requires
        combo@.wf(),
    ensures
        r@ == anchored(t@, combo@),
{
    let ranked = rewrite_ty_for_rank(t, combo);
    bind_anon_lifetimes_to(&ranked, "__td_recv")
}

fn opt_type_uses_lifetime(t: &Option<Type>) -> (r: bool)
    ensures
        r == opt_uses_lifetime(opt_type(*t)),
{
    match t {
        Some(t) => type_uses_lifetime(t),
        None => false,
    }
}

impl ImplPlan {
    fn needs_recv_lt(&self, self_ty: &Type) -> (r: bool)
        ensures
            r == needs_recv_lifetime(self@, self_ty@),
    {
        let mut i: usize = 0;
        while i < self.shape_types.len()
            invariant
                i <= self.shape_types@.len(),
                forall|j: int|
                    0 <= j < i ==> !opt_uses_lifetime(#[trigger] self@.shape_types[j]),
            decreases self.shape_types@.len() - i,
        {
            assert(self@.shape_types[i as int] == opt_type(self.shape_types@[i as int]));
            if opt_type_uses_lifetime(&self.shape_types[i]) {
                return true;
            }
            i = i + 1;
        }
        opt_type_uses_lifetime(&self.out_type) || type_uses_lifetime(self_ty)
    }

    fn substitute_for(&self, i: usize) -> (r: &Option<Type>)
        requires
            i < self.cgas@.len(),
            self.shape.roles@.len() == self.cgas@.len(),
            self.shape_types@.len() == self.cgas@.len(),
        ensures
            opt_type(*r) == substitute(self@, i as int),
    {
        assert(self@.shape.roles[i as int] == self.shape.roles@[i as int]@);
        match &self.shape.roles[i] {
            CgaRole::ShapeBound { .. } => &self.shape_types[i],
            CgaRole::Free => &self.out_type,
        }
    }

    fn trait_arg(&self, a: &GenericArgument, combo: &RankCombo) -> (r: GenericArgument)
        requires
            combo@.wf(),
            self.shape.roles@.len() == self.cgas@.len(),
            self.shape_types@.len() == self.cgas@.len(),
        ensures
            r@ == trait_ref_arg(a@, self@, combo@),
    {
        match match_arg_to_cga(a, &self.cgas) {
            Some(i) => match self.substitute_for(i) {
                Some(t) => GenericArgument::Type(anchor_type(t, combo)),
                None => clone_arg(a),
            },
            None => clone_arg(a),
        }
    }

    /// Rewrite a trait reference's generic args. Each CGA arg is substituted with its
    /// rank-instance concrete type: a shape-bound one with the type of the argument that
    /// mentions it, a free one with the return type.
    fn trait_path(&self, path: &Path, combo: &RankCombo) -> (r: Path)
        requires
            combo@.wf(),
            self.shape.roles@.len() == self.cgas@.len(),
            self.shape_types@.len() == self.cgas@.len(),
        ensures
            r@ == trait_ref_path(path@, self@, combo@),
    {
        assert(path@.segments.len() == path.segments@.len());
        if path.segments.len() == 0 {
            return clone_path(path);
        }
        let last = &path.segments[path.segments.len() - 1];
        assert(path@.segments.last() == segment_s(*last));
        match &last.arguments {
            PathArguments::AngleBracketed { turbofish, args } => {
                let mut out: Vec<GenericArgument> = Vec::new();
                let mut i: usize = 0;
                assert(args_s(args@).len() == args@.len());
                while i < args.len()
                    invariant
                        i <= args@.len(),
                        combo@.wf(),
                        args_s(args@).len() == args@.len(),
                        self.shape.roles@.len() == self.cgas@.len(),
                        self.shape_types@.len() == self.cgas@.len(),
                        out@.len() == i,
                        forall|j: int|
                            0 <= j < i ==> arg_s(#[trigger] out@[j]) == trait_ref_arg(
                                args_s(args@)[j],
                                self@,
                                combo@,
                            ),
                    decreases args@.len() - i,
                {
                    assert(args_s(args@)[i as int] == arg_s(args@[i as int]));
                    out.push(self.trait_arg(&args[i], combo));
                    i = i + 1;
                }
                assert(args_s(out@) =~= Seq::new(
                    args_s(args@).len(),
                    |i: int| trait_ref_arg(args_s(args@)[i], self@, combo@),
                ));
                replace_last_arguments(
                    path,
                    PathArguments::AngleBracketed { turbofish: *turbofish, args: out },
                )
            },
            _ => clone_path(path),
        }
    }

    fn generics(&self, item: &ItemImpl, combo: &RankCombo) -> (r: Vec<String>)
        requires
            combo@.wf(),
        ensures
            texts(r@) == instance_generics(item@, self@, combo@),
    {
        let mut params: Vec<String> = Vec::new();
        if self.needs_recv_lt(&item.self_ty) {
            params.push(cat2("'", "__td_recv"));
            assert(texts(params@) =~= seq!["'"@ + recv_lifetime()]);
        } else {
            assert(texts(params@) =~= seq![]);
        }
        append_all(&mut params, &print_other_params(&item.generics.params, &self.cgas));
        append_all(&mut params, &combo.dim_params_tokens());
        params
    }

    fn out_text(&self, combo: &RankCombo) -> (r: String)
        requires
            combo@.wf(),
        ensures
            r@ == out_binding(self@, combo@),
    {
        if self.shape.has_free_cga {
            return "".to_owned();
        }
        match &self.out_type {
            Some(t) => {
                let text = print_type(&anchor_type(t, combo));
                cat3("type Out = ", text.as_str(), "; ")
            },
            None => "".to_owned(),
        }
    }
}

fn print_bound_names(inputs: &Vec<FnArg>) -> (r: Vec<String>)
    ensures
        texts(r@) == bound_names(views(inputs@), inputs@.len()),
{
    let mut out: Vec<String> = Vec::new();
    let mut i: usize = 0;
    assert(texts(out@) =~= seq![]);
    while i < inputs.len()
        invariant
            i <= inputs@.len(),
            texts(out@) == bound_names(views(inputs@), i as nat),
        decreases inputs@.len() - i,
    {
        assert(views(inputs@)[i as int] == inputs@[i as int]@);
        match &inputs[i] {
            FnArg::Typed { pat, ty: _ } => match &pat.ident {
                Some(name) => {
                    let ghost prev = out@;
                    out.push(name.clone());
                    proof {
                        lemma_texts_push(prev, out@.last());
                    }
                },
                None => {},
            },
            FnArg::Receiver(_) => {},
        }
        i = i + 1;
    }
    out
}

/// Rewrite an impl method's signature for a rank-instance impl: arg and return types become
/// concrete rank-instance forms; body is replaced with `unreachable!()`.
pub fn rewrite_impl_method_body_for_rank(impl_fn: &ImplItemFn, combo: &RankCombo) -> (r: String)
    requires
        combo@.wf(),
    ensures
        r@ == instance_method(impl_fn@, combo@),
{
    let sig = &impl_fn.sig;
    let mut inputs: Vec<FnArg> = Vec::new();
    let mut i: usize = 0;
    while i < sig.inputs.len()
        invariant
            i <= sig.inputs@.len(),
            combo@.wf(),
            inputs@.len() == i,
            forall|j: int|
                0 <= j < i ==> (#[trigger] inputs@[j])@ == instance_arg(sig@.inputs[j], combo@),
        decreases sig.inputs@.len() - i,
    {
        let a = &sig.inputs[i];
        assert(sig@.inputs[i as int] == a@);
        let done = match a {
            FnArg::Typed { pat, ty } => FnArg::Typed {
                pat: pat.copy(),
                ty: anchor_type(ty, combo),
            },
            FnArg::Receiver(_) => a.copy(),
        };
        inputs.push(done);
        i = i + 1;
    }
    assert(views(inputs@) =~= instance_sig(sig@, combo@).inputs);
    let output = match &sig.output {
        Some(t) => Some(anchor_type(t, combo)),
        None => None,
    };
    let names = join(&print_bound_names(&sig.inputs), ", ");
    let new_sig = Signature {
        qualifiers: sig.qualifiers.clone(),
        is_unsafe: sig.is_unsafe,
        ident: sig.ident.clone(),
        generics: sig.generics.copy(),
        inputs,
        output,
    };
    let text = new_sig.print();
    let attrs = join(&filter_cuda_tile_attrs(&impl_fn.attrs), " ");
    let body = cat3("{ let _ = (", names.as_str(), "); ::std::unreachable!() }");
    cat5(attrs.as_str(), " ", text.as_str(), " ", body.as_str())
}

fn print_instance_items(items: &Vec<ImplItem>, combo: &RankCombo) -> (r: Vec<String>)
    requires
        combo@.wf(),
    ensures
        texts(r@) == instance_items(views(items@), combo@),
{
    let mut out: Vec<String> = Vec::new();
    let mut i: usize = 0;
    while i < items.len()
        invariant
            i <= items@.len(),
            combo@.wf(),
            out@.len() == i,
            forall|j: int|
                0 <= j < i ==> (#[trigger] out@[j])@ == instance_item(items@[j]@, combo@),
        decreases items@.len() - i,
    {
        let text = match &items[i] {
            ImplItem::Fn(f) => rewrite_impl_method_body_for_rank(f, combo),
            ImplItem::Type { head, ty, tail } => {
                let t = print_type(ty);
                cat5(head.as_str(), " ", t.as_str(), " ", tail.as_str())
            },
            ImplItem::Const(t) => t.clone(),
            ImplItem::Verbatim(t) => t.clone(),
        };
        out.push(text);
        i = i + 1;
    }
    assert(texts(out@) =~= instance_items(views(items@), combo@));
    out
}

fn emit_variadic_trait_impl_for_rank(
    item: &ItemImpl,
    plan: &ImplPlan,
    path: &Path,
    combo: &RankCombo,
) -> (r: String)
    requires
        combo@.wf(),
        plan.shape.roles@.len() == plan.cgas@.len(),
        plan.shape_types@.len() == plan.cgas@.len(),
    ensures
        r@ == impl_instance(item@, plan@, path@, combo@),
{
    let attrs = join(&filter_cuda_tile_attrs(&item.attrs), " ");
    let generics = print_angle(&plan.generics(item, combo));
    let reference = print_path(&plan.trait_path(path, combo), false);
    let self_ty = print_type(&anchor_type(&item.self_ty, combo));
    let preds = print_where(&item.generics.where_clause);
    let out = plan.out_text(combo);
    let items = join(&print_instance_items(&item.items, combo), " ");
    let head = cat7(
        attrs.as_str(),
        " impl ",
        generics.as_str(),
        " ",
        reference.as_str(),
        " for ",
        self_ty.as_str(),
    );
    let body = cat5(preds.as_str(), " { ", out.as_str(), items.as_str(), " }");
    cat2(head.as_str(), body.as_str())
}

/// Desugar a `#[cuda_tile::variadic_trait_impl]`-annotated impl block into rank-instance
/// impls of the shadow trait. CGA args in the trait reference are substituted with concrete
/// rank-instance types: shape-bound CGAs with the arg type that uses them, free CGAs with
/// the rewritten return type.
pub fn desugar_variadic_trait_impl(item: &ItemImpl) -> (r: Result<String, Error>)
    requires
        impl_fits(item@),
    ensures
        match r {
            Ok(text) => desugar_impl(item@) == Ok::<Text, ErrorS>(text@),
            Err(e) => desugar_impl(item@) == Err::<Text, ErrorS>(e@),
        },
{
    let cgas = match find_cgas(&item.generics) {
        Ok(v) => v,
        Err(e) => {
            return Err(e);
        },
    };
    if cgas.len() == 0 {
        return item.source.err("variadic_trait_impl: no `const X: [i32; N]` generic found");
    }
    let path = match &item.trait_path {
        Some(p) => p,
        None => {
            return item.source.err(
                "variadic_trait_impl: expected a trait impl (e.g. `impl T for X`)",
            );
        },
    };
    let arrays: usize = cgas.len();
    let space = RankSpace::new(&cgas, MAX_RANK);
    let plan = make_plan(item, cgas);
    if plan.shape.has_free_cga && plan.out_type.is_none() {
        return item.source.err(
            "variadic_trait_impl: free CGAs detected but no method has a return type that uses them — cannot substitute case-3c trait args",
        );
    }
    let all = space.iter();
    let mut impls: Vec<String> = Vec::new();
    let mut i: usize = 0;
    assert(views(all@).len() == all@.len());
    while i < all.len()
        invariant
            i <= all@.len(),
            plan.shape.roles@.len() == plan.cgas@.len(),
            plan.shape_types@.len() == plan.cgas@.len(),
            plan@.cgas.len() == arrays,
            all@.len() == combo_count(plan@.cgas, MAX_RANK as nat),
            views(all@) == combos(plan@.cgas, MAX_RANK as nat),
            impls@.len() == i,
            forall|j: int|
                0 <= j < i ==> (#[trigger] impls@[j])@ == impl_instance(
                    item@,
                    plan@,
                    path@,
                    combo_at(plan@.cgas, MAX_RANK as nat, j as nat),
                ),
        decreases all@.len() - i,
    {
        assert(views(all@)[i as int] == all@[i as int]@);
        proof {
            lemma_combo_wf(plan@.cgas, MAX_RANK as nat, i as nat);
        }
        impls.push(emit_variadic_trait_impl_for_rank(item, &plan, path, &all[i]));
        i = i + 1;
    }
    assert(texts(impls@) =~= impl_instances(item@, plan@, path@));
    Ok(join(&impls, "\n"))
}

} // verus!
