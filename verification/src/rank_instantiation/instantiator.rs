//! Specialisation of whole items.
use super::bindings::{cgas_from_generics, var_cgas, CGAParameter, RankBindings, RankBindingsS};
use super::bodies::{visit_block_mut, visit_stmts};
use super::signatures::{
    expand_trait_args, rewrite_fn_sig, rewrite_generic_args_for_rank, rewrite_generics,
    rewrite_generics_for_rank, rewrite_sig,
};
use super::types::{
    replace_last_arguments, rewrite_type, rewrite_type_for_rank, with_last_arguments,
};
use crate::ast::{segment_s, segments_s, ArgumentsS, Path, PathArguments, PathS};
use crate::copy::{clone_opt, clone_path};
use crate::error::{agrees, error_at, Error, ErrorS, SpannedError};
use crate::items::{
    clone_attrs, opt_path, views, Field, FieldS, ImplItem, ImplItemFn, ImplItemFnS, ImplItemS,
    ItemFn, ItemFnS, ItemImpl, ItemImplS, ItemStruct, ItemStructS,
};
use crate::lists::{collect, concat, lemma_collect_step};
use vstd::prelude::*;

verus! {

// ---------------------------------------------------------------------------
// What an item becomes
// ---------------------------------------------------------------------------

pub open spec fn rewrite_field(f: FieldS, b: RankBindingsS) -> Result<FieldS, ErrorS> {
    match rewrite_type(f.ty, b) {
        Err(e) => Err(e),
        Ok(ty) => Ok(FieldS { ty, ..f }),
    }
}

pub open spec fn rewritten_fields(v: Seq<FieldS>, b: RankBindingsS) -> Seq<Result<FieldS, ErrorS>> {
    Seq::new(v.len(), |i: int| rewrite_field(v[i], b))
}

/// A struct with its field types specialised.
pub open spec fn rewrite_struct_fields(s: ItemStructS, b: RankBindingsS) -> Result<
    ItemStructS,
    ErrorS,
> {
    match collect(rewritten_fields(s.fields, b)) {
        Err(e) => Err(e),
        Ok(fields) => Ok(ItemStructS { fields, ..s }),
    }
}

/// A function with its signature and then its body specialised.
pub open spec fn rewrite_fn(f: ItemFnS, b: RankBindingsS) -> Result<ItemFnS, ErrorS> {
    match rewrite_sig(f.sig, b) {
        Err(e) => Err(e),
        Ok(sig) => match collect(visit_stmts(f.body, b)) {
            Err(e) => Err(e),
            Ok(body) => Ok(ItemFnS { sig, body, ..f }),
        },
    }
}

/// A method. Its own arrays are in scope, at the lengths of their length variables.
pub open spec fn rewrite_method(f: ImplItemFnS, b: RankBindingsS) -> Result<ImplItemFnS, ErrorS> {
    let cgas = var_cgas(f.sig.generics.params, f.sig.generics.params.len());
    match b.with_var_cgas(cgas, 0) {
        Err(e) => Err(e),
        Ok(inner) => match rewrite_sig(f.sig, inner) {
            Err(e) => Err(e),
            Ok(sig) => match collect(visit_stmts(f.body, inner)) {
                Err(e) => Err(e),
                Ok(body) => Ok(ImplItemFnS { sig, body, ..f }),
            },
        },
    }
}

/// What an item of an impl block becomes. A method that spans several ranks is left
/// out.
pub open spec fn rewrite_impl_item(item: ImplItemS, b: RankBindingsS) -> Result<
    Seq<ImplItemS>,
    ErrorS,
> {
    match item {
        ImplItemS::Type { head, ty, tail } => match rewrite_type(ty, b) {
            Err(e) => Err(e),
            Ok(ty) => Ok(seq![ImplItemS::Type { head, ty, tail }]),
        },
        ImplItemS::Const(_) => Ok(seq![item]),
        ImplItemS::Fn(f) => if f.variadic {
            Ok(seq![])
        } else {
            match rewrite_method(f, b) {
                Err(e) => Err(e),
                Ok(f) => Ok(seq![ImplItemS::Fn(f)]),
            }
        },
        ImplItemS::Verbatim(t) => Err(error_at(t, "Unsupported impl item."@)),
    }
}

pub open spec fn rewritten_impl_items(v: Seq<ImplItemS>, b: RankBindingsS) -> Seq<
    Result<Seq<ImplItemS>, ErrorS>,
> {
    Seq::new(v.len(), |i: int| rewrite_impl_item(v[i], b))
}

/// The trait of an impl block: only the arguments of its last segment are specialised.
pub open spec fn rewrite_trait_path(p: Option<PathS>, b: RankBindingsS) -> Result<
    Option<PathS>,
    ErrorS,
> {
    match p {
        None => Ok(None),
        Some(p) => if p.segments.len() == 0 {
            Err(
                error_at(
                    crate::print::path_text(p, false),
                    "Expected at least one path segment in trait path"@,
                ),
            )
        } else {
            match p.segments.last().arguments {
                ArgumentsS::AngleBracketed { turbofish, args } => match expand_trait_args(args, b) {
                    Err(e) => Err(e),
                    Ok(args) => Ok(
                        Some(
                            with_last_arguments(
                                p,
                                ArgumentsS::AngleBracketed { turbofish, args },
                            ),
                        ),
                    ),
                },
                _ => Ok(Some(p)),
            }
        },
    }
}

/// An impl block: self type, generics, trait and items specialised, in this order.
pub open spec fn rewrite_impl_block(item: ItemImplS, b: RankBindingsS) -> Result<
    ItemImplS,
    ErrorS,
> {
    match rewrite_type(item.self_ty, b) {
        Err(e) => Err(e),
        Ok(self_ty) => match rewrite_generics(item.generics, b) {
            Err(e) => Err(e),
            Ok(generics) => match rewrite_trait_path(item.trait_path, b) {
                Err(e) => Err(e),
                Ok(trait_path) => match collect(rewritten_impl_items(item.items, b)) {
                    Err(e) => Err(e),
                    Ok(lists) => Ok(
                        ItemImplS { self_ty, generics, trait_path, items: concat(lists), ..item },
                    ),
                },
            },
        },
    }
}

/// A struct whose arrays have known lengths.
pub open spec fn struct_for_rank(item: ItemStructS, b: RankBindingsS) -> Result<
    ItemStructS,
    ErrorS,
> {
    match rewrite_generics(item.generics, b) {
        Err(e) => Err(e),
        Ok(generics) => match rewrite_struct_fields(item, b) {
            Err(e) => Err(e),
            Ok(s) => Ok(ItemStructS { generics, ..s }),
        },
    }
}

// ---------------------------------------------------------------------------
// The rewriter
// ---------------------------------------------------------------------------

/// Rewrites items for the lengths in its bindings.
///
/// - Type paths: `Tile<E, S>` → `Tile_R<E, S_0, …>`.
/// - Expression paths: `iota::<i32, S>` → `iota::<i32, S_0, …>`; the final segment's
///   ident is preserved while CGA args get expanded.
/// - Struct-literal paths: type-context suffixing.
/// - CGA references in expressions: bare `S` → its bound `u32`, `S[i]` → `S_i`.
/// - `const_shape!` / `const_array!` macro calls → `Shape_R::<…>::const_new()` /
///   `Array_R::<…>::const_new()`.
#[derive(Debug)]
pub struct RankInstantiator {
    bindings: RankBindings,
}

impl View for RankInstantiator {
    type V = RankBindingsS;

    closed spec fn view(&self) -> RankBindingsS {
        self.bindings@
    }
}

impl RankInstantiator {
    pub fn new(bindings: RankBindings) -> (r: RankInstantiator)
        ensures
            r@ == bindings@,
    {
        RankInstantiator { bindings }
    }

    /// Rewrite a struct's field types per rank instance. The struct's ident and generics
    /// are the caller's responsibility.
    pub fn rewrite_struct(self, item: &ItemStruct) -> (r: Result<ItemStruct, Error>)
        ensures
            agrees(r, rewrite_struct_fields(item@, self@)),
    {
        let b = &self.bindings;
        let ghost models = item@.fields;
        let ghost results = rewritten_fields(models, b@);
        let mut out: Vec<Field> = Vec::new();
        let mut i: usize = 0;
        assert(results.take(0) =~= seq![]);
        assert(views(out@) =~= seq![]);
        while i < item.fields.len()
            invariant
                i <= item.fields@.len(),
                b@ == self@,
                models == views(item.fields@),
                models == item@.fields,
                results == rewritten_fields(models, b@),
                collect(results.take(i as int)) == Ok::<Seq<FieldS>, ErrorS>(views(out@)),
            decreases item.fields@.len() - i,
        {
            let field = &item.fields[i];
            proof {
                lemma_collect_step(results, i as int);
                assert(results[i as int] == rewrite_field(field@, b@));
            }
            let done = match rewrite_type_for_rank(&field.ty, b) {
                Ok(ty) => Field {
                    prefix: field.prefix.clone(),
                    ident: clone_opt(&field.ident),
                    ty,
                },
                Err(e) => {
                    return Err(e);
                },
            };
            let ghost prev = out@;
            out.push(done);
            assert(views(out@) =~= views(prev).push(done@));
            i = i + 1;
        }
        assert(results.take(i as int) =~= results);
        Ok(
            ItemStruct {
                attrs: clone_attrs(&item.attrs),
                vis: item.vis.clone(),
                ident: item.ident.clone(),
                generics: item.generics.copy(),
                style: item.style,
                fields: out,
            },
        )
    }

    /// Rewrite a free-fn signature (generics, args, return) and its body.
    pub fn rewrite_function(self, item: &ItemFn) -> (r: Result<ItemFn, Error>)
        ensures
            agrees(r, rewrite_fn(item@, self@)),
    {
        let sig = match rewrite_fn_sig(&item.sig, &self.bindings) {
            Ok(s) => s,
            Err(e) => {
                return Err(e);
            },
        };
        match visit_block_mut(&item.body, &self.bindings) {
            Ok(body) => Ok(
                ItemFn { attrs: clone_attrs(&item.attrs), vis: item.vis.clone(), sig, body },
            ),
            Err(e) => Err(e),
        }
    }

    /// Rewrite an impl block: Self type, generics, trait-path args, and every method
    /// (sig + body) that does not span several ranks.
    pub fn rewrite_impl(self, item: &ItemImpl) -> (r: Result<ItemImpl, Error>)
        ensures
            agrees(r, rewrite_impl_block(item@, self@)),
    {
        let b = &self.bindings;
        let self_ty = match rewrite_type_for_rank(&item.self_ty, b) {
            Ok(t) => t,
            Err(e) => {
                return Err(e);
            },
        };
        let generics = match rewrite_generics_for_rank(&item.generics, b) {
            Ok(g) => g,
            Err(e) => {
                return Err(e);
            },
        };
        let trait_path = match trait_path_for_rank(&item.trait_path, b) {
            Ok(p) => p,
            Err(e) => {
                return Err(e);
            },
        };
        match impl_items(&item.items, b) {
            Ok(items) => Ok(
                ItemImpl {
                    source: item.source.clone(),
                    attrs: clone_attrs(&item.attrs),
                    qualifiers: item.qualifiers.clone(),
                    generics,
                    trait_path,
                    self_ty,
                    items,
                },
            ),
            Err(e) => Err(e),
        }
    }
}

fn trait_path_for_rank(p: &Option<Path>, b: &RankBindings) -> (r: Result<Option<Path>, Error>)
    ensures
        match r {
            Ok(q) => rewrite_trait_path(opt_path(*p), b@) == Ok::<Option<PathS>, ErrorS>(
                opt_path(q),
            ),
            Err(e) => rewrite_trait_path(opt_path(*p), b@) == Err::<Option<PathS>, ErrorS>(e@),
        },
{
    let p = match p {
        None => {
            return Ok(None);
        },
        Some(p) => p,
    };
    assert(segments_s(p.segments@).len() == p.segments@.len());
    if p.segments.len() == 0 {
        return p.err("Expected at least one path segment in trait path");
    }
    let last = &p.segments[p.segments.len() - 1];
    assert(p@.segments.last() == segment_s(*last));
    match &last.arguments {
        PathArguments::AngleBracketed { turbofish, args } => match rewrite_generic_args_for_rank(
            args,
            b,
        ) {
            Ok(args) => Ok(
                Some(
                    replace_last_arguments(
                        p,
                        PathArguments::AngleBracketed { turbofish: *turbofish, args },
                    ),
                ),
            ),
            Err(e) => Err(e),
        },
        _ => Ok(Some(clone_path(p))),
    }
}

/// Rewrite a single method inside an impl block. Method-level CGAs extend the rank
/// context for the duration of this method.
pub fn rewrite_impl_method(item: &ImplItemFn, bindings: &RankBindings) -> (r: Result<
    ImplItemFn,
    Error,
>)
    ensures
        agrees(r, rewrite_method(item@, bindings@)),
{
    let cgas = cgas_from_generics(&item.sig.generics);
    let inner = match bindings.instantiate_var_cgas(&cgas) {
        Ok(b) => b,
        Err(e) => {
            return Err(e);
        },
    };
    let sig = match rewrite_fn_sig(&item.sig, &inner) {
        Ok(s) => s,
        Err(e) => {
            return Err(e);
        },
    };
    match visit_block_mut(&item.body, &inner) {
        Ok(body) => Ok(
            ImplItemFn {
                attrs: clone_attrs(&item.attrs),
                vis: item.vis.clone(),
                variadic: item.variadic,
                sig,
                body,
            },
        ),
        Err(e) => Err(e),
    }
}

fn impl_items(v: &Vec<ImplItem>, b: &RankBindings) -> (r: Result<Vec<ImplItem>, Error>)
    ensures
        match collect(rewritten_impl_items(views(v@), b@)) {
            Ok(lists) => r matches Ok(w) && views(w@) == concat(lists),
            Err(x) => r matches Err(e) && e@ == x,
        },
{
    let ghost models = views(v@);
    let ghost results = rewritten_impl_items(models, b@);
    let ghost mut lists: Seq<Seq<ImplItemS>> = seq![];
    let mut out: Vec<ImplItem> = Vec::new();
    let mut i: usize = 0;
    assert(results.take(0) =~= seq![]);
    assert(views(out@) =~= concat(lists));
    while i < v.len()
        invariant
            i <= v@.len(),
            models == views(v@),
            results == rewritten_impl_items(models, b@),
            collect(results.take(i as int)) == Ok::<Seq<Seq<ImplItemS>>, ErrorS>(lists),
            views(out@) == concat(lists),
        decreases v@.len() - i,
    {
        proof {
            lemma_collect_step(results, i as int);
            assert(results[i as int] == rewrite_impl_item(v@[i as int]@, b@));
        }
        let ghost prev = out@;
        let ghost mut more: Seq<ImplItemS> = seq![];
        match &v[i] {
            ImplItem::Type { head, ty, tail } => match rewrite_type_for_rank(ty, b) {
                Ok(ty) => {
                    let done = ImplItem::Type { head: head.clone(), ty, tail: tail.clone() };
                    proof {
                        more = seq![done@];
                    }
                    out.push(done);
                },
                Err(e) => {
                    return Err(e);
                },
            },
            ImplItem::Const(t) => {
                let done = ImplItem::Const(t.clone());
                proof {
                    more = seq![done@];
                }
                out.push(done);
            },
            ImplItem::Fn(f) => {
                if !f.variadic {
                    match rewrite_impl_method(f, b) {
                        Ok(f) => {
                            let done = ImplItem::Fn(f);
                            proof {
                                more = seq![done@];
                            }
                            out.push(done);
                        },
                        Err(e) => {
                            return Err(e);
                        },
                    }
                }
            },
            ImplItem::Verbatim(t) => {
                return t.err("Unsupported impl item.");
            },
        }
        proof {
            assert(views(out@) =~= views(prev) + more);
            let next = lists.push(more);
            assert(next.drop_last() =~= lists);
            lists = next;
        }
        i = i + 1;
    }
    assert(results.take(i as int) =~= results);
    Ok(out)
}

// ---------------------------------------------------------------------------
// Items of a single rank
// ---------------------------------------------------------------------------

/// Desugars const generic array syntax in a struct definition.
///
/// Transforms const generic array parameters (e.g., `const D: [i32; 2]`) into individual
/// const generic parameters (e.g., `const D_0: i32, const D_1: i32`). `cgas` are the arrays
/// that the struct declares.
pub fn instantiate_struct_for_rank(item: &ItemStruct, cgas: &Vec<CGAParameter>) -> (r: Result<
    ItemStruct,
    Error,
>)
    ensures
        agrees(r, struct_for_rank(item@, RankBindingsS::from_generics(views(cgas@)))),
{
    let bindings = RankBindings::from_generics(cgas);
    let generics = match rewrite_generics_for_rank(&item.generics, &bindings) {
        Ok(g) => g,
        Err(e) => {
            return Err(e);
        },
    };
    match RankInstantiator::new(bindings).rewrite_struct(item) {
        Ok(s) => Ok(
            ItemStruct {
                attrs: s.attrs,
                vis: s.vis,
                ident: s.ident,
                generics,
                style: s.style,
                fields: s.fields,
            },
        ),
        Err(e) => Err(e),
    }
}

/// Desugars const generic array syntax in a function definition.
///
/// Rewrites the signature and the body to replace const generic arrays with expanded const
/// generic parameters. `cgas` are the arrays that the function declares:
/// `fn my_fn<const S: [i32; 2]>(x: Tile<f32, S>) -> Shape<S>` becomes
/// `fn my_fn<const S_0: i32, const S_1: i32>(x: Tile_2<f32, S_0, S_1>) -> Shape_2<S_0, S_1>`.
pub fn instantiate_function_for_rank(item: &ItemFn, cgas: &Vec<CGAParameter>) -> (r: Result<
    ItemFn,
    Error,
>)
    ensures
        agrees(r, rewrite_fn(item@, RankBindingsS::from_generics(views(cgas@)))),
{
    let bindings = RankBindings::from_generics(cgas);
    RankInstantiator::new(bindings).rewrite_function(item)
}

/// Desugars const generic array syntax in an impl block. `cgas` are the arrays that the
/// block declares.
pub fn instantiate_impl_for_rank(item: &ItemImpl, cgas: &Vec<CGAParameter>) -> (r: Result<
    ItemImpl,
    Error,
>)
    ensures
        agrees(r, rewrite_impl_block(item@, RankBindingsS::from_generics(views(cgas@)))),
{
    let bindings = RankBindings::from_generics(cgas);
    RankInstantiator::new(bindings).rewrite_impl(item)
}

} // verus!
