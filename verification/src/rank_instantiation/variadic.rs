//! Expansion of an item into one copy for each combination of lengths.
use super::bindings::{
    cgas_from_generics, concrete_name, concrete_name_text, dim_text, dim_texts, dims, var_cgas,
    MetaS, RankBindings, RankBindingsS, SingleMetaList, VarCGAParameter, VarCgaS,
};
use super::instantiator::{rewrite_impl_block, RankInstantiator};
use super::lengths::{
    item_at, length_space, length_vars, lengths_fit, second, VariadicLengthItem,
    VariadicLengthItemS, VariadicLengthIterator,
};
use super::signatures::{rewrite_generics, rewrite_generics_for_rank};
use crate::ast::{Type, TypeS};
use crate::error::{Error, ErrorS};
use crate::grammar::{
    const_param_source, item_impl_refusal, judge, name_word, numbered_word, refuse_item_impl,
    splits_into_tokens, tokenizes, verdict,
};
use crate::items::{
    clone_attrs, clone_fields, views, FieldS, FieldStyle, ItemImpl, ItemImplS, ItemStruct,
    ItemStructS,
};
use crate::lists::{collect, concat, lemma_collect_step, lemma_concat_step};
use crate::text::{
    append_all, cat4, cat5, decimal, decimal_text, join, join_text, opt_text, same, texts, Text,
};
use vstd::prelude::*;

verus! {

// ---------------------------------------------------------------------------
// Constructors
// ---------------------------------------------------------------------------

/// A named field `dims` that is a reference to a slice.
pub open spec fn is_dims_field(f: FieldS) -> bool {
    &&& f.ident == Some("dims"@)
    &&& f.ty matches TypeS::Reference { elem, .. } && *elem is Slice
}

/// A struct with a field `dims` that is a reference to a slice.
pub open spec fn has_dims_field(s: ItemStructS) -> bool {
    &&& s.style is Named
    &&& exists|i: int| 0 <= i < s.fields.len() && is_dims_field(#[trigger] s.fields[i])
}

fn is_slice(t: &Type) -> (r: bool)
    ensures
        r == (t@ is Slice),
{
    match t {
        Type::Slice(_) => true,
        _ => false,
    }
}

/// True if the struct has a field named `dims` whose type is a reference to a slice (e.g.
/// `&'a [i32]`). Purely syntactic.
pub fn struct_has_dims_field(item: &ItemStruct) -> (r: bool)
    ensures
        r == has_dims_field(item@),
{
    match item.style {
        FieldStyle::Named => {},
        _ => {
            return false;
        },
    }
    let mut i: usize = 0;
    while i < item.fields.len()
        invariant
            i <= item.fields@.len(),
            item.style is Named,
            forall|j: int| 0 <= j < i ==> !is_dims_field(#[trigger] item@.fields[j]),
        decreases item.fields@.len() - i,
    {
        let f = &item.fields[i];
        assert(item@.fields[i as int] == f@);
        let named = match &f.ident {
            Some(name) => same(name.as_str(), "dims"),
            None => false,
        };
        let slice = match &f.ty {
            Type::Reference { lifetime: _, mutable: _, elem } => is_slice(elem),
            _ => false,
        };
        if named && slice {
            return true;
        }
        i = i + 1;
    }
    false
}

/// The constructor that takes the given number of dynamic dimensions.
pub open spec fn dynamic_constructor(constructor: Text, name: Text, n: nat) -> Text {
    "pub fn "@ + constructor + "_"@ + decimal_text(n) + "(dims: &'a [i32; "@ + decimal_text(n)
        + "]) -> Self { "@ + name + " { dims: dims } }"@
}

/// The constructor without dynamic dimensions.
pub open spec fn const_constructor(constructor: Text, name: Text) -> Text {
    "pub fn const_"@ + constructor + "() -> Self { "@ + name + " { dims: &[] } }"@
}

/// The constructors for an array of length `n`: one for each number of dynamic
/// dimensions from 0 to `n`, and the one without behind the first.
pub open spec fn array_constructors(constructor: Text, name: Text, n: nat) -> Seq<Text> {
    seq![dynamic_constructor(constructor, name, 0), const_constructor(constructor, name)]
        + Seq::new(n, |i: int| dynamic_constructor(constructor, name, (i + 1) as nat))
}

/// The constructors for all arrays.
pub open spec fn all_constructors(constructor: Text, name: Text, lengths: Seq<u32>) -> Seq<Text> {
    concat(Seq::new(lengths.len(), |i: int| array_constructors(constructor, name, lengths[i] as nat)))
}

/// The dimensions of an array as const parameters.
pub open spec fn array_params(cga: VarCgaS, n: nat) -> Seq<Text> {
    Seq::new(n, |i: int| const_param_source(dim_text(cga.name, i as nat), cga.element_type))
}

pub open spec fn all_params(cgas: Seq<VarCgaS>, lengths: Seq<u32>) -> Seq<Text> {
    concat(Seq::new(cgas.len(), |i: int| array_params(cgas[i], lengths[i] as nat)))
}

pub open spec fn all_args(cgas: Seq<VarCgaS>, lengths: Seq<u32>) -> Seq<Text> {
    concat(Seq::new(cgas.len(), |i: int| dim_texts(cgas[i].name, lengths[i] as nat)))
}

/// The impl block that holds the constructors.
pub open spec fn constructor_impl(
    name: Text,
    constructor: Text,
    cgas: Seq<VarCgaS>,
    lengths: Seq<u32>,
) -> Text {
    "impl<'a, "@ + join_text(all_params(cgas, lengths), ","@) + "> "@ + name + "<'a, "@ + join_text(
        all_args(cgas, lengths),
        ","@,
    ) + "> { "@ + join_text(all_constructors(constructor, name, lengths), "\n"@) + " }"@
}

/// The constructors are of plain form: the struct has a name that ends in a digit, the
/// constructors are called by a word, and the arrays hold `i32` under names that are words.
pub open spec fn plain_constructors(
    name: Text,
    constructor: Text,
    cgas: Seq<VarCgaS>,
    lengths: Seq<u32>,
) -> bool {
    &&& numbered_word(name)
    &&& name_word(constructor)
    &&& lengths.len() == cgas.len()
    &&& forall|i: int|
        0 <= i < cgas.len() ==> name_word((#[trigger] cgas[i]).name) && cgas[i].element_type
            == "i32"@
}

/// The constructors of a struct, where it asks for them and has dimensions to hold. Those of
/// plain form are always given. `at` is the name that a failure points at.
pub open spec fn struct_constructors(
    at: Text,
    name: Text,
    constructor: Option<Text>,
    dims_field: bool,
    cgas: Seq<VarCgaS>,
    lengths: Seq<u32>,
) -> Result<Option<Text>, ErrorS> {
    match constructor {
        None => Ok(None),
        Some(constructor) => if !dims_field || cgas.len() == 0 {
            Ok(None)
        } else {
            let source = constructor_impl(name, constructor, cgas, lengths);
            let seen = if plain_constructors(name, constructor, cgas, lengths) {
                Ok(())
            } else {
                verdict(
                    at,
                    "Failed to parse constructor impl"@,
                    tokenizes(source),
                    item_impl_refusal(source),
                )
            };
            match seen {
                Err(e) => Err(e),
                Ok(_) => Ok(Some(source)),
            }
        },
    }
}

fn push_dynamic(out: &mut Vec<String>, constructor: &str, name: &str, n: u32)
    ensures
        texts(final(out)@) == texts(old(out)@).push(
            dynamic_constructor(constructor@, name@, n as nat),
        ),
{
    let d = decimal(n as usize);
    let head = cat5("pub fn ", constructor, "_", d.as_str(), "(dims: &'a [i32; ");
    let text = cat5(head.as_str(), d.as_str(), "]) -> Self { ", name, " { dims: dims } }");
    let ghost prev = out@;
    out.push(text);
    assert(texts(out@) =~= texts(prev).push(text@));
}

fn constructors_of(constructor: &str, name: &str, n: u32) -> (r: Vec<String>)
    ensures
        texts(r@) == array_constructors(constructor@, name@, n as nat),
{
    let mut out: Vec<String> = Vec::new();
    assert(texts(out@) =~= seq![]);
    push_dynamic(&mut out, constructor, name, 0);
    let text = cat5("pub fn const_", constructor, "() -> Self { ", name, " { dims: &[] } }");
    let ghost prev = out@;
    out.push(text);
    assert(texts(out@) =~= texts(prev).push(text@));
    let ghost start = texts(out@);
    assert(start =~= seq![
        dynamic_constructor(constructor@, name@, 0),
        const_constructor(constructor@, name@),
    ]);
    let mut i: u32 = 0;
    while i < n
        invariant
            i <= n,
            texts(out@) =~= start + Seq::new(
                i as nat,
                |k: int| dynamic_constructor(constructor@, name@, (k + 1) as nat),
            ),
        decreases n - i,
    {
        push_dynamic(&mut out, constructor, name, i + 1);
        i = i + 1;
    }
    out
}

fn params_of(cga: &VarCGAParameter, n: u32) -> (r: Vec<String>)
    ensures
        texts(r@) == array_params(cga@, n as nat),
{
    let names = dims(cga.name.as_str(), n);
    assert(texts(names@).len() == n);
    let mut out: Vec<String> = Vec::new();
    let mut i: usize = 0;
    while i < names.len()
        invariant
            i <= names@.len(),
            names@.len() == n,
            texts(names@) == dim_texts(cga.name@, n as nat),
            out@.len() == i,
            forall|j: int|
                0 <= j < i ==> (#[trigger] out@[j])@ == const_param_source(
                    dim_text(cga.name@, j as nat),
                    cga.element_type@,
                ),
        decreases names@.len() - i,
    {
        assert(texts(names@)[i as int] == names@[i as int]@);
        out.push(cat4("const ", names[i].as_str(), ": ", cga.element_type.as_str()));
        i = i + 1;
    }
    assert(texts(out@) =~= array_params(cga@, n as nat));
    out
}

/// Writes the impl block that holds the constructors.
pub fn write_constructor_impl(
    name: &str,
    constructor: &str,
    cgas: &Vec<VarCGAParameter>,
    lengths: &Vec<u32>,
) -> (r: String)
    requires
        cgas@.len() == lengths@.len(),
    ensures
        r@ == constructor_impl(name@, constructor@, views(cgas@), lengths@),
{
    let ghost models = views(cgas@);
    let ghost plists = Seq::new(
        models.len(),
        |i: int| array_params(models[i], lengths@[i] as nat),
    );
    let ghost alists = Seq::new(
        models.len(),
        |i: int| dim_texts(models[i].name, lengths@[i] as nat),
    );
    let ghost clists = Seq::new(
        lengths@.len(),
        |i: int| array_constructors(constructor@, name@, lengths@[i] as nat),
    );
    let mut type_params: Vec<String> = Vec::new();
    let mut type_args: Vec<String> = Vec::new();
    let mut constructors: Vec<String> = Vec::new();
    let mut i: usize = 0;
    assert(texts(type_params@) =~= concat(plists.take(0)));
    assert(texts(type_args@) =~= concat(alists.take(0)));
    assert(texts(constructors@) =~= concat(clists.take(0)));
    while i < cgas.len()
        invariant
            i <= cgas@.len(),
            cgas@.len() == lengths@.len(),
            models == views(cgas@),
            plists == Seq::new(
                models.len(),
                |i: int| array_params(models[i], lengths@[i] as nat),
            ),
            alists == Seq::new(
                models.len(),
                |i: int| dim_texts(models[i].name, lengths@[i] as nat),
            ),
            clists == Seq::new(
                lengths@.len(),
                |i: int| array_constructors(constructor@, name@, lengths@[i] as nat),
            ),
            texts(type_params@) == concat(plists.take(i as int)),
            texts(type_args@) == concat(alists.take(i as int)),
            texts(constructors@) == concat(clists.take(i as int)),
        decreases cgas@.len() - i,
    {
        proof {
            lemma_concat_step(plists, i as int);
            lemma_concat_step(alists, i as int);
            lemma_concat_step(clists, i as int);
        }
        let n: u32 = lengths[i];
        append_all(&mut type_params, &params_of(&cgas[i], n));
        append_all(&mut type_args, &dims(cgas[i].name.as_str(), n));
        append_all(&mut constructors, &constructors_of(constructor, name, n));
        i = i + 1;
    }
    assert(plists.take(i as int) =~= plists);
    assert(alists.take(i as int) =~= alists);
    assert(clists.take(i as int) =~= clists);
    let impl_generics = join(&type_params, ",");
    let impl_type_args = join(&type_args, ",");
    let impl_constructors = join(&constructors, "\n");
    let head = cat5("impl<'a, ", impl_generics.as_str(), "> ", name, "<'a, ");
    cat5(head.as_str(), impl_type_args.as_str(), "> { ", impl_constructors.as_str(), " }")
}

fn constructors_for(
    at: &str,
    name: &str,
    constructor: Option<&String>,
    dims_field: bool,
    cgas: &Vec<VarCGAParameter>,
    lengths: &Vec<u32>,
) -> (r: Result<Option<String>, Error>)
    requires
        cgas@.len() == lengths@.len(),
    ensures
        ({
            let c = match constructor {
                Some(c) => Some(c@),
                None => None,
            };
            let s = struct_constructors(at@, name@, c, dims_field, views(cgas@), lengths@);
            match r {
                Ok(x) => s == Ok::<Option<Text>, ErrorS>(opt_text(x)),
                Err(e) => s == Err::<Option<Text>, ErrorS>(e@),
            }
        }),
{
    match constructor {
        None => Ok(None),
        Some(constructor) => {
            if !dims_field || cgas.len() == 0 {
                return Ok(None);
            }
            let source = write_constructor_impl(name, constructor.as_str(), cgas, lengths);
            match judge(
                at,
                "Failed to parse constructor impl",
                splits_into_tokens(source.as_str()),
                refuse_item_impl(source.as_str()),
            ) {
                Err(e) => Err(e),
                Ok(_) => Ok(Some(source)),
            }
        },
    }
}

// ---------------------------------------------------------------------------
// Structs
// ---------------------------------------------------------------------------

/// The copy of a struct for one combination of lengths, with its constructors.
pub open spec fn struct_variant(
    item: ItemStructS,
    constructor: Option<Text>,
    cgas: Seq<VarCgaS>,
    lengths: VariadicLengthItemS,
) -> Result<(ItemStructS, Option<Text>), ErrorS> {
    match RankBindingsS::from_variadic(lengths, cgas) {
        Err(e) => Err(e),
        Ok(b) => match rewrite_generics(item.generics, b) {
            Err(e) => Err(e),
            Ok(generics) => {
                let ranks = second(lengths.cgas);
                let ident = concrete_name_text(item.ident, ranks);
                match struct_constructors(
                    item.ident,
                    ident,
                    constructor,
                    has_dims_field(item),
                    cgas,
                    ranks,
                ) {
                    Err(e) => Err(e),
                    Ok(c) => Ok((ItemStructS { ident, generics, ..item }, c)),
                }
            },
        },
    }
}

/// The name of the constructors that an attribute asks for.
pub open spec fn constructor_name(attributes: MetaS) -> Option<Text> {
    if attributes.strings.contains_key("constructor"@) {
        Some(attributes.strings["constructor"@])
    } else {
        None
    }
}

/// The arrays that an item declares.
pub open spec fn struct_cgas(item: ItemStructS) -> Seq<VarCgaS> {
    var_cgas(item.generics.params, item.generics.params.len())
}

pub open spec fn impl_cgas(item: ItemImplS) -> Seq<VarCgaS> {
    var_cgas(item.generics.params, item.generics.params.len())
}

/// One copy of a struct for each combination of lengths, in order.
pub open spec fn struct_variants(attributes: MetaS, item: ItemStructS) -> Result<
    Seq<(ItemStructS, Option<Text>)>,
    ErrorS,
> {
    let cgas = struct_cgas(item);
    match length_space(attributes, cgas) {
        Err(e) => Err(e),
        Ok(space) => collect(
            Seq::new(
                space.total,
                |i: int|
                    struct_variant(
                        item,
                        constructor_name(attributes),
                        cgas,
                        item_at(i as nat, space.lengths, length_vars(cgas)),
                    ),
            ),
        ),
    }
}

pub open spec fn variants_s(v: Seq<(ItemStruct, Option<String>)>) -> Seq<
    (ItemStructS, Option<Text>),
> {
    Seq::new(v.len(), |i: int| (v[i].0@, opt_text(v[i].1)))
}

fn make_struct_variant(
    item: &ItemStruct,
    constructor: Option<&String>,
    dims_field: bool,
    cgas: &Vec<VarCGAParameter>,
    lengths: &VariadicLengthItem,
) -> (r: Result<(ItemStruct, Option<String>), Error>)
    requires
        dims_field == has_dims_field(item@),
        lengths@.cgas.len() == cgas@.len(),
    ensures
        ({
            let c = match constructor {
                Some(c) => Some(c@),
                None => None,
            };
            let s = struct_variant(item@, c, views(cgas@), lengths@);
            match r {
                Ok(x) => s == Ok::<(ItemStructS, Option<Text>), ErrorS>((x.0@, opt_text(x.1))),
                Err(e) => s == Err::<(ItemStructS, Option<Text>), ErrorS>(e@),
            }
        }),
{
    let b = match RankBindings::from_variadic(lengths, cgas) {
        Ok(b) => b,
        Err(e) => {
            return Err(e);
        },
    };
    let ranks = lengths.vec_of_cga_lengths();
    let ident = concrete_name(item.ident.as_str(), ranks.as_slice());
    let generics = match rewrite_generics_for_rank(&item.generics, &b) {
        Ok(g) => g,
        Err(e) => {
            return Err(e);
        },
    };
    match constructors_for(
        item.ident.as_str(),
        ident.as_str(),
        constructor,
        dims_field,
        cgas,
        &ranks,
    ) {
        Err(e) => Err(e),
        Ok(c) => Ok(
            (
                ItemStruct {
                    attrs: clone_attrs(&item.attrs),
                    vis: item.vis.clone(),
                    ident,
                    generics,
                    style: item.style,
                    fields: clone_fields(&item.fields),
                },
                c,
            ),
        ),
    }
}

/// Expands a variadic struct into multiple rank-specific versions.
///
/// Takes a struct with const generic array parameters and generates a concrete version for
/// each combination of lengths that the attribute allows. The result holds, for each of
/// them, the struct and the source of an impl block with its constructors, where the
/// attribute names a constructor and the struct has dimensions to hold.
pub fn variadic_struct(attributes: &SingleMetaList, item: ItemStruct) -> (r: Result<
    Vec<(ItemStruct, Option<String>)>,
    Error,
>)
    requires
        lengths_fit(attributes@, struct_cgas(item@)),
    ensures
        match r {
            Ok(v) => struct_variants(attributes@, item@) == Ok::<
                Seq<(ItemStructS, Option<Text>)>,
                ErrorS,
            >(variants_s(v@)),
            Err(e) => struct_variants(attributes@, item@) == Err::<
                Seq<(ItemStructS, Option<Text>)>,
                ErrorS,
            >(e@),
        },
{
    let cgas = cgas_from_generics(&item.generics);
    let mut it = match VariadicLengthIterator::new(attributes, &cgas) {
        Ok(it) => it,
        Err(e) => {
            return Err(e);
        },
    };
    let constructor = attributes.parse_string("constructor");
    let dims_field = struct_has_dims_field(&item);
    let ghost models = views(cgas@);
    let ghost name = constructor_name(attributes@);
    let ghost space = it@.space;
    let ghost results = Seq::new(
        space.total,
        |i: int|
            struct_variant(
                item@,
                name,
                models,
                item_at(i as nat, space.lengths, length_vars(models)),
            ),
    );
    let mut out: Vec<(ItemStruct, Option<String>)> = Vec::new();
    assert(results.take(0) =~= seq![]);
    assert(variants_s(out@) =~= seq![]);
    loop
        invariant
            it@.wf(),
            it@.space == space,
            it@.vars == length_vars(models),
            models == views(cgas@),
            dims_field == has_dims_field(item@),
            name == (match constructor {
                Some(c) => Some(c@),
                None => None,
            }),
            results == Seq::new(
                space.total,
                |i: int|
                    struct_variant(
                        item@,
                        name,
                        models,
                        item_at(i as nat, space.lengths, length_vars(models)),
                    ),
            ),
            struct_variants(attributes@, item@) == collect(results),
            collect(results.take(it@.i as int)) == Ok::<Seq<(ItemStructS, Option<Text>)>, ErrorS>(
                variants_s(out@),
            ),
        ensures
            it@.i == space.total,
        decreases space.total - it@.i,
    {
        let ghost i = it@.i as int;
        match it.next() {
            None => {
                break;
            },
            Some(lengths) => {
                proof {
                    lemma_collect_step(results, i);
                    assert(results[i] == struct_variant(item@, name, models, lengths@));
                }
                match make_struct_variant(&item, constructor, dims_field, &cgas, &lengths) {
                    Ok(done) => {
                        let ghost prev = out@;
                        let ghost model = (done.0@, opt_text(done.1));
                        out.push(done);
                        assert(variants_s(out@) =~= variants_s(prev).push(model));
                    },
                    Err(e) => {
                        return Err(e);
                    },
                }
            },
        }
    }
    assert(results.take(it@.i as int) =~= results);
    Ok(out)
}

// ---------------------------------------------------------------------------
// Impl blocks
// ---------------------------------------------------------------------------

/// The copy of an impl block for one combination of lengths.
pub open spec fn impl_variant(item: ItemImplS, cgas: Seq<VarCgaS>, lengths: VariadicLengthItemS) -> Result<
    ItemImplS,
    ErrorS,
> {
    match RankBindingsS::from_variadic(lengths, cgas) {
        Err(e) => Err(e),
        Ok(b) => rewrite_impl_block(item, b),
    }
}

/// One copy of an impl block for each combination of lengths, in order.
pub open spec fn impl_variants(attributes: MetaS, item: ItemImplS) -> Result<
    Seq<ItemImplS>,
    ErrorS,
> {
    let cgas = impl_cgas(item);
    match length_space(attributes, cgas) {
        Err(e) => Err(e),
        Ok(space) => collect(
            Seq::new(
                space.total,
                |i: int|
                    impl_variant(item, cgas, item_at(i as nat, space.lengths, length_vars(cgas))),
            ),
        ),
    }
}

/// Expands a variadic implementation into multiple rank-specific versions.
///
/// Generates an impl block for each combination of lengths, with all types and method
/// signatures updated to use the rank-specific type names.
pub fn variadic_impl(attributes: &SingleMetaList, item: ItemImpl) -> (r: Result<
    Vec<ItemImpl>,
    Error,
>)
    requires
        lengths_fit(attributes@, impl_cgas(item@)),
    ensures
        match r {
            Ok(v) => impl_variants(attributes@, item@) == Ok::<Seq<ItemImplS>, ErrorS>(views(v@)),
            Err(e) => impl_variants(attributes@, item@) == Err::<Seq<ItemImplS>, ErrorS>(e@),
        },
{
    let cgas = cgas_from_generics(&item.generics);
    let mut it = match VariadicLengthIterator::new(attributes, &cgas) {
        Ok(it) => it,
        Err(e) => {
            return Err(e);
        },
    };
    let ghost models = views(cgas@);
    let ghost space = it@.space;
    let ghost results = Seq::new(
        space.total,
        |i: int|
            impl_variant(item@, models, item_at(i as nat, space.lengths, length_vars(models))),
    );
    let mut out: Vec<ItemImpl> = Vec::new();
    assert(results.take(0) =~= seq![]);
    assert(views(out@) =~= seq![]);
    loop
        invariant
            it@.wf(),
            it@.space == space,
            it@.vars == length_vars(models),
            models == views(cgas@),
            results == Seq::new(
                space.total,
                |i: int|
                    impl_variant(
                        item@,
                        models,
                        item_at(i as nat, space.lengths, length_vars(models)),
                    ),
            ),
            impl_variants(attributes@, item@) == collect(results),
            collect(results.take(it@.i as int)) == Ok::<Seq<ItemImplS>, ErrorS>(views(out@)),
        ensures
            it@.i == space.total,
        decreases space.total - it@.i,
    {
        let ghost i = it@.i as int;
        match it.next() {
            None => {
                break;
            },
            Some(lengths) => {
                proof {
                    lemma_collect_step(results, i);
                    assert(results[i] == impl_variant(item@, models, lengths@));
                }
                let b = match RankBindings::from_variadic(&lengths, &cgas) {
                    Ok(b) => b,
                    Err(e) => {
                        return Err(e);
                    },
                };
                match RankInstantiator::new(b).rewrite_impl(&item) {
                    Ok(done) => {
                        let ghost prev = out@;
                        let ghost model = done@;
                        out.push(done);
                        assert(views(out@) =~= views(prev).push(model));
                    },
                    Err(e) => {
                        return Err(e);
                    },
                }
            },
        }
    }
    assert(results.take(it@.i as int) =~= results);
    Ok(out)
}

} // verus!
