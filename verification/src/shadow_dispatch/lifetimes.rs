//! Lifetimes in types.
use super::types::{base_has_lifetime, lifetime_bearing};
use crate::ast::{
    arg_s, args_s, segment_s, segments_s, type_s, types_s, ArgS, ArgumentsS, PathS, SegmentS, TypeS,
};
use crate::ast::{GenericArgument, Path, PathArguments, PathSegment, Type};
use crate::copy::{clone_arg, clone_expr, clone_qself, clone_segment, clone_type};
use crate::text::{includes, same, texts, Text};
use vstd::prelude::*;

verus! {

// ---------------------------------------------------------------------------
// Anonymous lifetimes
// ---------------------------------------------------------------------------

pub open spec fn bound_arg(a: ArgS, lt: Text) -> ArgS
    decreases a,
{
    match a {
        ArgS::Lifetime(l) => if l == "_"@ { ArgS::Lifetime(lt) } else { a },
        ArgS::Type(t) => ArgS::Type(bound(t, lt)),
        _ => a,
    }
}

pub open spec fn bound_args(v: Seq<ArgS>, lt: Text) -> Seq<ArgS>
    decreases v,
{
    Seq::new(
        v.len(),
        |i: int| if 0 <= i < v.len() { bound_arg(v[i], lt) } else { arbitrary() },
    )
}

pub open spec fn bound_segment(s: SegmentS, lt: Text) -> SegmentS
    decreases s,
{
    match s.arguments {
        ArgumentsS::AngleBracketed { turbofish, args } => SegmentS {
            ident: s.ident,
            arguments: ArgumentsS::AngleBracketed { turbofish, args: bound_args(args, lt) },
        },
        _ => s,
    }
}

pub open spec fn bound_segments(v: Seq<SegmentS>, lt: Text) -> Seq<SegmentS>
    decreases v,
{
    Seq::new(
        v.len(),
        |i: int| if 0 <= i < v.len() { bound_segment(v[i], lt) } else { arbitrary() },
    )
}

pub open spec fn bound_types(v: Seq<TypeS>, lt: Text) -> Seq<TypeS>
    decreases v,
{
    Seq::new(
        v.len(),
        |i: int| if 0 <= i < v.len() { bound(v[i], lt) } else { arbitrary() },
    )
}

/// A type with every anonymous lifetime (`'_`), and every lifetime that a reference leaves
/// out, replaced by `lt`. `'_` is not allowed in trait-impl positions.
pub open spec fn bound(t: TypeS, lt: Text) -> TypeS
    decreases t,
{
    match t {
        TypeS::Path(p) => TypeS::Path(
            PathS { segments: bound_segments(p.segments, lt), ..p },
        ),
        TypeS::Reference { lifetime, mutable, elem } => TypeS::Reference {
            lifetime: match lifetime { Some(l) => if l == "_"@ { Some(lt) } else { Some(l) }, None => Some(lt) },
            mutable,
            elem: Box::new(bound(*elem, lt)),
        },
        TypeS::Array { elem, len } => TypeS::Array {
            elem: Box::new(bound(*elem, lt)),
            len,
        },
        TypeS::Tuple(elems) => TypeS::Tuple(bound_types(elems, lt)),
        _ => t,
    }
}

fn bind_anon_lifetimes_to_arg(a: &GenericArgument, lt: &str) -> (r: GenericArgument)
    ensures
        r@ == bound_arg(a@, lt@),
    decreases a,
{
    match a {
        GenericArgument::Lifetime(l) => if same(l.as_str(), "_") { GenericArgument::Lifetime(lt.to_owned()) } else { clone_arg(a) },
        GenericArgument::Type(t) => GenericArgument::Type(bind_anon_lifetimes_to(t, lt)),
        _ => clone_arg(a),
    }
}

fn bind_anon_lifetimes_to_segment(s: &PathSegment, lt: &str) -> (r: PathSegment)
    ensures
        r@ == bound_segment(s@, lt@),
    decreases s,
{
    match &s.arguments {
        PathArguments::AngleBracketed { turbofish, args } => PathSegment {
            ident: s.ident.clone(),
            arguments: PathArguments::AngleBracketed {
                turbofish: *turbofish,
                args: bind_anon_lifetimes_to_args(args, lt),
            },
        },
        _ => clone_segment(s),
    }
}

fn bind_anon_lifetimes_to_args(v: &Vec<GenericArgument>, lt: &str) -> (r: Vec<GenericArgument>)
    ensures
        args_s(r@) == bound_args(args_s(v@), lt@),
    decreases v,
{
    let mut out: Vec<GenericArgument> = Vec::new();
    let mut i: usize = 0;
    assert(bound_args(args_s(v@), lt@).len() == v@.len());
    while i < v.len()
        invariant
            i <= v@.len(),
            out@.len() == i,
            forall|j: int|
                0 <= j < i ==> arg_s(#[trigger] out@[j]) == bound_args(args_s(v@), lt@)[j],
        decreases v@.len() - i,
    {
        assert(args_s(v@)[i as int] == arg_s(v@[i as int]));
        out.push(bind_anon_lifetimes_to_arg(&v[i], lt));
        i = i + 1;
    }
    assert(args_s(out@) =~= bound_args(args_s(v@), lt@));
    out
}

fn bind_anon_lifetimes_to_segments(v: &Vec<PathSegment>, lt: &str) -> (r: Vec<PathSegment>)
    ensures
        segments_s(r@) == bound_segments(segments_s(v@), lt@),
    decreases v,
{
    let mut out: Vec<PathSegment> = Vec::new();
    let mut i: usize = 0;
    assert(bound_segments(segments_s(v@), lt@).len() == v@.len());
    while i < v.len()
        invariant
            i <= v@.len(),
            out@.len() == i,
            forall|j: int|
                0 <= j < i ==> segment_s(#[trigger] out@[j]) == bound_segments(segments_s(v@), lt@)[j],
        decreases v@.len() - i,
    {
        assert(segments_s(v@)[i as int] == segment_s(v@[i as int]));
        out.push(bind_anon_lifetimes_to_segment(&v[i], lt));
        i = i + 1;
    }
    assert(segments_s(out@) =~= bound_segments(segments_s(v@), lt@));
    out
}

fn bind_anon_lifetimes_to_types(v: &Vec<Type>, lt: &str) -> (r: Vec<Type>)
    ensures
        types_s(r@) == bound_types(types_s(v@), lt@),
    decreases v,
{
    let mut out: Vec<Type> = Vec::new();
    let mut i: usize = 0;
    assert(bound_types(types_s(v@), lt@).len() == v@.len());
    while i < v.len()
        invariant
            i <= v@.len(),
            out@.len() == i,
            forall|j: int|
                0 <= j < i ==> type_s(#[trigger] out@[j]) == bound_types(types_s(v@), lt@)[j],
        decreases v@.len() - i,
    {
        assert(types_s(v@)[i as int] == type_s(v@[i as int]));
        out.push(bind_anon_lifetimes_to(&v[i], lt));
        i = i + 1;
    }
    assert(types_s(out@) =~= bound_types(types_s(v@), lt@));
    out
}

fn bind_anon_lifetimes_to_path(p: &Path, lt: &str) -> (r: Path)
    ensures
        r@ == (PathS { segments: bound_segments(p@.segments, lt@), ..p@ }),
    decreases p,
{
    Path {
        qself: clone_qself(&p.qself),
        leading_colon: p.leading_colon,
        segments: bind_anon_lifetimes_to_segments(&p.segments, lt),
    }
}

/// A type with every anonymous lifetime (`'_`), and every lifetime that a reference leaves
/// out, replaced by `lt`. `'_` is not allowed in trait-impl positions.
pub fn bind_anon_lifetimes_to(ty: &Type, lt: &str) -> (r: Type)
    ensures
        r@ == bound(ty@, lt@),
    decreases ty,
{
    match ty {
        Type::Path(p) => Type::Path(bind_anon_lifetimes_to_path(p, lt)),
        Type::Reference { lifetime, mutable, elem } => Type::Reference {
            lifetime: match lifetime { Some(l) => if same(l.as_str(), "_") { Some(lt.to_owned()) } else { Some(l.clone()) }, None => Some(lt.to_owned()) },
            mutable: *mutable,
            elem: Box::new(bind_anon_lifetimes_to(elem, lt)),
        },
        Type::Array { elem, len } => Type::Array {
            elem: Box::new(bind_anon_lifetimes_to(elem, lt)),
            len: Box::new(clone_expr(len)),
        },
        Type::Tuple(elems) => Type::Tuple(bind_anon_lifetimes_to_types(elems, lt)),
        _ => clone_type(ty),
    }
}

// ---------------------------------------------------------------------------
// Named lifetimes
// ---------------------------------------------------------------------------

pub open spec fn replaced_arg(a: ArgS, dead: Seq<Text>, lt: Text) -> ArgS
    decreases a,
{
    match a {
        ArgS::Lifetime(l) => if dead.contains(l) { ArgS::Lifetime(lt) } else { a },
        ArgS::Type(t) => ArgS::Type(replaced(t, dead, lt)),
        _ => a,
    }
}

pub open spec fn replaced_args(v: Seq<ArgS>, dead: Seq<Text>, lt: Text) -> Seq<ArgS>
    decreases v,
{
    Seq::new(
        v.len(),
        |i: int| if 0 <= i < v.len() { replaced_arg(v[i], dead, lt) } else { arbitrary() },
    )
}

pub open spec fn replaced_segment(s: SegmentS, dead: Seq<Text>, lt: Text) -> SegmentS
    decreases s,
{
    match s.arguments {
        ArgumentsS::AngleBracketed { turbofish, args } => SegmentS {
            ident: s.ident,
            arguments: ArgumentsS::AngleBracketed { turbofish, args: replaced_args(args, dead, lt) },
        },
        _ => s,
    }
}

pub open spec fn replaced_segments(v: Seq<SegmentS>, dead: Seq<Text>, lt: Text) -> Seq<SegmentS>
    decreases v,
{
    Seq::new(
        v.len(),
        |i: int| if 0 <= i < v.len() { replaced_segment(v[i], dead, lt) } else { arbitrary() },
    )
}

pub open spec fn replaced_types(v: Seq<TypeS>, dead: Seq<Text>, lt: Text) -> Seq<TypeS>
    decreases v,
{
    Seq::new(
        v.len(),
        |i: int| if 0 <= i < v.len() { replaced(v[i], dead, lt) } else { arbitrary() },
    )
}

/// A type with every lifetime in `dead` replaced. Used to bind return-only lifetimes to a
/// synthesized lifetime so they are well-formed on the impl.
pub open spec fn replaced(t: TypeS, dead: Seq<Text>, lt: Text) -> TypeS
    decreases t,
{
    match t {
        TypeS::Path(p) => TypeS::Path(
            PathS { segments: replaced_segments(p.segments, dead, lt), ..p },
        ),
        TypeS::Reference { lifetime, mutable, elem } => TypeS::Reference {
            lifetime: match lifetime { Some(l) => if dead.contains(l) { Some(lt) } else { Some(l) }, None => None },
            mutable,
            elem: Box::new(replaced(*elem, dead, lt)),
        },
        TypeS::Array { elem, len } => TypeS::Array {
            elem: Box::new(replaced(*elem, dead, lt)),
            len,
        },
        TypeS::Tuple(elems) => TypeS::Tuple(replaced_types(elems, dead, lt)),
        _ => t,
    }
}

fn replace_lifetimes_with_arg(a: &GenericArgument, dead: &Vec<String>, replacement: &str) -> (r: GenericArgument)
    ensures
        r@ == replaced_arg(a@, texts(dead@), replacement@),
    decreases a,
{
    match a {
        GenericArgument::Lifetime(l) => if includes(dead, l.as_str()) { GenericArgument::Lifetime(replacement.to_owned()) } else { clone_arg(a) },
        GenericArgument::Type(t) => GenericArgument::Type(replace_lifetimes_with(t, dead, replacement)),
        _ => clone_arg(a),
    }
}

fn replace_lifetimes_with_segment(s: &PathSegment, dead: &Vec<String>, replacement: &str) -> (r: PathSegment)
    ensures
        r@ == replaced_segment(s@, texts(dead@), replacement@),
    decreases s,
{
    match &s.arguments {
        PathArguments::AngleBracketed { turbofish, args } => PathSegment {
            ident: s.ident.clone(),
            arguments: PathArguments::AngleBracketed {
                turbofish: *turbofish,
                args: replace_lifetimes_with_args(args, dead, replacement),
            },
        },
        _ => clone_segment(s),
    }
}

fn replace_lifetimes_with_args(v: &Vec<GenericArgument>, dead: &Vec<String>, replacement: &str) -> (r: Vec<GenericArgument>)
    ensures
        args_s(r@) == replaced_args(args_s(v@), texts(dead@), replacement@),
    decreases v,
{
    let mut out: Vec<GenericArgument> = Vec::new();
    let mut i: usize = 0;
    assert(replaced_args(args_s(v@), texts(dead@), replacement@).len() == v@.len());
    while i < v.len()
        invariant
            i <= v@.len(),
            out@.len() == i,
            forall|j: int|
                0 <= j < i ==> arg_s(#[trigger] out@[j]) == replaced_args(args_s(v@), texts(dead@), replacement@)[j],
        decreases v@.len() - i,
    {
        assert(args_s(v@)[i as int] == arg_s(v@[i as int]));
        out.push(replace_lifetimes_with_arg(&v[i], dead, replacement));
        i = i + 1;
    }
    assert(args_s(out@) =~= replaced_args(args_s(v@), texts(dead@), replacement@));
    out
}

fn replace_lifetimes_with_segments(v: &Vec<PathSegment>, dead: &Vec<String>, replacement: &str) -> (r: Vec<PathSegment>)
    ensures
        segments_s(r@) == replaced_segments(segments_s(v@), texts(dead@), replacement@),
    decreases v,
{
    let mut out: Vec<PathSegment> = Vec::new();
    let mut i: usize = 0;
    assert(replaced_segments(segments_s(v@), texts(dead@), replacement@).len() == v@.len());
    while i < v.len()
        invariant
            i <= v@.len(),
            out@.len() == i,
            forall|j: int|
                0 <= j < i ==> segment_s(#[trigger] out@[j]) == replaced_segments(segments_s(v@), texts(dead@), replacement@)[j],
        decreases v@.len() - i,
    {
        assert(segments_s(v@)[i as int] == segment_s(v@[i as int]));
        out.push(replace_lifetimes_with_segment(&v[i], dead, replacement));
        i = i + 1;
    }
    assert(segments_s(out@) =~= replaced_segments(segments_s(v@), texts(dead@), replacement@));
    out
}

fn replace_lifetimes_with_types(v: &Vec<Type>, dead: &Vec<String>, replacement: &str) -> (r: Vec<Type>)
    ensures
        types_s(r@) == replaced_types(types_s(v@), texts(dead@), replacement@),
    decreases v,
{
    let mut out: Vec<Type> = Vec::new();
    let mut i: usize = 0;
    assert(replaced_types(types_s(v@), texts(dead@), replacement@).len() == v@.len());
    while i < v.len()
        invariant
            i <= v@.len(),
            out@.len() == i,
            forall|j: int|
                0 <= j < i ==> type_s(#[trigger] out@[j]) == replaced_types(types_s(v@), texts(dead@), replacement@)[j],
        decreases v@.len() - i,
    {
        assert(types_s(v@)[i as int] == type_s(v@[i as int]));
        out.push(replace_lifetimes_with(&v[i], dead, replacement));
        i = i + 1;
    }
    assert(types_s(out@) =~= replaced_types(types_s(v@), texts(dead@), replacement@));
    out
}

fn replace_lifetimes_with_path(p: &Path, dead: &Vec<String>, replacement: &str) -> (r: Path)
    ensures
        r@ == (PathS { segments: replaced_segments(p@.segments, texts(dead@), replacement@), ..p@ }),
    decreases p,
{
    Path {
        qself: clone_qself(&p.qself),
        leading_colon: p.leading_colon,
        segments: replace_lifetimes_with_segments(&p.segments, dead, replacement),
    }
}

/// A type with every lifetime in `dead` replaced. Used to bind return-only lifetimes to a
/// synthesized lifetime so they are well-formed on the impl.
pub fn replace_lifetimes_with(ty: &Type, dead: &Vec<String>, replacement: &str) -> (r: Type)
    ensures
        r@ == replaced(ty@, texts(dead@), replacement@),
    decreases ty,
{
    match ty {
        Type::Path(p) => Type::Path(replace_lifetimes_with_path(p, dead, replacement)),
        Type::Reference { lifetime, mutable, elem } => Type::Reference {
            lifetime: match lifetime { Some(l) => if includes(dead, l.as_str()) { Some(replacement.to_owned()) } else { Some(l.clone()) }, None => None },
            mutable: *mutable,
            elem: Box::new(replace_lifetimes_with(elem, dead, replacement)),
        },
        Type::Array { elem, len } => Type::Array {
            elem: Box::new(replace_lifetimes_with(elem, dead, replacement)),
            len: Box::new(clone_expr(len)),
        },
        Type::Tuple(elems) => Type::Tuple(replace_lifetimes_with_types(elems, dead, replacement)),
        _ => clone_type(ty),
    }
}

// ---------------------------------------------------------------------------
// Use of lifetimes
// ---------------------------------------------------------------------------

pub open spec fn arg_uses_lifetime(a: ArgS) -> bool
    decreases a,
{
    match a {
        ArgS::Lifetime(_) => true,
        ArgS::Type(t) => uses_lifetime(t),
        _ => false,
    }
}

pub open spec fn args_use_lifetime(v: Seq<ArgS>) -> Seq<bool>
    decreases v,
{
    Seq::new(v.len(), |i: int| if 0 <= i < v.len() { arg_uses_lifetime(v[i]) } else { false })
}

pub open spec fn segment_uses_lifetime(s: SegmentS) -> bool
    decreases s,
{
    lifetime_bearing(s.ident) || match s.arguments {
        ArgumentsS::AngleBracketed { turbofish: _, args } => args_use_lifetime(args).contains(true),
        _ => false,
    }
}

pub open spec fn segments_use_lifetime(v: Seq<SegmentS>) -> Seq<bool>
    decreases v,
{
    Seq::new(v.len(), |i: int| if 0 <= i < v.len() { segment_uses_lifetime(v[i]) } else { false })
}

pub open spec fn types_use_lifetime(v: Seq<TypeS>) -> Seq<bool>
    decreases v,
{
    Seq::new(v.len(), |i: int| if 0 <= i < v.len() { uses_lifetime(v[i]) } else { false })
}

/// A type pulls in a lifetime: through a lifetime-bearing variadic base (Shape, Array,
/// Partition, PartitionMut), a reference, or an explicit lifetime argument anywhere inside
/// it.
pub open spec fn uses_lifetime(t: TypeS) -> bool
    decreases t,
{
    match t {
        TypeS::Path(p) => segments_use_lifetime(p.segments).contains(true),
        TypeS::Reference { .. } => true,
        TypeS::Array { elem, len: _ } => uses_lifetime(*elem),
        TypeS::Tuple(elems) => types_use_lifetime(elems).contains(true),
        _ => false,
    }
}

fn some_arg_uses_lifetime(v: &Vec<GenericArgument>) -> (r: bool)
    ensures
        r == args_use_lifetime(args_s(v@)).contains(true),
    decreases v,
{
    let ghost all = args_use_lifetime(args_s(v@));
    let mut i: usize = 0;
    assert(all.len() == v@.len());
    while i < v.len()
        invariant
            i <= v@.len(),
            all == args_use_lifetime(args_s(v@)),
            all.len() == v@.len(),
            forall|j: int| 0 <= j < i ==> !(#[trigger] all[j]),
        decreases v@.len() - i,
    {
        assert(args_s(v@)[i as int] == arg_s(v@[i as int]));
        if does_arg_use_lifetime(&v[i]) {
            assert(all[i as int]);
            return true;
        }
        i = i + 1;
    }
    false
}

fn some_segment_uses_lifetime(v: &Vec<PathSegment>) -> (r: bool)
    ensures
        r == segments_use_lifetime(segments_s(v@)).contains(true),
    decreases v,
{
    let ghost all = segments_use_lifetime(segments_s(v@));
    let mut i: usize = 0;
    assert(all.len() == v@.len());
    while i < v.len()
        invariant
            i <= v@.len(),
            all == segments_use_lifetime(segments_s(v@)),
            all.len() == v@.len(),
            forall|j: int| 0 <= j < i ==> !(#[trigger] all[j]),
        decreases v@.len() - i,
    {
        assert(segments_s(v@)[i as int] == segment_s(v@[i as int]));
        if does_segment_use_lifetime(&v[i]) {
            assert(all[i as int]);
            return true;
        }
        i = i + 1;
    }
    false
}

fn some_type_uses_lifetime(v: &Vec<Type>) -> (r: bool)
    ensures
        r == types_use_lifetime(types_s(v@)).contains(true),
    decreases v,
{
    let ghost all = types_use_lifetime(types_s(v@));
    let mut i: usize = 0;
    assert(all.len() == v@.len());
    while i < v.len()
        invariant
            i <= v@.len(),
            all == types_use_lifetime(types_s(v@)),
            all.len() == v@.len(),
            forall|j: int| 0 <= j < i ==> !(#[trigger] all[j]),
        decreases v@.len() - i,
    {
        assert(types_s(v@)[i as int] == type_s(v@[i as int]));
        if type_uses_lifetime(&v[i]) {
            assert(all[i as int]);
            return true;
        }
        i = i + 1;
    }
    false
}

fn does_arg_use_lifetime(a: &GenericArgument) -> (r: bool)
    ensures
        r == arg_uses_lifetime(a@),
    decreases a,
{
    match a {
        GenericArgument::Lifetime(_) => true,
        GenericArgument::Type(t) => type_uses_lifetime(t),
        _ => false,
    }
}

fn does_segment_use_lifetime(s: &PathSegment) -> (r: bool)
    ensures
        r == segment_uses_lifetime(s@),
    decreases s,
{
    if base_has_lifetime(s.ident.as_str()) {
        return true;
    }
    match &s.arguments {
        PathArguments::AngleBracketed { turbofish: _, args } => some_arg_uses_lifetime(args),
        _ => false,
    }
}

fn path_uses_lifetime(p: &Path) -> (r: bool)
    ensures
        r == segments_use_lifetime(p@.segments).contains(true),
    decreases p,
{
    some_segment_uses_lifetime(&p.segments)
}

/// True if `ty` syntactically pulls in a lifetime. Used by the impl emitter to decide
/// whether the synthesized `'__td_recv` lifetime is load-bearing.
pub fn type_uses_lifetime(ty: &Type) -> (r: bool)
    ensures
        r == uses_lifetime(ty@),
    decreases ty,
{
    match ty {
        Type::Path(p) => path_uses_lifetime(p),
        Type::Reference { .. } => true,
        Type::Array { elem, len: _ } => type_uses_lifetime(elem),
        Type::Tuple(elems) => some_type_uses_lifetime(elems),
        _ => false,
    }
}

/// If a type is a reference, the same reference with the given lifetime.
pub open spec fn with_outer_lifetime(t: TypeS, lt: Text) -> TypeS {
    match t {
        TypeS::Reference { lifetime: _, mutable, elem } => TypeS::Reference {
            lifetime: Some(lt),
            mutable,
            elem,
        },
        _ => t,
    }
}

/// If `ty` is `&X` or `&mut X`, set its lifetime to `lt` (creating an explicit binder where
/// there was an elided one). Otherwise returns `ty` unchanged.
pub fn bind_outer_reference_lifetime(ty: &Type, lt: &str) -> (r: Type)
    ensures
        r@ == with_outer_lifetime(ty@, lt@),
{
    match ty {
        Type::Reference { lifetime: _, mutable, elem } => Type::Reference {
            lifetime: Some(lt.to_owned()),
            mutable: *mutable,
            elem: Box::new(clone_type(elem)),
        },
        _ => clone_type(ty),
    }
}

} // verus!
