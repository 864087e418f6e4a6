//! What holds of rewriting the types of an operation.
use super::lifetimes::{
    arg_uses_lifetime, args_use_lifetime, bound, bound_arg, bound_args, bound_segment,
    bound_segments, bound_types, replaced, replaced_arg, replaced_args, replaced_segment,
    replaced_segments, replaced_types, segment_uses_lifetime, segments_use_lifetime,
    types_use_lifetime, uses_lifetime,
};
use super::ranks::{cga_of_length, suffixed, CgaInfoS, RankComboS};
use super::types::{
    arg_cga, arg_name, cga_named, expansion, first_arg_cga, first_literal, literal_dims, rank_arg,
    rank_args, rank_len, rank_segment, rank_segments, rank_type, rank_types, segment_rank,
};
use crate::ast::{ArgS, ArgumentsS, ExprS, PathS, SegmentS, StmtS, TypeS};
use crate::lists::concat;
use crate::print::path_ident;
use crate::rank_instantiation::types::name_path;
use crate::text::{decimal_text, Text};
use vstd::prelude::*;

verus! {

// ---------------------------------------------------------------------------
// Ranks
// ---------------------------------------------------------------------------

/// The type `r` is `t` with every part of it at its ranks: a reference keeps its lifetime and its
/// mutability, a tuple and a path have a part for each part, and the length of an array that is a
/// length of the operation becomes its rank. Slices and source text stay as they are.
pub open spec fn at_its_ranks(t: TypeS, r: TypeS, c: RankComboS) -> bool {
    match t {
        TypeS::Path(p) => r matches TypeS::Path(q) && q.qself == p.qself && q.leading_colon
            == p.leading_colon && q.segments.len() == p.segments.len() && forall|i: int|
            0 <= i < p.segments.len() ==> #[trigger] q.segments[i] == rank_segment(p.segments[i], c),
        TypeS::Reference { lifetime, mutable, elem } => r matches TypeS::Reference {
            lifetime: l,
            mutable: m,
            elem: e,
        } && l == lifetime && m == mutable && *e == rank_type(*elem, c),
        TypeS::Array { elem, len } => r matches TypeS::Array { elem: e, len: n } && *e == rank_type(
            *elem,
            c,
        ) && *n == match length_rank(*len, c) {
            Some(rank) => ExprS::Lit(decimal_text(rank) + seq!['u', 's', 'i', 'z', 'e']),
            None => *len,
        },
        TypeS::Tuple(elems) => r matches TypeS::Tuple(to) && to.len() == elems.len() && forall|
            i: int,
        |
            0 <= i < elems.len() ==> #[trigger] to[i] == rank_type(elems[i], c),
        TypeS::Slice(_) => r == t,
        TypeS::Verbatim(_) => r == t,
    }
}

/// The rank of the length that `len` names.
pub open spec fn length_rank(len: ExprS, c: RankComboS) -> Option<nat> {
    match len {
        ExprS::Path(p) => if !p.leading_colon && p.segments.len() == 1
            && p.segments[0].arguments is Empty && exists|i: int|
            0 <= i < c.cgas.len() && (#[trigger] c.cgas[i]).length_ident == p.segments[0].ident {
            let i = choose|i: int|
                0 <= i < c.cgas.len() && (#[trigger] c.cgas[i]).length_ident == p.segments[0].ident
                    && forall|j: int|
                    0 <= j < i ==> (#[trigger] c.cgas[j]).length_ident != p.segments[0].ident;
            Some(c.rank_of(c.cgas[i].cga_ident))
        } else {
            None
        },
        _ => None,
    }
}

proof fn lemma_cga_of_length(cgas: Seq<CgaInfoS>, length: Text, i: nat)
    requires
        i <= cgas.len(),
        forall|j: int| 0 <= j < i ==> (#[trigger] cgas[j]).length_ident != length,
    ensures
        match cga_of_length(cgas, length, i) {
            None => forall|j: int| 0 <= j < cgas.len() ==> (#[trigger] cgas[j]).length_ident != length,
            Some(cga) => exists|k: int|
                0 <= k < cgas.len() && (#[trigger] cgas[k]) == cga && cga.length_ident == length
                    && forall|j: int| 0 <= j < k ==> (#[trigger] cgas[j]).length_ident != length,
        },
    decreases cgas.len() - i,
{
    if i < cgas.len() {
        if cgas[i as int].length_ident != length {
            lemma_cga_of_length(cgas, length, i + 1);
        } else {
            assert(cgas[i as int] == cga_of_length(cgas, length, i)->Some_0);
        }
    }
}

proof fn lemma_length_rank(len: ExprS, c: RankComboS)
    ensures
        rank_len(len, c) == match length_rank(len, c) {
            Some(rank) => ExprS::Lit(decimal_text(rank) + seq!['u', 's', 'i', 'z', 'e']),
            None => len,
        },
        len matches ExprS::Path(p) ==> (path_ident(p) matches Some(l) ==> c.rank_of_length(l)
            == length_rank(len, c)),
{
    reveal_strlit("usize");
    assert("usize"@ =~= seq!['u', 's', 'i', 'z', 'e']);
    if let ExprS::Path(p) = len {
        if let Some(l) = path_ident(p) {
            lemma_cga_of_length(c.cgas, l, 0);
            if let Some(cga) = cga_of_length(c.cgas, l, 0) {
                let k = choose|k: int|
                    0 <= k < c.cgas.len() && (#[trigger] c.cgas[k]) == cga && cga.length_ident == l
                        && forall|j: int|
                        0 <= j < k ==> (#[trigger] c.cgas[j]).length_ident != l;
                assert(c.cgas[k].length_ident == l);
                let i = choose|i: int|
                    0 <= i < c.cgas.len() && (#[trigger] c.cgas[i]).length_ident
                        == p.segments[0].ident && forall|j: int|
                        0 <= j < i ==> (#[trigger] c.cgas[j]).length_ident != p.segments[0].ident;
                assert(c.cgas[i].length_ident == l);
                if i < k {
                    assert(c.cgas[i].length_ident != l);
                }
                if k < i {
                    assert(c.cgas[k].length_ident != l);
                }
                assert(i == k);
            }
        }
    }
}

/// A type is put at its ranks in every part of it.
pub proof fn law_type_is_put_at_its_ranks(t: TypeS, c: RankComboS)
    ensures
        at_its_ranks(t, rank_type(t, c), c),
{
    match t {
        TypeS::Path(p) => {
            let q = PathS { segments: rank_segments(p.segments, c), ..p };
            assert(rank_type(t, c) == TypeS::Path(q));
            assert forall|i: int| 0 <= i < p.segments.len() implies #[trigger] q.segments[i]
                == rank_segment(p.segments[i], c) by {}
        },
        TypeS::Array { elem, len } => {
            lemma_length_rank(*len, c);
        },
        TypeS::Tuple(elems) => {
            let to = rank_types(elems, c);
            assert(rank_type(t, c) == TypeS::Tuple(to));
            assert forall|i: int| 0 <= i < elems.len() implies #[trigger] to[i] == rank_type(
                elems[i],
                c,
            ) by {}
        },
        _ => {},
    }
}

// ---------------------------------------------------------------------------
// Generic arguments
// ---------------------------------------------------------------------------

/// The argument is the bare name of an array of the operation.
pub open spec fn is_array_arg(a: ArgS, c: RankComboS) -> bool {
    arg_name(a) matches Some(name) && exists|i: int|
        0 <= i < c.cgas.len() && (#[trigger] c.cgas[i]).cga_ident == name
}

/// What stands for one generic argument. Where an argument of the segment is an array, each array
/// becomes one constant for each of its dimensions; otherwise each literal shape becomes its
/// elements. A type is put at its ranks, and anything else is kept.
pub open spec fn arg_expands(a: ArgS, c: RankComboS, named: bool, part: Seq<ArgS>) -> bool {
    if named && is_array_arg(a, c) {
        let name = arg_name(a)->Some_0;
        part.len() == c.rank_of(name) && forall|i: int|
            0 <= i < part.len() ==> #[trigger] part[i] == ArgS::Const(
                ExprS::Path(name_path(suffixed(name, i as nat))),
            )
    } else if !named && shape_of_arg(a, c) is Some {
        part == shape_of_arg(a, c)->Some_0
    } else {
        match a {
            ArgS::Type(t) => part == seq![ArgS::Type(rank_type(t, c))],
            _ => part == seq![a],
        }
    }
}

/// The elements of a literal shape: those of `{[a, b]}`, and of `{[x; N]}` the element `x` once
/// for each dimension of an array of length `N`.
pub open spec fn shape_of_arg(a: ArgS, c: RankComboS) -> Option<Seq<ArgS>> {
    match a {
        ArgS::Const(ExprS::Block(stmts)) => if stmts.len() == 0 {
            None
        } else {
            match stmts[0] {
                StmtS::Expr { expr: ExprS::Array(elems), semi: _ } => Some(
                    Seq::new(elems.len(), |i: int| ArgS::Const(elems[i])),
                ),
                StmtS::Expr { expr: ExprS::Repeat { elem, len }, semi: _ } => match length_rank(
                    *len,
                    c,
                ) {
                    Some(rank) => Some(Seq::new(rank, |i: int| ArgS::Const(*elem))),
                    None => None,
                },
                _ => None,
            }
        },
        _ => None,
    }
}

proof fn lemma_cga_named(cgas: Seq<CgaInfoS>, name: Text, i: nat)
    requires
        i <= cgas.len(),
        forall|j: int| 0 <= j < i ==> (#[trigger] cgas[j]).cga_ident != name,
    ensures
        match cga_named(cgas, name, i) {
            None => forall|j: int| 0 <= j < cgas.len() ==> (#[trigger] cgas[j]).cga_ident != name,
            Some(k) => k < cgas.len() && cgas[k as int].cga_ident == name,
        },
    decreases cgas.len() - i,
{
    if i < cgas.len() && cgas[i as int].cga_ident != name {
        lemma_cga_named(cgas, name, i + 1);
    }
}

pub proof fn lemma_arg_cga(a: ArgS, c: RankComboS)
    ensures
        arg_cga(a, c.cgas) is Some <==> is_array_arg(a, c),
        arg_cga(a, c.cgas) matches Some(i) ==> i < c.cgas.len() && arg_name(a) == Some(
            c.cgas[i as int].cga_ident,
        ),
{
    if let Some(name) = arg_name(a) {
        lemma_cga_named(c.cgas, name, 0);
        if let Some(i) = arg_cga(a, c.cgas) {
            assert(c.cgas[i as int].cga_ident == name);
        }
    }
}

proof fn lemma_shape_of_arg(a: ArgS, c: RankComboS)
    ensures
        literal_dims(a, c) is Some <==> shape_of_arg(a, c) is Some,
        literal_dims(a, c) matches Some(dims) ==> shape_of_arg(a, c)->Some_0.len() == dims.len()
            && forall|i: int|
            0 <= i < dims.len() ==> #[trigger] shape_of_arg(a, c)->Some_0[i] == ArgS::Const(dims[i]),
{
    if let ArgS::Const(ExprS::Block(stmts)) = a {
        if stmts.len() > 0 {
            if let StmtS::Expr { expr: ExprS::Repeat { elem, len }, semi } = stmts[0] {
                lemma_length_rank(*len, c);
            }
        }
    }
}

proof fn lemma_arg_expands(a: ArgS, c: RankComboS, args: Seq<ArgS>, named: bool)
    requires
        args.contains(a),
        expansion(args, c) is Named <==> named,
    ensures
        arg_expands(a, c, named, rank_arg(a, c, expansion(args, c))),
{
    lemma_arg_cga(a, c);
    lemma_shape_of_arg(a, c);
    let k = choose|k: int| 0 <= k < args.len() && args[k] == a;
    if !named && literal_dims(a, c) is Some {
        lemma_first_literal(args, c, 0);
        assert(literal_dims(args[k], c) is Some);
        assert(expansion(args, c) is Literal);
        assert(rank_arg(a, c, expansion(args, c)) =~= shape_of_arg(a, c)->Some_0);
    }
}

proof fn lemma_first_literal(args: Seq<ArgS>, c: RankComboS, i: nat)
    requires
        i <= args.len(),
        forall|j: int| 0 <= j < i ==> literal_dims(#[trigger] args[j], c) is None,
    ensures
        match first_literal(args, c, i) {
            None => forall|j: int|
                0 <= j < args.len() ==> literal_dims(#[trigger] args[j], c) is None,
            Some(n) => exists|k: int|
                0 <= k < args.len() && literal_dims(#[trigger] args[k], c) is Some && literal_dims(
                    args[k],
                    c,
                )->Some_0.len() == n && forall|j: int|
                    0 <= j < k ==> literal_dims(#[trigger] args[j], c) is None,
        },
    decreases args.len() - i,
{
    if i < args.len() {
        if literal_dims(args[i as int], c) is None {
            lemma_first_literal(args, c, i + 1);
        } else {
            assert(literal_dims(args[i as int], c) is Some);
        }
    }
}

proof fn lemma_first_arg_cga(args: Seq<ArgS>, c: RankComboS, i: nat)
    requires
        i <= args.len(),
        forall|j: int| 0 <= j < i ==> arg_cga(#[trigger] args[j], c.cgas) is None,
    ensures
        match first_arg_cga(args, c.cgas, i) {
            None => forall|j: int|
                0 <= j < args.len() ==> arg_cga(#[trigger] args[j], c.cgas) is None,
            Some(n) => exists|k: int|
                0 <= k < args.len() && arg_cga(#[trigger] args[k], c.cgas) == Some(n) && forall|
                    j: int,
                |
                    0 <= j < k ==> arg_cga(#[trigger] args[j], c.cgas) is None,
        },
    decreases args.len() - i,
{
    if i < args.len() {
        if arg_cga(args[i as int], c.cgas) is None {
            lemma_first_arg_cga(args, c, i + 1);
        } else {
            assert(arg_cga(args[i as int], c.cgas) is Some);
        }
    }
}

/// `rank` is the rank of the first argument that is an array, or of the first literal shape where
/// none is.
pub open spec fn rank_is_of_first(args: Seq<ArgS>, c: RankComboS, rank: Option<nat>) -> bool {
    if exists|k: int| 0 <= k < args.len() && is_array_arg(#[trigger] args[k], c) {
        exists|k: int|
            0 <= k < args.len() && is_array_arg(#[trigger] args[k], c) && rank == Some(
                c.rank_of(arg_name(args[k])->Some_0),
            ) && forall|j: int| 0 <= j < k ==> !is_array_arg(#[trigger] args[j], c)
    } else if exists|k: int| 0 <= k < args.len() && shape_of_arg(#[trigger] args[k], c) is Some {
        exists|k: int|
            0 <= k < args.len() && shape_of_arg(#[trigger] args[k], c) is Some && rank == Some(
                shape_of_arg(args[k], c)->Some_0.len(),
            ) && forall|j: int| 0 <= j < k ==> shape_of_arg(#[trigger] args[j], c) is None
    } else {
        rank is None
    }
}

proof fn lemma_rank_is_of_first(args: Seq<ArgS>, c: RankComboS)
    ensures
        rank_is_of_first(args, c, segment_rank(args, c)),
        expansion(args, c) is Named <==> exists|k: int|
            0 <= k < args.len() && is_array_arg(#[trigger] args[k], c),
{
    assert forall|k: int| 0 <= k < args.len() implies (arg_cga(#[trigger] args[k], c.cgas) is Some
        <==> is_array_arg(args[k], c)) by {
        lemma_arg_cga(args[k], c);
    }
    assert forall|k: int| 0 <= k < args.len() implies (literal_dims(#[trigger] args[k], c) is Some
        <==> shape_of_arg(args[k], c) is Some) by {
        lemma_shape_of_arg(args[k], c);
    }
    lemma_first_arg_cga(args, c, 0);
    lemma_first_literal(args, c, 0);
    if let Some(n) = first_arg_cga(args, c.cgas, 0) {
        let k = choose|k: int|
            0 <= k < args.len() && arg_cga(#[trigger] args[k], c.cgas) == Some(n) && forall|j: int|
                0 <= j < k ==> arg_cga(#[trigger] args[j], c.cgas) is None;
        lemma_arg_cga(args[k], c);
        assert(is_array_arg(args[k], c));
    } else {
        if let Some(n) = first_literal(args, c, 0) {
            let k = choose|k: int|
                0 <= k < args.len() && literal_dims(#[trigger] args[k], c) is Some && literal_dims(
                    args[k],
                    c,
                )->Some_0.len() == n && forall|j: int|
                    0 <= j < k ==> literal_dims(#[trigger] args[j], c) is None;
            lemma_shape_of_arg(args[k], c);
            assert(shape_of_arg(args[k], c) is Some);
        }
    }
}

/// The arguments of a segment of which `parts` stand for the given ones. One that has a rank has no
/// brackets if nothing is left, and one that carries a lifetime has an anonymous one in front,
/// unless it names one.
pub open spec fn arguments_at(
    ident: Text,
    turbofish: bool,
    args: Seq<ArgS>,
    parts: Seq<Seq<ArgS>>,
    ranked: bool,
) -> ArgumentsS {
    let carries = ident == "Shape"@ || ident == "Array"@ || ident == "Partition"@ || ident
        == "PartitionMut"@;
    let anonymous = forall|k: int| 0 <= k < args.len() ==> !((#[trigger] args[k]) is Lifetime);
    let all = if ranked && carries && anonymous {
        seq![ArgS::Lifetime("_"@)] + concat(parts)
    } else {
        concat(parts)
    };
    if ranked && all.len() == 0 {
        ArgumentsS::Empty
    } else {
        ArgumentsS::AngleBracketed { turbofish, args: all }
    }
}

/// A segment with generic arguments has, in their order, what stands for each of them. If one is
/// an array, or else a literal shape, the segment is named after the rank of the first, and a type
/// that carries a lifetime gets an anonymous one in front unless it names one.
pub proof fn law_segment_is_put_at_its_ranks(s: SegmentS, turbofish: bool, args: Seq<ArgS>, c: RankComboS)
    requires
        s.arguments == (ArgumentsS::AngleBracketed { turbofish, args }),
    ensures
        exists|parts: Seq<Seq<ArgS>>, rank: Option<nat>|
            {
                let named = exists|k: int| 0 <= k < args.len() && is_array_arg(#[trigger] args[k], c);
                let r = rank_segment(s, c);
                &&& parts.len() == args.len()
                &&& forall|i: int|
                    0 <= i < args.len() ==> arg_expands(args[i], c, named, #[trigger] parts[i])
                &&& #[trigger] rank_is_of_first(args, c, rank)
                &&& r.ident == match rank {
                    Some(n) => suffixed(s.ident, n),
                    None => s.ident,
                }
                &&& r.arguments == #[trigger] arguments_at(
                    s.ident,
                    turbofish,
                    args,
                    parts,
                    rank is Some,
                )
            },
{
    let parts = rank_args(args, c, expansion(args, c));
    let rank = segment_rank(args, c);
    lemma_rank_is_of_first(args, c);
    let named = exists|k: int| 0 <= k < args.len() && is_array_arg(#[trigger] args[k], c);
    assert forall|i: int| 0 <= i < args.len() implies arg_expands(
        args[i],
        c,
        named,
        #[trigger] parts[i],
    ) by {
        assert(args.contains(args[i]));
        lemma_arg_expands(args[i], c, args, named);
        assert(parts[i] == rank_arg(args[i], c, expansion(args, c)));
    }
    assert(rank_is_of_first(args, c, rank));
    assert(rank_segment(s, c).arguments == arguments_at(
        s.ident,
        turbofish,
        args,
        parts,
        rank is Some,
    ));
}

/// A segment without generic arguments stays as it is.
pub proof fn law_plain_segment_is_kept(s: SegmentS, c: RankComboS)
    requires
        !(s.arguments is AngleBracketed),
    ensures
        rank_segment(s, c) == s,
{
}

// ---------------------------------------------------------------------------
// Lifetimes
// ---------------------------------------------------------------------------

/// The generic argument `r` is `a` with its anonymous lifetimes bound.
pub open spec fn arg_is_bound(a: ArgS, r: ArgS, lt: Text) -> bool {
    match a {
        ArgS::Lifetime(l) => r == ArgS::Lifetime(if l == "_"@ { lt } else { l }),
        ArgS::Type(t) => r == ArgS::Type(bound(t, lt)),
        _ => r == a,
    }
}

/// The type `r` is `t` with the anonymous lifetimes of every part bound to `lt`: a reference has
/// its own lifetime, or `lt` if it has none or an anonymous one, and keeps its mutability.
pub open spec fn is_bound(t: TypeS, r: TypeS, lt: Text) -> bool {
    match t {
        TypeS::Path(p) => r matches TypeS::Path(q) && q.qself == p.qself && q.leading_colon
            == p.leading_colon && q.segments.len() == p.segments.len() && forall|i: int|
            0 <= i < p.segments.len() ==> (#[trigger] q.segments[i]).ident == p.segments[i].ident
                && match p.segments[i].arguments {
                ArgumentsS::AngleBracketed { turbofish, args } => match q.segments[i].arguments {
                    ArgumentsS::AngleBracketed { turbofish: u, args: to } => u == turbofish
                        && to.len() == args.len() && forall|k: int|
                        0 <= k < args.len() ==> arg_is_bound(args[k], #[trigger] to[k], lt),
                    _ => false,
                },
                _ => q.segments[i].arguments == p.segments[i].arguments,
            },
        TypeS::Reference { lifetime, mutable, elem } => r matches TypeS::Reference {
            lifetime: l,
            mutable: m,
            elem: e,
        } && m == mutable && *e == bound(*elem, lt) && l == match lifetime {
            Some(x) => if x == "_"@ { Some(lt) } else { Some(x) },
            None => Some(lt),
        },
        TypeS::Array { elem, len } => r matches TypeS::Array { elem: e, len: n } && n == len && *e
            == bound(*elem, lt),
        TypeS::Tuple(elems) => r matches TypeS::Tuple(to) && to.len() == elems.len() && forall|
            i: int,
        |
            0 <= i < elems.len() ==> #[trigger] to[i] == bound(elems[i], lt),
        TypeS::Slice(_) => r == t,
        TypeS::Verbatim(_) => r == t,
    }
}

/// Binding anonymous lifetimes binds them in every part of a type, and touches nothing else.
pub proof fn law_anonymous_lifetimes_are_bound(t: TypeS, lt: Text)
    ensures
        is_bound(t, bound(t, lt), lt),
{
    match t {
        TypeS::Path(p) => {
            let q = PathS { segments: bound_segments(p.segments, lt), ..p };
            assert(bound(t, lt) == TypeS::Path(q));
            assert forall|i: int| 0 <= i < p.segments.len() implies (
            #[trigger] q.segments[i]).ident == p.segments[i].ident
                && match p.segments[i].arguments {
                ArgumentsS::AngleBracketed { turbofish, args } => match q.segments[i].arguments {
                    ArgumentsS::AngleBracketed { turbofish: u, args: to } => u == turbofish
                        && to.len() == args.len() && forall|k: int|
                        0 <= k < args.len() ==> arg_is_bound(args[k], #[trigger] to[k], lt),
                    _ => false,
                },
                _ => q.segments[i].arguments == p.segments[i].arguments,
            } by {
                assert(q.segments[i] == bound_segment(p.segments[i], lt));
                if let ArgumentsS::AngleBracketed { turbofish, args } = p.segments[i].arguments {
                    let to = bound_args(args, lt);
                    assert(q.segments[i].arguments == (ArgumentsS::AngleBracketed {
                        turbofish,
                        args: to,
                    }));
                    assert forall|k: int| 0 <= k < args.len() implies arg_is_bound(
                        args[k],
                        #[trigger] to[k],
                        lt,
                    ) by {
                        assert(to[k] == bound_arg(args[k], lt));
                    }
                }
            }
        },
        TypeS::Tuple(elems) => {
            let to = bound_types(elems, lt);
            assert(bound(t, lt) == TypeS::Tuple(to));
            assert forall|i: int| 0 <= i < elems.len() implies #[trigger] to[i] == bound(
                elems[i],
                lt,
            ) by {}
        },
        _ => {},
    }
}

/// The generic argument `r` is `a` with the lifetimes `dead` replaced.
pub open spec fn arg_is_replaced(a: ArgS, r: ArgS, dead: Seq<Text>, lt: Text) -> bool {
    match a {
        ArgS::Lifetime(l) => r == ArgS::Lifetime(if dead.contains(l) { lt } else { l }),
        ArgS::Type(t) => r == ArgS::Type(replaced(t, dead, lt)),
        _ => r == a,
    }
}

/// The type `r` is `t` with the lifetimes `dead` replaced by `lt` in every part; every other
/// lifetime, and a reference without one, stays.
pub open spec fn is_replaced(t: TypeS, r: TypeS, dead: Seq<Text>, lt: Text) -> bool {
    match t {
        TypeS::Path(p) => r matches TypeS::Path(q) && q.qself == p.qself && q.leading_colon
            == p.leading_colon && q.segments.len() == p.segments.len() && forall|i: int|
            0 <= i < p.segments.len() ==> (#[trigger] q.segments[i]).ident == p.segments[i].ident
                && match p.segments[i].arguments {
                ArgumentsS::AngleBracketed { turbofish, args } => match q.segments[i].arguments {
                    ArgumentsS::AngleBracketed { turbofish: u, args: to } => u == turbofish
                        && to.len() == args.len() && forall|k: int|
                        0 <= k < args.len() ==> arg_is_replaced(args[k], #[trigger] to[k], dead, lt),
                    _ => false,
                },
                _ => q.segments[i].arguments == p.segments[i].arguments,
            },
        TypeS::Reference { lifetime, mutable, elem } => r matches TypeS::Reference {
            lifetime: l,
            mutable: m,
            elem: e,
        } && m == mutable && *e == replaced(*elem, dead, lt) && l == match lifetime {
            Some(x) => if dead.contains(x) { Some(lt) } else { Some(x) },
            None => None,
        },
        TypeS::Array { elem, len } => r matches TypeS::Array { elem: e, len: n } && n == len && *e
            == replaced(*elem, dead, lt),
        TypeS::Tuple(elems) => r matches TypeS::Tuple(to) && to.len() == elems.len() && forall|
            i: int,
        |
            0 <= i < elems.len() ==> #[trigger] to[i] == replaced(elems[i], dead, lt),
        TypeS::Slice(_) => r == t,
        TypeS::Verbatim(_) => r == t,
    }
}

/// Replacing lifetimes replaces exactly those, in every part of a type.
pub proof fn law_only_dead_lifetimes_are_replaced(t: TypeS, dead: Seq<Text>, lt: Text)
    ensures
        is_replaced(t, replaced(t, dead, lt), dead, lt),
{
    match t {
        TypeS::Path(p) => {
            let q = PathS { segments: replaced_segments(p.segments, dead, lt), ..p };
            assert(replaced(t, dead, lt) == TypeS::Path(q));
            assert forall|i: int| 0 <= i < p.segments.len() implies (
            #[trigger] q.segments[i]).ident == p.segments[i].ident
                && match p.segments[i].arguments {
                ArgumentsS::AngleBracketed { turbofish, args } => match q.segments[i].arguments {
                    ArgumentsS::AngleBracketed { turbofish: u, args: to } => u == turbofish
                        && to.len() == args.len() && forall|k: int|
                        0 <= k < args.len() ==> arg_is_replaced(args[k], #[trigger] to[k], dead, lt),
                    _ => false,
                },
                _ => q.segments[i].arguments == p.segments[i].arguments,
            } by {
                assert(q.segments[i] == replaced_segment(p.segments[i], dead, lt));
                if let ArgumentsS::AngleBracketed { turbofish, args } = p.segments[i].arguments {
                    let to = replaced_args(args, dead, lt);
                    assert(q.segments[i].arguments == (ArgumentsS::AngleBracketed {
                        turbofish,
                        args: to,
                    }));
                    assert forall|k: int| 0 <= k < args.len() implies arg_is_replaced(
                        args[k],
                        #[trigger] to[k],
                        dead,
                        lt,
                    ) by {
                        assert(to[k] == replaced_arg(args[k], dead, lt));
                    }
                }
            }
        },
        TypeS::Tuple(elems) => {
            let to = replaced_types(elems, dead, lt);
            assert(replaced(t, dead, lt) == TypeS::Tuple(to));
            assert forall|i: int| 0 <= i < elems.len() implies #[trigger] to[i] == replaced(
                elems[i],
                dead,
                lt,
            ) by {}
        },
        _ => {},
    }
}

/// A type has a place for a lifetime exactly if a part of it has: a reference, a type that carries
/// one, or a generic argument that is one.
pub proof fn law_lifetime_is_found(t: TypeS)
    ensures
        uses_lifetime(t) <==> match t {
            TypeS::Reference { .. } => true,
            TypeS::Path(p) => exists|i: int|
                0 <= i < p.segments.len() && segment_has_lifetime(#[trigger] p.segments[i]),
            TypeS::Array { elem, len: _ } => uses_lifetime(*elem),
            TypeS::Tuple(elems) => exists|i: int|
                0 <= i < elems.len() && uses_lifetime(#[trigger] elems[i]),
            _ => false,
        },
{
    match t {
        TypeS::Path(p) => {
            let flags = segments_use_lifetime(p.segments);
            assert forall|i: int| 0 <= i < p.segments.len() implies #[trigger] flags[i]
                == segment_has_lifetime(p.segments[i]) by {
                lemma_segment_has_lifetime(p.segments[i]);
                assert(flags[i] == segment_uses_lifetime(p.segments[i]));
            }
            if flags.contains(true) {
                let i = choose|i: int| 0 <= i < flags.len() && flags[i] == true;
                assert(segment_has_lifetime(p.segments[i]));
            }
            if exists|i: int|
                0 <= i < p.segments.len() && segment_has_lifetime(#[trigger] p.segments[i]) {
                let i = choose|i: int|
                    0 <= i < p.segments.len() && segment_has_lifetime(#[trigger] p.segments[i]);
                assert(flags[i] == true);
            }
        },
        TypeS::Tuple(elems) => {
            let flags = types_use_lifetime(elems);
            if flags.contains(true) {
                let i = choose|i: int| 0 <= i < flags.len() && flags[i] == true;
                assert(uses_lifetime(elems[i]));
            }
            if exists|i: int| 0 <= i < elems.len() && uses_lifetime(#[trigger] elems[i]) {
                let i = choose|i: int| 0 <= i < elems.len() && uses_lifetime(#[trigger] elems[i]);
                assert(flags[i] == true);
            }
        },
        _ => {},
    }
}

/// A segment that carries a lifetime by its name, or has an argument with one.
pub open spec fn segment_has_lifetime(s: SegmentS) -> bool {
    ||| s.ident == "Shape"@ || s.ident == "Array"@ || s.ident == "Partition"@ || s.ident
        == "PartitionMut"@
    ||| s.arguments is AngleBracketed && exists|k: int|
        0 <= k < s.arguments->args.len() && match #[trigger] s.arguments->args[k] {
            ArgS::Lifetime(_) => true,
            ArgS::Type(t) => uses_lifetime(t),
            _ => false,
        }
}

proof fn lemma_segment_has_lifetime(s: SegmentS)
    ensures
        segment_uses_lifetime(s) == segment_has_lifetime(s),
{
    if let ArgumentsS::AngleBracketed { turbofish, args } = s.arguments {
        let flags = args_use_lifetime(args);
        assert forall|k: int| 0 <= k < args.len() implies #[trigger] flags[k] == match args[k] {
            ArgS::Lifetime(_) => true,
            ArgS::Type(t) => uses_lifetime(t),
            _ => false,
        } by {
            assert(flags[k] == arg_uses_lifetime(args[k]));
        }
        if flags.contains(true) {
            let k = choose|k: int| 0 <= k < flags.len() && flags[k] == true;
            assert(match args[k] {
                ArgS::Lifetime(_) => true,
                ArgS::Type(t) => uses_lifetime(t),
                _ => false,
            });
        }
        if exists|k: int|
            0 <= k < args.len() && match #[trigger] args[k] {
                ArgS::Lifetime(_) => true,
                ArgS::Type(t) => uses_lifetime(t),
                _ => false,
            } {
            let k = choose|k: int|
                0 <= k < args.len() && match #[trigger] args[k] {
                    ArgS::Lifetime(_) => true,
                    ArgS::Type(t) => uses_lifetime(t),
                    _ => false,
                };
            assert(flags[k] == true);
        }
    }
}

} // verus!
