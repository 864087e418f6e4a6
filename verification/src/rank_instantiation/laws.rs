//! What holds of rewriting as a whole.
use super::bindings::{
    concrete_name_text, dim_text, dim_texts, rank_suffix_text, ranked_text, var_cgas, MetaS,
    RankBindingsS, VarCgaS,
};
use super::bodies::{
    call_of, const_new_path, expand_shape, index_dim, literals, shape_type, tokens_args, visit_expr,
};
use super::instantiator::{rewrite_fn, rewrite_impl_block, rewrite_impl_item, rewritten_impl_items};
use super::length_laws::{law_combination_binds, law_number_of_combinations, lemma_length_space};
use super::lengths::{
    entry, item_at, lemma_product_positive, length_space, length_vars, lengths_fit, second,
};
use super::signatures::{
    dim_params, expand_params, expanded_params, name_arg, rewrite_generics, rewritten_fn_args,
    scalar_param,
};
use super::types::{
    arg_pieces, args_pieces, at_rank, expand_args, generic_args_text, kept, name_path, pieces_args,
    pieces_rank, rewrite_path, rewrite_segment, rewrite_type, rewritten_segments, type_args_results,
    types_results, verbatim_args, with_last_arguments, written_path_text, PiecesS,
};
use super::variadic::{
    constructor_impl, constructor_name, has_dims_field, impl_cgas, impl_variant, impl_variants,
    plain_constructors, struct_cgas, struct_constructors, struct_variant, struct_variants,
};
use crate::ast::{ArgS, ArgumentsS, ExprS, MacroTokenS, PathS, SegmentS, StmtS, TypeS};
use crate::error::ErrorS;
use crate::grammar::{
    lemma_simple, lemma_simple_elems, lemma_simple_generic, name_word, number_word, numbered_word,
    plain_word, simple_arg, simple_args, simple_elems, word_char,
};
use crate::items::{FnArgS, GenericParamS, GenericsS, ImplItemS, ItemFnS, ItemImplS, ItemStructS};
use crate::lists::{collect, concat, lemma_collect, lemma_concat_step};
use crate::print::{
    angle_text, arg_text, args_texts, expr_text, exprs_texts, path_text, segment_text,
    segments_texts, type_text, types_texts,
};
use crate::text::{decimal_text, digit, join_text, Text};
use vstd::prelude::*;

verus! {

// ---------------------------------------------------------------------------
// Numbers and names
// ---------------------------------------------------------------------------

/// Two numbers with the same digits are the same.
pub proof fn law_decimal_is_injective(a: nat, b: nat)
    requires
        decimal_text(a) == decimal_text(b),
    ensures
        a == b,
    decreases a,
{
    lemma_decimal_last(a);
    lemma_decimal_last(b);
    let t = decimal_text(a);
    if a < 10 && b < 10 {
    } else if a >= 10 && b >= 10 {
        assert(t.drop_last() =~= decimal_text(a / 10));
        assert(t.drop_last() =~= decimal_text(b / 10));
        law_decimal_is_injective(a / 10, b / 10);
    } else if a < 10 {
        assert(decimal_text(b / 10).len() > 0) by {
            super::types::lemma_decimal_is_number(b / 10);
        }
    } else {
        assert(decimal_text(a / 10).len() > 0) by {
            super::types::lemma_decimal_is_number(a / 10);
        }
    }
}

proof fn lemma_decimal_last(n: nat)
    ensures
        decimal_text(n).len() > 0,
        decimal_text(n).last() == digit(n % 10),
        '0' <= decimal_text(n).last() <= '9',
{
    super::types::lemma_decimal_is_number(n);
}

/// No digit of a number is `_`.
proof fn lemma_decimal_has_no_underscore(n: nat)
    ensures
        forall|i: int| 0 <= i < decimal_text(n).len() ==> #[trigger] decimal_text(n)[i] != '_',
{
    super::types::lemma_decimal_is_number(n);
}

/// What stands behind the last `_` decides both parts.
proof fn lemma_split_at_underscore(x: Text, p: Text, y: Text, q: Text)
    requires
        x + "_"@ + p == y + "_"@ + q,
        forall|i: int| 0 <= i < p.len() ==> #[trigger] p[i] != '_',
        forall|i: int| 0 <= i < q.len() ==> #[trigger] q[i] != '_',
    ensures
        x == y,
        p == q,
{
    reveal_strlit("_");
    let a = x + "_"@ + p;
    let b = y + "_"@ + q;
    assert(a.len() == x.len() + 1 + p.len());
    assert(b.len() == y.len() + 1 + q.len());
    assert(a[x.len() as int] == '_');
    assert(b[y.len() as int] == '_');
    if x.len() < y.len() {
        assert(a[y.len() as int] == p[y.len() - x.len() - 1]);
        assert(false);
    }
    if y.len() < x.len() {
        assert(b[x.len() as int] == q[x.len() - y.len() - 1]);
        assert(false);
    }
    assert(x =~= a.take(x.len() as int));
    assert(y =~= b.take(y.len() as int));
    assert(p =~= a.skip((x.len() + 1) as int));
    assert(q =~= b.skip((y.len() + 1) as int));
}

proof fn lemma_suffix_parts(a: Seq<u32>)
    requires
        a.len() > 0,
    ensures
        a.len() == 1 ==> rank_suffix_text(a) == decimal_text(a[0] as nat),
        a.len() > 1 ==> rank_suffix_text(a) == rank_suffix_text(a.drop_last()) + "_"@
            + decimal_text(a.last() as nat),
{
    let parts = Seq::new(a.len(), |i: int| decimal_text(a[i] as nat));
    let x = a.drop_last();
    assert(parts.drop_last() =~= Seq::new(x.len(), |i: int| decimal_text(x[i] as nat)));
}

/// Two lists of ranks have different suffixes unless they are the same.
pub proof fn law_rank_suffix_is_injective(a: Seq<u32>, b: Seq<u32>)
    requires
        rank_suffix_text(a) == rank_suffix_text(b),
    ensures
        a == b,
    decreases a.len() + b.len(),
{
    reveal_strlit("_");
    if a.len() > 0 {
        lemma_suffix_parts(a);
        super::types::lemma_decimal_is_number(a.last() as nat);
        lemma_decimal_has_no_underscore(a.last() as nat);
    }
    if b.len() > 0 {
        lemma_suffix_parts(b);
        super::types::lemma_decimal_is_number(b.last() as nat);
        lemma_decimal_has_no_underscore(b.last() as nat);
    }
    if a.len() == 0 || b.len() == 0 {
        assert(a =~= b);
    } else if a.len() == 1 && b.len() == 1 {
        law_decimal_is_injective(a[0] as nat, b[0] as nat);
        assert(a =~= b);
    } else if a.len() == 1 {
        let x = rank_suffix_text(b.drop_last());
        assert(rank_suffix_text(b)[x.len() as int] == '_');
        assert(false);
    } else if b.len() == 1 {
        let x = rank_suffix_text(a.drop_last());
        assert(rank_suffix_text(a)[x.len() as int] == '_');
        assert(false);
    } else {
        let x = a.drop_last();
        let y = b.drop_last();
        lemma_split_at_underscore(
            rank_suffix_text(x),
            decimal_text(a.last() as nat),
            rank_suffix_text(y),
            decimal_text(b.last() as nat),
        );
        law_rank_suffix_is_injective(x, y);
        law_decimal_is_injective(a.last() as nat, b.last() as nat);
        assert(a =~= x.push(a.last()));
        assert(b =~= y.push(b.last()));
    }
}

/// Rank instances of one type never share a name: different ranks, different names.
pub proof fn law_concrete_names_are_distinct(name: Text, a: Seq<u32>, b: Seq<u32>)
    requires
        a != b,
    ensures
        concrete_name_text(name, a) != concrete_name_text(name, b),
{
    if concrete_name_text(name, a) == concrete_name_text(name, b) {
        let head = name + "_"@;
        assert(rank_suffix_text(a) =~= concrete_name_text(name, a).skip(head.len() as int));
        assert(rank_suffix_text(b) =~= concrete_name_text(name, b).skip(head.len() as int));
        law_rank_suffix_is_injective(a, b);
    }
}

/// The dimensions of an array have different names.
pub proof fn law_dims_are_distinct(array: Text, i: nat, j: nat)
    requires
        i != j,
    ensures
        dim_text(array, i) != dim_text(array, j),
{
    if dim_text(array, i) == dim_text(array, j) {
        lemma_decimal_has_no_underscore(i);
        lemma_decimal_has_no_underscore(j);
        lemma_split_at_underscore(array, decimal_text(i), array, decimal_text(j));
        law_decimal_is_injective(i, j);
    }
}

/// A dimension of an array whose name is a word is a numbered word.
pub proof fn lemma_dim_is_numbered(array: Text, i: nat)
    requires
        name_word(array),
    ensures
        numbered_word(dim_text(array, i)),
{
    reveal_strlit("_");
    lemma_decimal_last(i);
    super::types::lemma_decimal_is_number(i);
    let d = decimal_text(i);
    let t = dim_text(array, i);
    assert(t.last() == d.last());
    assert forall|k: int| 0 <= k < t.len() implies word_char(#[trigger] t[k]) by {
        if k < array.len() {
            assert(t[k] == array[k]);
        } else if k > array.len() {
            assert(t[k] == d[k - array.len() - 1]);
            assert('0' <= d[k - array.len() - 1] <= '9');
        }
    }
}

// ---------------------------------------------------------------------------
// Generic parameters
// ---------------------------------------------------------------------------

/// A parameter can be expanded: it declares no array, or an `i32` array in scope whose name is
/// a word.
pub open spec fn expandable(p: GenericParamS, b: RankBindingsS) -> bool {
    p matches GenericParamS::Const { ident, ty: TypeS::Array { .. }, .. } ==> {
        &&& b.inst_array.contains_key(ident)
        &&& b.inst_array[ident].element_type == "i32"@
        &&& name_word(b.inst_array[ident].name)
    }
}

/// What a parameter is expanded to: an array to one scalar for each dimension, in order, any
/// other parameter to itself.
pub open spec fn expansion_of(p: GenericParamS, b: RankBindingsS) -> Seq<GenericParamS> {
    match p {
        GenericParamS::Const { ident, ty: TypeS::Array { .. }, .. } => {
            let cga = b.inst_array[ident];
            Seq::new(cga.length, |i: int| scalar_param(dim_text(cga.name, i as nat)))
        },
        _ => seq![p],
    }
}

proof fn lemma_collect_all_ok<T, E>(v: Seq<Result<T, E>>, w: Seq<T>)
    requires
        v.len() == w.len(),
        forall|i: int| 0 <= i < v.len() ==> #[trigger] v[i] == Ok::<T, E>(w[i]),
    ensures
        collect(v) == Ok::<Seq<T>, E>(w),
{
    lemma_collect(v);
    match collect(v) {
        Ok(r) => {
            assert forall|i: int| 0 <= i < w.len() implies r[i] == w[i] by {
                assert(v[i] == Ok::<T, E>(w[i]));
            }
            assert(r =~= w);
        },
        Err(e) => {},
    }
}

/// Every array parameter is replaced by individual scalar parameters `X_0, X_1, …`, and every
/// other parameter stays, in the order of the declaration.
pub proof fn law_generics_expand(params: Seq<GenericParamS>, b: RankBindingsS)
    requires
        forall|i: int| 0 <= i < params.len() ==> expandable(#[trigger] params[i], b),
    ensures
        expand_params(params, b) == Ok::<Seq<GenericParamS>, ErrorS>(
            concat(Seq::new(params.len(), |i: int| expansion_of(params[i], b))),
        ),
{
    let want = Seq::new(params.len(), |i: int| expansion_of(params[i], b));
    let results = expanded_params(params, b);
    assert forall|i: int| 0 <= i < results.len() implies #[trigger] results[i] == Ok::<
        Seq<GenericParamS>,
        ErrorS,
    >(want[i]) by {
        let p = params[i];
        assert(expandable(p, b));
        match p {
            GenericParamS::Const { ident, ty: TypeS::Array { .. }, .. } => {
                let cga = b.inst_array[ident];
                let dims = dim_params(ident, cga);
                assert forall|k: int| 0 <= k < dims.len() implies #[trigger] dims[k] == Ok::<
                    GenericParamS,
                    ErrorS,
                >(expansion_of(p, b)[k]) by {
                    lemma_dim_is_numbered(cga.name, k as nat);
                }
                lemma_collect_all_ok(dims, expansion_of(p, b));
            },
            _ => {},
        }
    }
    lemma_collect_all_ok(results, want);
}

// ---------------------------------------------------------------------------
// Paths and types
// ---------------------------------------------------------------------------

/// The arguments that a plain name stands for: the dimensions of an array, or itself.
pub open spec fn name_pieces(name: Text, b: RankBindingsS) -> Seq<Text> {
    if b.inst_array.contains_key(name) {
        dim_texts(b.inst_array[name].name, b.inst_array[name].length)
    } else {
        seq![name]
    }
}

/// The rank that a list of plain names brings: the length of the last array among the first
/// `k`.
pub open spec fn names_rank(names: Seq<Text>, b: RankBindingsS, k: nat) -> Option<nat>
    decreases k,
{
    if k == 0 {
        None
    } else if b.inst_array.contains_key(names[k - 1]) {
        Some(b.inst_array[names[k - 1]].length)
    } else {
        names_rank(names, b, (k - 1) as nat)
    }
}

proof fn lemma_name_arg_text(name: Text)
    ensures
        arg_text(name_arg(name)) == name,
{
    let p = name_path(name);
    let seg = p.segments[0];
    assert(segments_texts(p.segments, false).len() == 1);
    assert(segments_texts(p.segments, false)[0] == segment_text(seg, false));
    reveal_strlit("");
    assert(segment_text(seg, false) =~= name);
    assert(join_text(segments_texts(p.segments, false), " :: "@) == name);
    assert(path_text(p, false) =~= name);
    assert(type_text(TypeS::Path(p)) == name);
}

/// A path whose segments can all be rewritten.
proof fn lemma_path_of_segments(p: PathS, b: RankBindingsS, expr: bool, segments: Seq<SegmentS>)
    requires
        segments.len() == p.segments.len(),
        forall|i: int|
            0 <= i < segments.len() ==> rewrite_segment(
                p.segments[i],
                b,
                expr && i == segments.len() - 1,
                written_path_text(p),
            ) == Ok::<SegmentS, ErrorS>(#[trigger] segments[i]),
    ensures
        rewrite_path(p, b, expr) == Ok::<PathS, ErrorS>(PathS { segments, ..p }),
{
    let results = rewritten_segments(p.segments, b, expr, written_path_text(p));
    assert forall|i: int| 0 <= i < results.len() implies #[trigger] results[i] == Ok::<
        SegmentS,
        ErrorS,
    >(segments[i]) by {}
    lemma_collect_all_ok(results, segments);
}

/// A segment whose arguments all have pieces of plain form.
proof fn lemma_segment_of_pieces(
    b: RankBindingsS,
    ident: Text,
    turbofish: bool,
    args: Seq<ArgS>,
    keep_name: bool,
    pieces: Seq<PiecesS>,
)
    requires
        pieces.len() == args.len(),
        forall|i: int|
            0 <= i < args.len() ==> arg_pieces(
                args[i],
                b,
                generic_args_text(turbofish, args),
            ) == Ok::<PiecesS, ErrorS>(#[trigger] pieces[i]),
        simple_args(pieces_args(pieces)),
    ensures
        expand_args(b, ident, turbofish, args, keep_name) == Ok::<SegmentS, ErrorS>(
            SegmentS {
                ident: if keep_name { ident } else { at_rank(ident, pieces_rank(pieces)) },
                arguments: ArgumentsS::AngleBracketed {
                    turbofish: false,
                    args: verbatim_args(pieces_args(pieces)),
                },
            },
        ),
{
    let results = args_pieces(args, b, generic_args_text(turbofish, args));
    assert forall|i: int| 0 <= i < results.len() implies #[trigger] results[i] == Ok::<
        PiecesS,
        ErrorS,
    >(pieces[i]) by {}
    lemma_collect_all_ok(results, pieces);
}

/// A name that is no array stays.
proof fn lemma_name_is_kept(name: Text, b: RankBindingsS)
    requires
        !b.inst_array.contains_key(name),
    ensures
        rewrite_type(TypeS::Path(name_path(name)), b) == Ok::<TypeS, ErrorS>(
            TypeS::Path(name_path(name)),
        ),
{
    let p = name_path(name);
    lemma_path_of_segments(p, b, false, p.segments);
}

proof fn lemma_simple_concat(lists: Seq<Seq<Text>>)
    requires
        forall|i: int| 0 <= i < lists.len() ==> simple_args(#[trigger] lists[i]),
    ensures
        simple_args(concat(lists)),
    decreases lists.len(),
{
    if lists.len() > 0 {
        let init = lists.drop_last();
        assert forall|i: int| 0 <= i < init.len() implies simple_args(#[trigger] init[i]) by {
            assert(init[i] == lists[i]);
        }
        lemma_simple_concat(init);
        let all = concat(lists);
        let head = concat(init);
        let last = lists.last();
        assert(simple_args(lists[lists.len() - 1]));
        assert forall|k: int| 0 <= k < all.len() implies simple_arg(#[trigger] all[k]) by {
            if k < head.len() {
                assert(all[k] == head[k]);
            } else {
                assert(all[k] == last[k - head.len()]);
            }
        }
    }
}

proof fn lemma_names_rank(pieces: Seq<PiecesS>, names: Seq<Text>, b: RankBindingsS, k: nat)
    requires
        k <= names.len(),
        pieces.len() == names.len(),
        forall|i: int|
            0 <= i < names.len() ==> (#[trigger] pieces[i]).rank == (if b.inst_array.contains_key(
                names[i],
            ) {
                Some(b.inst_array[names[i]].length)
            } else {
                None
            }),
    ensures
        pieces_rank(pieces.take(k as int)) == names_rank(names, b, k),
    decreases k,
{
    if k > 0 {
        lemma_names_rank(pieces, names, b, (k - 1) as nat);
        let t = pieces.take(k as int);
        assert(t.drop_last() =~= pieces.take(k - 1));
        assert(t.last() == pieces[k - 1]);
    }
}

/// The name of an array whose own name is a word, or any other name.
pub open spec fn plain_name(name: Text, b: RankBindingsS) -> bool {
    if b.inst_array.contains_key(name) {
        name_word(b.inst_array[name].name)
    } else {
        plain_word(name)
    }
}

/// A type whose arguments are plain names, such as `Tile<f32, S>`, becomes
/// `Tile_R<f32, S_0, …, S_{R-1}>`: its name gets the rank of the array, and the array is replaced
/// by its dimensions. In the last segment of an expression path (`keep_name`) the name stays.
pub proof fn law_segment_expands(
    b: RankBindingsS,
    ident: Text,
    turbofish: bool,
    names: Seq<Text>,
    keep_name: bool,
)
    requires
        forall|i: int| 0 <= i < names.len() ==> plain_name(#[trigger] names[i], b),
    ensures
        expand_args(
            b,
            ident,
            turbofish,
            Seq::new(names.len(), |i: int| name_arg(names[i])),
            keep_name,
        ) == Ok::<SegmentS, ErrorS>(
            SegmentS {
                ident: if keep_name { ident } else { at_rank(ident, names_rank(names, b, names.len())) },
                arguments: ArgumentsS::AngleBracketed {
                    turbofish: false,
                    args: verbatim_args(
                        concat(Seq::new(names.len(), |i: int| name_pieces(names[i], b))),
                    ),
                },
            },
        ),
{
    let args = Seq::new(names.len(), |i: int| name_arg(names[i]));
    let whole = generic_args_text(turbofish, args);
    let want = Seq::new(
        names.len(),
        |i: int|
            PiecesS {
                args: name_pieces(names[i], b),
                rank: if b.inst_array.contains_key(names[i]) {
                    Some(b.inst_array[names[i]].length)
                } else {
                    None
                },
            },
    );
    assert forall|i: int| 0 <= i < args.len() implies arg_pieces(args[i], b, whole) == Ok::<
        PiecesS,
        ErrorS,
    >(#[trigger] want[i]) by {
        lemma_name_arg_text(names[i]);
        assert(plain_name(names[i], b));
        assert(name_path(names[i]).segments.last().ident == names[i]);
        if !b.inst_array.contains_key(names[i]) {
            lemma_name_is_kept(names[i], b);
        }
    }
    let lists = Seq::new(names.len(), |i: int| name_pieces(names[i], b));
    assert(Seq::new(want.len(), |i: int| want[i].args) =~= lists);
    assert forall|i: int| 0 <= i < lists.len() implies simple_args(#[trigger] lists[i]) by {
        assert(plain_name(names[i], b));
        lemma_simple(names[i]);
        if b.inst_array.contains_key(names[i]) {
            let cga = b.inst_array[names[i]];
            assert forall|k: int| 0 <= k < lists[i].len() implies simple_arg(
                #[trigger] lists[i][k],
            ) by {
                lemma_dim_is_numbered(cga.name, k as nat);
                lemma_simple(lists[i][k]);
            }
        }
    }
    lemma_simple_concat(lists);
    lemma_names_rank(want, names, b, names.len());
    assert(want.take(names.len() as int) =~= want);
    lemma_segment_of_pieces(b, ident, turbofish, args, keep_name, want);
}

/// Rewriting keeps the number of segments of a path, and in an expression the name of the last
/// one.
pub proof fn law_expr_path_keeps_its_name(p: PathS, b: RankBindingsS)
    ensures
        rewrite_path(p, b, true) matches Ok(q) ==> {
            &&& q.segments.len() == p.segments.len()
            &&& q.qself == p.qself
            &&& q.leading_colon == p.leading_colon
            &&& p.segments.len() > 0 ==> q.segments.last().ident == p.segments.last().ident
        },
{
    let results = rewritten_segments(p.segments, b, true, written_path_text(p));
    lemma_collect(results);
    if collect(results) is Ok && p.segments.len() > 0 {
        let last = p.segments.len() - 1;
        assert(results[last] is Ok);
    }
}

/// A type with no array and no bound length in it.
pub open spec fn type_free(t: TypeS, b: RankBindingsS) -> bool
    decreases t,
{
    match t {
        TypeS::Path(p) => !segments_free(p.segments, b).contains(false),
        TypeS::Reference { elem, .. } => type_free(*elem, b),
        TypeS::Array { elem, len } => type_free(*elem, b) && !b.inst_u32.contains_key(
            expr_text(*len),
        ),
        TypeS::Tuple(elems) => !types_free(elems, b).contains(false),
        TypeS::Slice(elem) => type_free(*elem, b),
        TypeS::Verbatim(_) => true,
    }
}

pub open spec fn types_free(v: Seq<TypeS>, b: RankBindingsS) -> Seq<bool>
    decreases v,
{
    Seq::new(v.len(), |i: int| if 0 <= i < v.len() { type_free(v[i], b) } else { true })
}

pub open spec fn segment_free(s: SegmentS, b: RankBindingsS) -> bool
    decreases s,
{
    &&& !b.inst_array.contains_key(s.ident)
    &&& match s.arguments {
        ArgumentsS::AngleBracketed { turbofish, args } => !turbofish && !args_free(
            args,
            b,
        ).contains(false),
        _ => true,
    }
}

pub open spec fn segments_free(v: Seq<SegmentS>, b: RankBindingsS) -> Seq<bool>
    decreases v,
{
    Seq::new(v.len(), |i: int| if 0 <= i < v.len() { segment_free(v[i], b) } else { true })
}

/// An argument with no array in it.
pub open spec fn arg_free(a: ArgS, b: RankBindingsS) -> bool
    decreases a,
{
    match a {
        ArgS::Type(t) => type_free(t, b),
        ArgS::Const(ExprS::Block(_)) => false,
        _ => true,
    }
}

pub open spec fn args_free(v: Seq<ArgS>, b: RankBindingsS) -> Seq<bool>
    decreases v,
{
    Seq::new(v.len(), |i: int| if 0 <= i < v.len() { arg_free(v[i], b) } else { true })
}

/// A type with no array and no bound length in it keeps its text.
pub proof fn law_unrelated_type_keeps_its_text(t: TypeS, b: RankBindingsS)
    requires
        type_free(t, b),
    ensures
        rewrite_type(t, b) matches Ok(u) ==> type_text(u) == type_text(t),
    decreases t, 0nat,
{
    if let Ok(u) = rewrite_type(t, b) {
        match t {
            TypeS::Path(p) => {
                lemma_free_path(p, b);
            },
            TypeS::Reference { elem, .. } => {
                law_unrelated_type_keeps_its_text(*elem, b);
            },
            TypeS::Array { elem, .. } => {
                law_unrelated_type_keeps_its_text(*elem, b);
            },
            TypeS::Tuple(elems) => {
                let results = types_results(elems, b);
                lemma_collect(results);
                let out = collect(results)->Ok_0;
                assert forall|i: int| 0 <= i < elems.len() implies types_texts(out)[i]
                    == #[trigger] types_texts(elems)[i] by {
                    assert(types_free(elems, b)[i]);
                    assert(results[i] == Ok::<TypeS, ErrorS>(out[i]));
                    law_unrelated_type_keeps_its_text(elems[i], b);
                }
                assert(types_texts(out) =~= types_texts(elems));
            },
            TypeS::Slice(elem) => {
                law_unrelated_type_keeps_its_text(*elem, b);
            },
            TypeS::Verbatim(_) => {},
        }
    }
}

proof fn lemma_free_path(p: PathS, b: RankBindingsS)
    requires
        !segments_free(p.segments, b).contains(false),
    ensures
        rewrite_type(TypeS::Path(p), b) matches Ok(u) ==> type_text(u) == type_text(
            TypeS::Path(p),
        ),
    decreases p, 1nat,
{
    if p.segments.len() > 0 {
        if p.segments.last().ident == "Option"@ {
            lemma_free_option(p, b);
        } else {
            lemma_free_segments(p, b);
        }
    }
}

proof fn lemma_free_option(p: PathS, b: RankBindingsS)
    requires
        p.segments.len() > 0,
        p.segments.last().ident == "Option"@,
        !segments_free(p.segments, b).contains(false),
    ensures
        rewrite_type(TypeS::Path(p), b) matches Ok(u) ==> type_text(u) == type_text(
            TypeS::Path(p),
        ),
    decreases p, 0nat,
{
    let last = p.segments.len() - 1;
    assert(segments_free(p.segments, b)[last]);
    if let ArgumentsS::AngleBracketed { turbofish, args } = p.segments[last].arguments {
        let results = type_args_results(args, b);
        lemma_collect(results);
        if let Ok(out) = collect(results) {
            assert forall|i: int| 0 <= i < args.len() implies args_texts(out)[i]
                == #[trigger] args_texts(args)[i] by {
                assert(args_free(args, b)[i]);
                assert(results[i] == Ok::<ArgS, ErrorS>(out[i]));
                if let ArgS::Type(x) = args[i] {
                    law_unrelated_type_keeps_its_text(x, b);
                }
            }
            assert(args_texts(out) =~= args_texts(args));
            let q = with_last_arguments(p, ArgumentsS::AngleBracketed { turbofish, args: out });
            lemma_same_texts(p, q);
        }
    }
}

/// Paths whose segments have the same texts have the same text.
proof fn lemma_same_texts(p: PathS, q: PathS)
    requires
        q.qself == p.qself,
        q.leading_colon == p.leading_colon,
        q.segments.len() == p.segments.len(),
        forall|i: int|
            0 <= i < p.segments.len() ==> segment_text(#[trigger] q.segments[i], false)
                == segment_text(p.segments[i], false),
    ensures
        type_text(TypeS::Path(q)) == type_text(TypeS::Path(p)),
{
    assert(segments_texts(q.segments, false) =~= segments_texts(p.segments, false));
    assert(path_text(q, false) == path_text(p, false));
}

proof fn lemma_free_segments(p: PathS, b: RankBindingsS)
    requires
        p.segments.len() > 0,
        p.segments.last().ident != "Option"@,
        !segments_free(p.segments, b).contains(false),
    ensures
        rewrite_type(TypeS::Path(p), b) matches Ok(u) ==> type_text(u) == type_text(
            TypeS::Path(p),
        ),
    decreases p, 0nat,
{
    let whole = written_path_text(p);
    let results = rewritten_segments(p.segments, b, false, whole);
    lemma_collect(results);
    if let Ok(q) = rewrite_path(p, b, false) {
        assert forall|i: int| 0 <= i < p.segments.len() implies segment_text(
            #[trigger] q.segments[i],
            false,
        ) == segment_text(p.segments[i], false) by {
            assert(segments_free(p.segments, b)[i]);
            assert(results[i] == Ok::<SegmentS, ErrorS>(q.segments[i]));
            lemma_free_segment(p.segments[i], b, false, whole);
        }
        lemma_same_texts(p, q);
    }
}

proof fn lemma_free_segment(s: SegmentS, b: RankBindingsS, keep_name: bool, whole: Text)
    requires
        segment_free(s, b),
    ensures
        rewrite_segment(s, b, keep_name, whole) matches Ok(r) ==> segment_text(r, false)
            == segment_text(s, false),
    decreases s, 0nat,
{
    if let ArgumentsS::AngleBracketed { turbofish, args } = s.arguments {
        assert forall|i: int| 0 <= i < args.len() implies arg_free(#[trigger] args[i], b) by {
            assert(args_free(args, b)[i]);
        }
        law_unrelated_segment_is_kept(b, s.ident, turbofish, args, keep_name);
        if rewrite_segment(s, b, keep_name, whole) is Ok {
            let t = args_texts(args);
            assert(args_texts(verbatim_args(t)) =~= t);
        }
    }
}

/// A segment with no array among its arguments, or in them, keeps its name and the text of its
/// arguments.
pub proof fn law_unrelated_segment_is_kept(
    b: RankBindingsS,
    ident: Text,
    turbofish: bool,
    args: Seq<ArgS>,
    keep_name: bool,
)
    requires
        forall|i: int| 0 <= i < args.len() ==> arg_free(#[trigger] args[i], b),
    ensures
        expand_args(b, ident, turbofish, args, keep_name) matches Ok(s) ==> {
            &&& s.ident == ident
            &&& s.arguments == ArgumentsS::AngleBracketed {
                turbofish: false,
                args: verbatim_args(args_texts(args)),
            }
        },
    decreases args, 0nat,
{
    if expand_args(b, ident, turbofish, args, keep_name) is Ok {
        let whole = generic_args_text(turbofish, args);
        let results = args_pieces(args, b, whole);
        lemma_collect(results);
        let pieces = collect(results)->Ok_0;
        assert forall|i: int| 0 <= i < pieces.len() implies #[trigger] pieces[i] == kept(
            args_texts(args)[i],
        ) by {
            assert(arg_free(args[i], b));
            assert(results[i] == Ok::<PiecesS, ErrorS>(pieces[i]));
            if let ArgS::Type(t) = args[i] {
                law_unrelated_type_keeps_its_text(t, b);
                if let TypeS::Path(p) = t {
                    if p.segments.len() > 0 {
                        assert(segments_free(p.segments, b)[p.segments.len() - 1]);
                    }
                }
            }
        }
        lemma_kept(pieces, args_texts(args), pieces.len());
        assert(pieces.take(pieces.len() as int) =~= pieces);
        assert(args_texts(args).take(pieces.len() as int) =~= args_texts(args));
    }
}

proof fn lemma_kept(pieces: Seq<PiecesS>, t: Seq<Text>, k: nat)
    requires
        k <= pieces.len(),
        t.len() == pieces.len(),
        forall|i: int| 0 <= i < pieces.len() ==> #[trigger] pieces[i] == kept(t[i]),
    ensures
        pieces_args(pieces.take(k as int)) == t.take(k as int),
        pieces_rank(pieces.take(k as int)) is None,
    decreases k,
{
    let now = pieces.take(k as int);
    let lists = Seq::new(now.len(), |i: int| now[i].args);
    if k == 0 {
        assert(concat(lists) =~= t.take(0));
    } else {
        lemma_kept(pieces, t, (k - 1) as nat);
        let prev = pieces.take(k - 1);
        assert(now.drop_last() =~= prev);
        assert(lists.drop_last() =~= Seq::new(prev.len(), |i: int| prev[i].args));
        assert(now.last() == pieces[k - 1]);
        assert(lists.last() == seq![t[k - 1]]);
        assert(concat(lists) =~= t.take(k as int));
    }
}

// ---------------------------------------------------------------------------
// Expressions
// ---------------------------------------------------------------------------

/// `S[i]` is the dimension `S_i` exactly for an index within the array.
pub proof fn law_index_within_bounds(name: Text, index: ExprS, i: int, b: RankBindingsS)
    requires
        b.inst_array.contains_key(name),
    ensures
        index_dim(name, index, i, b) is Ok <==> 0 <= i < b.inst_array[name].length,
        0 <= i < b.inst_array[name].length ==> index_dim(name, index, i, b) == Ok::<ExprS, ErrorS>(
            ExprS::Path(name_path(dim_text(b.inst_array[name].name, i as nat))),
        ),
{
}

/// Literal tokens.
pub open spec fn literal_tokens(args: Seq<Text>) -> Seq<MacroTokenS> {
    Seq::new(args.len(), |i: int| MacroTokenS::Literal(args[i]))
}

proof fn lemma_concat_singletons(v: Seq<Text>, k: nat)
    requires
        k <= v.len(),
    ensures
        concat(Seq::new(v.len(), |i: int| seq![v[i]]).take(k as int)) == v.take(k as int),
    decreases k,
{
    let lists = Seq::new(v.len(), |i: int| seq![v[i]]);
    if k == 0 {
        assert(concat(lists.take(0)) =~= v.take(0));
    } else {
        lemma_concat_singletons(v, (k - 1) as nat);
        lemma_concat_step(lists, k - 1);
        assert(v.take(k - 1) + seq![v[k - 1]] =~= v.take(k as int));
    }
}

proof fn lemma_literal_texts(args: Seq<Text>)
    ensures
        exprs_texts(literals(args)) == args,
{
    assert(exprs_texts(literals(args)) =~= args);
}

/// `const_shape!(d0, …)` over numbers becomes `Shape_R::<d0, …>::const_new()` with the number of
/// dimensions as its rank, and `const_array!` the same of `Array`.
pub proof fn law_shape_macro_gets_its_rank(kind: Text, args: Seq<Text>, source: Text, b: RankBindingsS)
    requires
        super::bodies::is_shape_macro(kind),
        forall|i: int| 0 <= i < args.len() ==> number_word(#[trigger] args[i]),
        args.len() < 0x1_0000_0000,
        !b.inst_array.contains_key(shape_type(kind)),
        !b.inst_array.contains_key("const_new"@),
    ensures
        visit_expr(ExprS::Macro { name: kind, tokens: literal_tokens(args), source }, b) == Ok::<
            ExprS,
            ErrorS,
        >(
            call_of(
                PathS {
                    qself: None,
                    leading_colon: false,
                    segments: seq![
                        SegmentS {
                            ident: ranked_text(shape_type(kind), args.len()),
                            arguments: ArgumentsS::AngleBracketed {
                                turbofish: false,
                                args: verbatim_args(args),
                            },
                        },
                        SegmentS { ident: "const_new"@, arguments: ArgumentsS::Empty },
                    ],
                },
            ),
        ),
{
    let ty = shape_type(kind);
    let lists = Seq::new(args.len(), |i: int| seq![args[i]]);
    let results = tokens_args(literal_tokens(args), kind, source, b);
    lemma_collect_all_ok(results, lists);
    lemma_concat_singletons(args, args.len());
    assert(lists.take(args.len() as int) =~= lists);
    assert(args.take(args.len() as int) =~= args);
    assert(concat(lists) == args);
    assert(simple_elems(args));
    lemma_simple_elems(args);
    let p = const_new_path(ty, args);
    assert(expand_shape(kind, literal_tokens(args), source, b) == Ok::<PathS, ErrorS>(p));
    lemma_const_new_expands(ty, args, b);
}

/// The path of `const_new` gets its rank.
proof fn lemma_const_new_expands(ty: Text, args: Seq<Text>, b: RankBindingsS)
    requires
        simple_args(args),
        args.len() < 0x1_0000_0000,
        !b.inst_array.contains_key(ty),
        !b.inst_array.contains_key("const_new"@),
    ensures
        rewrite_path(const_new_path(ty, args), b, true) == Ok::<PathS, ErrorS>(
            PathS {
                qself: None,
                leading_colon: false,
                segments: seq![
                    SegmentS {
                        ident: ranked_text(ty, args.len()),
                        arguments: ArgumentsS::AngleBracketed {
                            turbofish: false,
                            args: verbatim_args(args),
                        },
                    },
                    SegmentS { ident: "const_new"@, arguments: ArgumentsS::Empty },
                ],
            },
        ),
{
    let p = const_new_path(ty, args);
    let seg_args = p.segments[0].arguments->args;
    lemma_literal_texts(args);
    lemma_literal_piece(literals(args), b, generic_args_text(true, seg_args));
    let piece = PiecesS { args, rank: Some(args.len()) };
    lemma_one_piece(piece);
    lemma_segment_of_pieces(b, ty, true, seg_args, false, seq![piece]);
    let first = SegmentS {
        ident: ranked_text(ty, args.len()),
        arguments: ArgumentsS::AngleBracketed { turbofish: false, args: verbatim_args(args) },
    };
    let second = SegmentS { ident: "const_new"@, arguments: ArgumentsS::Empty };
    lemma_path_of_segments(p, b, true, seq![first, second]);
}

/// `{[..]}` as an argument.
pub open spec fn array_arg(elems: Seq<ExprS>) -> ArgS {
    ArgS::Const(ExprS::Block(seq![StmtS::Expr { expr: ExprS::Array(elems), semi: false }]))
}

proof fn lemma_literal_piece(elems: Seq<ExprS>, b: RankBindingsS, whole: Text)
    requires
        elems.len() < 0x1_0000_0000,
    ensures
        arg_pieces(array_arg(elems), b, whole) == Ok::<PiecesS, ErrorS>(
            PiecesS { args: exprs_texts(elems), rank: Some(elems.len()) },
        ),
{
}

proof fn lemma_one_piece(piece: PiecesS)
    ensures
        pieces_args(seq![piece]) == piece.args,
        pieces_rank(seq![piece]) == piece.rank,
{
    let v = seq![piece];
    let one = Seq::new(v.len(), |i: int| v[i].args);
    assert(one.drop_last() =~= Seq::<Seq<Text>>::empty());
    assert(concat(one.drop_last()) =~= Seq::<Text>::empty());
    assert(one.last() == piece.args);
    assert(concat(one) =~= piece.args);
    assert(v.drop_last() =~= Seq::<PiecesS>::empty());
    assert(v.last() == piece);
    assert(pieces_rank(v.drop_last()) is None);
}

/// An element of a literal shape: a number, with a minus or without.
pub open spec fn plain_elem(e: ExprS) -> bool {
    match e {
        ExprS::Lit(t) => number_word(t),
        ExprS::Unary { op, operand } => op == "-"@ && (*operand matches ExprS::Lit(t)
            && number_word(t)),
        _ => false,
    }
}

/// A type with a literal shape, such as `Tile<f32, {[2, -1]}>`, becomes `Tile_2<f32, 2, -1>`: its
/// name gets the number of elements as its rank, and the shape is replaced by its elements.
pub proof fn law_literal_shape_expands(
    b: RankBindingsS,
    base: Text,
    elem: Text,
    shape: Seq<ExprS>,
)
    requires
        base != "Option"@,
        !b.inst_array.contains_key(base),
        !b.inst_array.contains_key(elem),
        plain_word(elem),
        shape.len() < 0x1_0000_0000,
        forall|i: int| 0 <= i < shape.len() ==> plain_elem(#[trigger] shape[i]),
    ensures
        rewrite_type(
            TypeS::Path(generic_path(base, seq![name_arg(elem), array_arg(shape)])),
            b,
        ) == Ok::<TypeS, ErrorS>(
            TypeS::Path(
                generic_path(
                    ranked_text(base, shape.len()),
                    verbatim_args(seq![elem] + exprs_texts(shape)),
                ),
            ),
        ),
        simple_args(seq![elem] + exprs_texts(shape)),
{
    let args = seq![name_arg(elem), array_arg(shape)];
    let whole = generic_args_text(false, args);
    lemma_name_arg_text(elem);
    lemma_name_is_kept(elem, b);
    lemma_literal_piece(shape, b, whole);
    let first = kept(elem);
    let second = PiecesS { args: exprs_texts(shape), rank: Some(shape.len()) };
    let pieces = seq![first, second];
    let out = seq![elem] + exprs_texts(shape);
    lemma_two_pieces(first, second);
    lemma_shape_is_simple(elem, shape);
    lemma_segment_of_pieces(b, base, false, args, false, pieces);
    let p = generic_path(base, args);
    lemma_path_of_segments(
        p,
        b,
        false,
        generic_path(ranked_text(base, shape.len()), verbatim_args(out)).segments,
    );
}

proof fn lemma_two_pieces(first: PiecesS, second: PiecesS)
    requires
        second.rank is Some,
    ensures
        pieces_args(seq![first, second]) == first.args + second.args,
        pieces_rank(seq![first, second]) == second.rank,
{
    let v = seq![first, second];
    let one = seq![first];
    lemma_one_piece(first);
    let lists = Seq::new(v.len(), |i: int| v[i].args);
    assert(lists.drop_last() =~= Seq::new(one.len(), |i: int| one[i].args));
    assert(lists.last() == second.args);
    assert(v.last() == second);
}

proof fn lemma_shape_is_simple(elem: Text, shape: Seq<ExprS>)
    requires
        plain_word(elem),
        forall|i: int| 0 <= i < shape.len() ==> plain_elem(#[trigger] shape[i]),
    ensures
        simple_args(seq![elem] + exprs_texts(shape)),
{
    let out = seq![elem] + exprs_texts(shape);
    lemma_simple(elem);
    assert forall|i: int| 0 <= i < out.len() implies simple_arg(#[trigger] out[i]) by {
        if i > 0 {
            assert(plain_elem(shape[i - 1]));
            assert(out[i] == expr_text(shape[i - 1]));
            lemma_elem_is_simple(shape[i - 1]);
        }
    }
}

proof fn lemma_elem_is_simple(e: ExprS)
    requires
        plain_elem(e),
    ensures
        simple_arg(expr_text(e)),
{
    match e {
        ExprS::Lit(t) => {
            lemma_simple(t);
        },
        ExprS::Unary { op, operand } => {
            let t = operand->Lit_0;
            lemma_simple(t);
            reveal_strlit("-");
            reveal_strlit(" ");
            reveal_strlit("- ");
            assert(expr_text(*operand) == t);
            assert(op + " "@ + t =~= "- "@ + t);
        },
        _ => {},
    }
}

/// `name<args>`.
pub open spec fn generic_path(name: Text, args: Seq<ArgS>) -> PathS {
    PathS {
        qself: None,
        leading_colon: false,
        segments: seq![
            SegmentS {
                ident: name,
                arguments: ArgumentsS::AngleBracketed { turbofish: false, args },
            },
        ],
    }
}

proof fn lemma_generic_text(name: Text, args: Seq<Text>)
    ensures
        type_text(TypeS::Path(generic_path(name, verbatim_args(args)))) == name + " "@
            + angle_text(args),
{
    let p = generic_path(name, verbatim_args(args));
    assert(args_texts(verbatim_args(args)) =~= args);
    assert(segments_texts(p.segments, false).len() == 1);
    assert(segments_texts(p.segments, false)[0] == segment_text(p.segments[0], false));
    reveal_strlit("");
    assert(join_text(segments_texts(p.segments, false), " :: "@) == segment_text(
        p.segments[0],
        false,
    ));
    assert(segment_text(p.segments[0], false) =~= name + " "@ + angle_text(args));
    assert(path_text(p, false) =~= name + " "@ + angle_text(args));
}

/// Rewriting goes into the arguments of a type: where the argument of `Vec<Tile<f32, {[2, 4]}>>`
/// becomes `Tile_2<f32, 2, 4>`, the whole becomes `Vec<Tile_2<f32, 2, 4>>`, and an error in the
/// argument is one of the whole.
pub proof fn law_nested_type_is_rewritten(
    b: RankBindingsS,
    base: Text,
    t: PathS,
    name: Text,
    args: Seq<Text>,
)
    requires
        base != "Option"@,
        !b.inst_array.contains_key(base),
        t.segments.len() > 0,
        !b.inst_array.contains_key(t.segments.last().ident),
    ensures
        rewrite_type(TypeS::Path(t), b) matches Err(e) ==> rewrite_type(
            TypeS::Path(generic_path(base, seq![ArgS::Type(TypeS::Path(t))])),
            b,
        ) == Err::<TypeS, ErrorS>(e),
        rewrite_type(TypeS::Path(t), b) == Ok::<TypeS, ErrorS>(
            TypeS::Path(generic_path(name, verbatim_args(args))),
        ) && plain_word(name) && simple_args(args) ==> rewrite_type(
            TypeS::Path(generic_path(base, seq![ArgS::Type(TypeS::Path(t))])),
            b,
        ) == Ok::<TypeS, ErrorS>(
            TypeS::Path(
                generic_path(base, verbatim_args(seq![name + " "@ + angle_text(args)])),
            ),
        ),
{
    let outer = generic_path(base, seq![ArgS::Type(TypeS::Path(t))]);
    let outer_args = seq![ArgS::Type(TypeS::Path(t))];
    let whole = generic_args_text(false, outer_args);
    match rewrite_type(TypeS::Path(t), b) {
        Err(e) => {
            let results = args_pieces(outer_args, b, whole);
            assert(results[0] == Err::<PiecesS, ErrorS>(e));
            lemma_collect(results);
            assert(collect(results) == Err::<Seq<PiecesS>, ErrorS>(e));
            let segs = rewritten_segments(outer.segments, b, false, written_path_text(outer));
            assert(segs[0] == Err::<SegmentS, ErrorS>(e));
            lemma_collect(segs);
            assert(collect(segs) == Err::<Seq<SegmentS>, ErrorS>(e));
        },
        Ok(u) => {
            if u == TypeS::Path(generic_path(name, verbatim_args(args))) && plain_word(name)
                && simple_args(args) {
                lemma_generic_text(name, args);
                lemma_simple_generic(name, args);
                let text = name + " "@ + angle_text(args);
                let piece = kept(text);
                lemma_one_piece(piece);
                lemma_segment_of_pieces(b, base, false, outer_args, false, seq![piece]);
                lemma_path_of_segments(
                    outer,
                    b,
                    false,
                    generic_path(base, verbatim_args(seq![text])).segments,
                );
            }
        },
    }
}

// ---------------------------------------------------------------------------
// Items
// ---------------------------------------------------------------------------

/// A receiver stays as it is, and any other argument keeps its pattern.
pub open spec fn keeps_pattern(a: FnArgS, b: FnArgS) -> bool {
    match a {
        FnArgS::Receiver(_) => b == a,
        FnArgS::Typed { pat, .. } => b matches FnArgS::Typed { pat: q, .. } && q == pat,
    }
}

/// A rewritten function keeps its attributes, its visibility, its name and the patterns of its
/// arguments.
pub proof fn law_function_keeps_its_frame(f: ItemFnS, b: RankBindingsS)
    ensures
        rewrite_fn(f, b) matches Ok(g) ==> {
            &&& g.attrs == f.attrs
            &&& g.vis == f.vis
            &&& g.sig.ident == f.sig.ident
            &&& g.sig.qualifiers == f.sig.qualifiers
            &&& g.sig.is_unsafe == f.sig.is_unsafe
            &&& g.sig.generics.where_clause == f.sig.generics.where_clause
            &&& g.sig.inputs.len() == f.sig.inputs.len()
            &&& forall|i: int|
                0 <= i < f.sig.inputs.len() ==> keeps_pattern(
                    f.sig.inputs[i],
                    #[trigger] g.sig.inputs[i],
                )
            &&& g.body.len() == f.body.len()
        },
{
    let results = rewritten_fn_args(f.sig.inputs, b);
    lemma_collect(results);
    lemma_collect(super::bodies::visit_stmts(f.body, b));
    if let Ok(g) = rewrite_fn(f, b) {
        assert forall|i: int| 0 <= i < f.sig.inputs.len() implies keeps_pattern(
            f.sig.inputs[i],
            #[trigger] g.sig.inputs[i],
        ) by {
            assert(results[i] == Ok::<FnArgS, ErrorS>(g.sig.inputs[i]));
        }
    }
}

/// The first `k` items of an impl block without the methods that span several ranks.
pub open spec fn single_rank_items(items: Seq<ImplItemS>, k: nat) -> Seq<ImplItemS>
    decreases k,
{
    if k == 0 {
        seq![]
    } else {
        let rest = single_rank_items(items, (k - 1) as nat);
        match items[k - 1] {
            ImplItemS::Fn(f) => if f.variadic { rest } else { rest.push(items[k - 1]) },
            _ => rest.push(items[k - 1]),
        }
    }
}

/// The same item, as far as it does not depend on a rank: a method with its attributes, its
/// visibility and its name, a type with its name.
pub open spec fn same_item(a: ImplItemS, b: ImplItemS) -> bool {
    match a {
        ImplItemS::Fn(f) => b matches ImplItemS::Fn(g) && g.attrs == f.attrs && g.vis == f.vis
            && g.sig.ident == f.sig.ident,
        ImplItemS::Type { head, tail, .. } => b matches ImplItemS::Type { head: h, tail: t, .. }
            && h == head && t == tail,
        _ => b == a,
    }
}

proof fn lemma_impl_items(
    items: Seq<ImplItemS>,
    lists: Seq<Seq<ImplItemS>>,
    b: RankBindingsS,
    k: nat,
)
    requires
        k <= items.len(),
        lists.len() == items.len(),
        forall|i: int|
            0 <= i < items.len() ==> rewrite_impl_item(items[i], b) == Ok::<
                Seq<ImplItemS>,
                ErrorS,
            >(#[trigger] lists[i]),
    ensures
        concat(lists.take(k as int)).len() == single_rank_items(items, k).len(),
        forall|i: int|
            0 <= i < single_rank_items(items, k).len() ==> same_item(
                single_rank_items(items, k)[i],
                #[trigger] concat(lists.take(k as int))[i],
            ),
    decreases k,
{
    if k > 0 {
        lemma_impl_items(items, lists, b, (k - 1) as nat);
        lemma_concat_step(lists, k - 1);
        assert(rewrite_impl_item(items[k - 1], b) == Ok::<Seq<ImplItemS>, ErrorS>(lists[k - 1]));
        let before = concat(lists.take(k - 1));
        let after = concat(lists.take(k as int));
        assert(after == before + lists[k - 1]);
        assert forall|i: int| 0 <= i < single_rank_items(items, k).len() implies same_item(
            single_rank_items(items, k)[i],
            #[trigger] after[i],
        ) by {
            if i < before.len() {
                assert(after[i] == before[i]);
                assert(same_item(single_rank_items(items, (k - 1) as nat)[i], before[i]));
            } else {
                assert(after[i] == lists[k - 1][0]);
            }
        }
    } else {
        assert(lists.take(0) =~= Seq::<Seq<ImplItemS>>::empty());
    }
}

/// A rewritten impl block has exactly the items that do not span several ranks, in their order.
pub proof fn law_impl_drops_only_variadic_methods(item: ItemImplS, b: RankBindingsS)
    ensures
        rewrite_impl_block(item, b) matches Ok(r) ==> {
            let kept = single_rank_items(item.items, item.items.len());
            &&& r.items.len() == kept.len()
            &&& forall|i: int| 0 <= i < kept.len() ==> same_item(kept[i], #[trigger] r.items[i])
        },
{
    let results = rewritten_impl_items(item.items, b);
    lemma_collect(results);
    if collect(results) is Ok {
        let lists = collect(results)->Ok_0;
        assert forall|i: int| 0 <= i < item.items.len() implies rewrite_impl_item(
            item.items[i],
            b,
        ) == Ok::<Seq<ImplItemS>, ErrorS>(#[trigger] lists[i]) by {
            assert(results[i] == Ok::<Seq<ImplItemS>, ErrorS>(lists[i]));
        }
        lemma_impl_items(item.items, lists, b, item.items.len());
        assert(lists.take(item.items.len() as int) =~= lists);
    }
}

/// A struct is expanded into one copy for each combination of lengths, in order; each is named
/// after the lengths of its arrays, has its generics at those lengths and its own constructors, and
/// keeps its attributes, its visibility and its fields.
pub proof fn law_one_struct_per_combination(attributes: MetaS, item: ItemStructS, i: int)
    requires
        struct_variants(attributes, item) is Ok,
    ensures
        length_space(attributes, struct_cgas(item)) matches Ok(space) && {
            let v = struct_variants(attributes, item)->Ok_0;
            &&& v.len() == space.total
            &&& 0 <= i < v.len() ==> {
                let lengths = item_at(i as nat, space.lengths, length_vars(struct_cgas(item)));
                &&& v[i].0.ident == concrete_name_text(item.ident, second(lengths.cgas))
                &&& v[i].0.attrs == item.attrs
                &&& v[i].0.vis == item.vis
                &&& v[i].0.style == item.style
                &&& v[i].0.fields == item.fields
                &&& RankBindingsS::from_variadic(lengths, struct_cgas(item)) matches Ok(b)
                    && rewrite_generics(item.generics, b) == Ok::<GenericsS, ErrorS>(
                    v[i].0.generics,
                )
                &&& struct_constructors(
                    item.ident,
                    v[i].0.ident,
                    constructor_name(attributes),
                    has_dims_field(item),
                    struct_cgas(item),
                    second(lengths.cgas),
                ) == Ok::<Option<Text>, ErrorS>(v[i].1)
            }
        },
{
    let cgas = struct_cgas(item);
    let space = length_space(attributes, cgas)->Ok_0;
    let results = Seq::new(
        space.total,
        |i: int|
            struct_variant(
                item,
                constructor_name(attributes),
                cgas,
                item_at(i as nat, space.lengths, length_vars(cgas)),
            ),
    );
    lemma_collect(results);
    if 0 <= i < results.len() {
        assert(results[i] is Ok);
        assert(results[i] == Ok::<(ItemStructS, Option<Text>), ErrorS>(
            struct_variants(attributes, item)->Ok_0[i],
        ));
    }
}

/// The arrays hold `i32` under different names that are words.
pub open spec fn word_arrays(cgas: Seq<VarCgaS>) -> bool {
    &&& forall|i: int|
        0 <= i < cgas.len() ==> name_word((#[trigger] cgas[i]).name) && cgas[i].element_type
            == "i32"@
    &&& forall|i: int, j: int|
        0 <= i < j < cgas.len() ==> (#[trigger] cgas[i]).name != (#[trigger] cgas[j]).name
}

proof fn lemma_suffix_is_word(ranks: Seq<u32>)
    requires
        ranks.len() > 0,
    ensures
        rank_suffix_text(ranks).len() > 0,
        '0' <= rank_suffix_text(ranks).last() <= '9',
        forall|i: int|
            0 <= i < rank_suffix_text(ranks).len() ==> word_char(
                #[trigger] rank_suffix_text(ranks)[i],
            ),
    decreases ranks.len(),
{
    reveal_strlit("_");
    lemma_suffix_parts(ranks);
    let d = decimal_text(ranks.last() as nat);
    super::types::lemma_decimal_is_number(ranks.last() as nat);
    let t = rank_suffix_text(ranks);
    assert('0' <= d[d.len() - 1] <= '9');
    if ranks.len() == 1 {
        assert forall|i: int| 0 <= i < t.len() implies word_char(#[trigger] t[i]) by {
            assert('0' <= d[i] <= '9');
        }
    } else {
        let head = rank_suffix_text(ranks.drop_last());
        lemma_suffix_is_word(ranks.drop_last());
        assert(t.last() == d.last());
        assert forall|i: int| 0 <= i < t.len() implies word_char(#[trigger] t[i]) by {
            if i < head.len() {
                assert(t[i] == head[i]);
            } else if i > head.len() {
                assert(t[i] == d[i - head.len() - 1]);
                assert('0' <= d[i - head.len() - 1] <= '9');
            }
        }
    }
}

proof fn lemma_concrete_name_is_numbered(name: Text, ranks: Seq<u32>)
    requires
        name_word(name),
        ranks.len() > 0,
    ensures
        numbered_word(concrete_name_text(name, ranks)),
{
    reveal_strlit("_");
    lemma_suffix_is_word(ranks);
    let s = rank_suffix_text(ranks);
    let t = concrete_name_text(name, ranks);
    assert(t.last() == s.last());
    assert forall|i: int| 0 <= i < t.len() implies word_char(#[trigger] t[i]) by {
        if i < name.len() {
            assert(t[i] == name[i]);
        } else if i > name.len() {
            assert(t[i] == s[i - name.len() - 1]);
        }
    }
}

proof fn lemma_declared_array(params: Seq<GenericParamS>, k: nat, i: int) -> (j: int)
    requires
        0 <= i < k <= params.len(),
        params[i] matches GenericParamS::Const { ty: TypeS::Array { .. }, .. },
    ensures
        0 <= j < var_cgas(params, k).len(),
        params[i] matches GenericParamS::Const { ident, .. } && var_cgas(params, k)[j].name
            == ident,
    decreases k,
{
    if i == k - 1 {
        var_cgas(params, (k - 1) as nat).len() as int
    } else {
        lemma_declared_array(params, (k - 1) as nat, i)
    }
}

proof fn lemma_word_generics_expand(item: ItemStructS, b: RankBindingsS)
    requires
        word_arrays(struct_cgas(item)),
        forall|k: int|
            0 <= k < struct_cgas(item).len() ==> b.inst_array.contains_key(
                (#[trigger] struct_cgas(item)[k]).name,
            ) && b.inst_array[struct_cgas(item)[k].name].name == struct_cgas(item)[k].name
                && b.inst_array[struct_cgas(item)[k].name].element_type == "i32"@,
    ensures
        rewrite_generics(item.generics, b) is Ok,
{
    let params = item.generics.params;
    let cgas = struct_cgas(item);
    assert forall|i: int| 0 <= i < params.len() implies expandable(#[trigger] params[i], b) by {
        if params[i] matches GenericParamS::Const { ty: TypeS::Array { .. }, .. } {
            let j = lemma_declared_array(params, params.len(), i);
            assert(name_word(cgas[j].name));
        }
    }
    law_generics_expand(params, b);
}

/// The constructors that a copy of a struct comes with.
pub open spec fn wanted_constructors(
    attributes: MetaS,
    item: ItemStructS,
    name: Text,
    lengths: Seq<u32>,
) -> Option<Text> {
    match constructor_name(attributes) {
        Some(c) => if has_dims_field(item) && struct_cgas(item).len() > 0 {
            Some(constructor_impl(name, c, struct_cgas(item), lengths))
        } else {
            None
        },
        None => None,
    }
}

/// A struct whose names are words is always expanded, and every copy comes with the constructors
/// that the attribute asks for.
pub proof fn law_word_struct_is_expanded(attributes: MetaS, item: ItemStructS, i: int)
    requires
        length_space(attributes, struct_cgas(item)) is Ok,
        lengths_fit(attributes, struct_cgas(item)),
        name_word(item.ident),
        word_arrays(struct_cgas(item)),
        constructor_name(attributes) matches Some(c) ==> name_word(c),
    ensures
        struct_variants(attributes, item) matches Ok(v) && (0 <= i < v.len() ==> v[i].1
            == wanted_constructors(
            attributes,
            item,
            v[i].0.ident,
            second(
                item_at(
                    i as nat,
                    length_space(attributes, struct_cgas(item))->Ok_0.lengths,
                    length_vars(struct_cgas(item)),
                ).cgas,
            ),
        )),
{
    let cgas = struct_cgas(item);
    let space = length_space(attributes, cgas)->Ok_0;
    let constructor = constructor_name(attributes);
    let results = Seq::new(
        space.total,
        |i: int|
            struct_variant(
                item,
                constructor,
                cgas,
                item_at(i as nat, space.lengths, length_vars(cgas)),
            ),
    );
    lemma_collect(results);
    assert forall|k: int| 0 <= k < results.len() implies (#[trigger] results[k]) is Ok
        && results[k]->Ok_0.1 == wanted_constructors(
        attributes,
        item,
        results[k]->Ok_0.0.ident,
        second(item_at(k as nat, space.lengths, length_vars(cgas)).cgas),
    ) by {
        lemma_word_variant(attributes, item, k as nat);
    }
    assert(struct_variants(attributes, item) == collect(results));
    match collect(results) {
        Ok(v) => {
            if 0 <= i < v.len() {
                assert(results[i] == Ok::<(ItemStructS, Option<Text>), ErrorS>(v[i]));
            }
        },
        Err(e) => {
            let k = choose|k: int|
                0 <= k < results.len() && #[trigger] results[k] == Err::<
                    (ItemStructS, Option<Text>),
                    ErrorS,
                >(e);
            assert(results[k] is Ok);
        },
    }
}

proof fn lemma_word_variant(attributes: MetaS, item: ItemStructS, k: nat)
    requires
        length_space(attributes, struct_cgas(item)) is Ok,
        lengths_fit(attributes, struct_cgas(item)),
        name_word(item.ident),
        word_arrays(struct_cgas(item)),
        constructor_name(attributes) matches Some(c) ==> name_word(c),
        k < length_space(attributes, struct_cgas(item))->Ok_0.total,
    ensures
        ({
            let cgas = struct_cgas(item);
            let space = length_space(attributes, cgas)->Ok_0;
            let lengths = item_at(k, space.lengths, length_vars(cgas));
            struct_variant(item, constructor_name(attributes), cgas, lengths) matches Ok(x) && x.1
                == wanted_constructors(attributes, item, x.0.ident, second(lengths.cgas))
        }),
{
    let cgas = struct_cgas(item);
    let space = length_space(attributes, cgas)->Ok_0;
    let lengths = item_at(k, space.lengths, length_vars(cgas));
    lemma_length_space(attributes, cgas);
    lemma_product_positive(space.lengths);
    assert forall|j: int| 0 <= j < cgas.len() implies entry(
        space.lengths,
        (#[trigger] cgas[j]).length_var,
    ) is Some by {
        law_number_of_combinations(attributes, cgas, cgas[j].length_var);
        assert(length_vars(cgas)[j] == cgas[j].length_var);
    }
    law_combination_binds(space, cgas, k);
    let b = RankBindingsS::from_variadic(lengths, cgas)->Ok_0;
    assert forall|j: int| 0 <= j < cgas.len() implies b.inst_array.contains_key(
        (#[trigger] cgas[j]).name,
    ) && b.inst_array[cgas[j].name].name == cgas[j].name && b.inst_array[cgas[j].name].element_type
        == "i32"@ by {
        assert(name_word(cgas[j].name));
    }
    lemma_word_generics_expand(item, b);
    let ranks = second(lengths.cgas);
    if cgas.len() > 0 {
        lemma_concrete_name_is_numbered(item.ident, ranks);
        if let Some(c) = constructor_name(attributes) {
            assert(plain_constructors(concrete_name_text(item.ident, ranks), c, cgas, ranks));
        }
    }
}

/// An impl block is expanded into one copy for each combination of lengths, in order; each is the
/// block rewritten for the lengths of its combination.
pub proof fn law_one_impl_per_combination(attributes: MetaS, item: ItemImplS, i: int)
    requires
        impl_variants(attributes, item) is Ok,
    ensures
        length_space(attributes, impl_cgas(item)) matches Ok(space) && {
            let v = impl_variants(attributes, item)->Ok_0;
            &&& v.len() == space.total
            &&& 0 <= i < v.len() ==> {
                let lengths = item_at(i as nat, space.lengths, length_vars(impl_cgas(item)));
                RankBindingsS::from_variadic(lengths, impl_cgas(item)) matches Ok(b)
                    && rewrite_impl_block(item, b) == Ok::<ItemImplS, ErrorS>(v[i])
            }
        },
{
    let cgas = impl_cgas(item);
    let space = length_space(attributes, cgas)->Ok_0;
    let results = Seq::new(
        space.total,
        |i: int| impl_variant(item, cgas, item_at(i as nat, space.lengths, length_vars(cgas))),
    );
    lemma_collect(results);
    let v = impl_variants(attributes, item)->Ok_0;
    if 0 <= i < v.len() {
        assert(results[i] == Ok::<ItemImplS, ErrorS>(v[i]));
    }
}

/// `Option` keeps its name; a type inside it is rewritten.
pub proof fn law_option_is_transparent(t: TypeS, b: RankBindingsS)
    ensures
        ({
            let option = PathS {
                qself: None,
                leading_colon: false,
                segments: seq![
                    SegmentS {
                        ident: "Option"@,
                        arguments: ArgumentsS::AngleBracketed {
                            turbofish: false,
                            args: seq![ArgS::Type(t)],
                        },
                    },
                ],
            };
            match rewrite_type(t, b) {
                Err(e) => rewrite_type(TypeS::Path(option), b) == Err::<TypeS, ErrorS>(e),
                Ok(u) => rewrite_type(TypeS::Path(option), b) == Ok::<TypeS, ErrorS>(
                    TypeS::Path(
                        with_last_arguments(
                            option,
                            ArgumentsS::AngleBracketed {
                                turbofish: false,
                                args: seq![ArgS::Type(u)],
                            },
                        ),
                    ),
                ),
            }
        }),
{
    let args = seq![ArgS::Type(t)];
    let results = type_args_results(args, b);
    assert(results.len() == 1);
    assert(results[0] == super::types::rewrite_type_arg(args[0], b));
    assert(super::types::rewrite_type_arg(args[0], b) == match rewrite_type(t, b) {
        Err(e) => Err(e),
        Ok(u) => Ok::<ArgS, ErrorS>(ArgS::Type(u)),
    });
    lemma_collect(results);
    match rewrite_type(t, b) {
        Ok(u) => {
            lemma_collect_all_ok(results, seq![ArgS::Type(u)]);
        },
        Err(e) => {},
    }
}

} // verus!
