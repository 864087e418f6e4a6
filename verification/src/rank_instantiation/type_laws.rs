//! What holds of rewriting types, paths and their generic arguments.
use super::bindings::RankBindingsS;
use super::bodies::{const_new_path, expand_shape, token_args, tokens_args};
use super::body_laws::{each_in_turn, lemma_each_in_turn};
use super::types::{
    arg_pieces, args_pieces, expand_args, expand_cga, generic_args_text, pieces_args, pieces_rank,
    rewrite_path, rewrite_segment, rewrite_type, rewritten_segments, type_args_results,
    types_results, written_path_text, PiecesS,
};
use crate::ast::{ArgS, ArgumentsS, ExprS, MacroTokenS, PathS, SegmentS, StmtS, TypeS};
use crate::error::ErrorS;
use crate::grammar::u32_value;
use crate::lists::{collect, concat, lemma_collect};
use crate::print::{arg_text, expr_text, exprs_texts, path_text, type_text};
use crate::text::{decimal_text, Text};
use vstd::prelude::*;

verus! {

// ---------------------------------------------------------------------------
// Types
// ---------------------------------------------------------------------------

/// Rewriting goes into references, slices, arrays and tuples and keeps everything about them but
/// their element types: a reference its lifetime and its mutability, an array its length unless
/// that is a bound length, which becomes its value.
pub proof fn law_type_is_rewritten_throughout(
    lifetime: Option<Text>,
    mutable: bool,
    elem: Box<TypeS>,
    len: Box<ExprS>,
    elems: Seq<TypeS>,
    t: Text,
    b: RankBindingsS,
)
    ensures
        rewrite_type(*elem, b) matches Ok(u) ==> {
            &&& rewrite_type(TypeS::Reference { lifetime, mutable, elem }, b) == Ok::<TypeS, ErrorS>(
                TypeS::Reference { lifetime, mutable, elem: Box::new(u) },
            )
            &&& rewrite_type(TypeS::Slice(elem), b) == Ok::<TypeS, ErrorS>(
                TypeS::Slice(Box::new(u)),
            )
            &&& !b.inst_u32.contains_key(expr_text(*len)) ==> rewrite_type(
                TypeS::Array { elem, len },
                b,
            ) == Ok::<TypeS, ErrorS>(TypeS::Array { elem: Box::new(u), len })
            &&& b.inst_u32.contains_key(expr_text(*len)) ==> rewrite_type(
                TypeS::Array { elem, len },
                b,
            ) == Ok::<TypeS, ErrorS>(
                TypeS::Array {
                    elem: Box::new(u),
                    len: Box::new(ExprS::Lit(decimal_text(b.inst_u32[expr_text(*len)] as nat))),
                },
            )
        },
        rewrite_type(*elem, b) matches Err(e) ==> {
            &&& rewrite_type(TypeS::Reference { lifetime, mutable, elem }, b) == Err::<
                TypeS,
                ErrorS,
            >(e)
            &&& rewrite_type(TypeS::Slice(elem), b) == Err::<TypeS, ErrorS>(e)
            &&& rewrite_type(TypeS::Array { elem, len }, b) == Err::<TypeS, ErrorS>(e)
        },
        match rewrite_type(TypeS::Tuple(elems), b) {
            Ok(r) => r matches TypeS::Tuple(to) && each_in_turn(
                elems,
                |u: TypeS| rewrite_type(u, b),
                Ok(to),
            ),
            Err(e) => each_in_turn(
                elems,
                |u: TypeS| rewrite_type(u, b),
                Err::<Seq<TypeS>, ErrorS>(e),
            ),
        },
        rewrite_type(TypeS::Verbatim(t), b) == Ok::<TypeS, ErrorS>(TypeS::Verbatim(t)),
{
    let results = types_results(elems, b);
    let step = |u: TypeS| rewrite_type(u, b);
    assert forall|i: int| 0 <= i < elems.len() implies #[trigger] results[i] == step(
        elems[i],
    ) by {}
    lemma_each_in_turn(elems, step, results);
}

/// `Option` keeps its path and its own arguments in their places; each of them that is a type is
/// rewritten.
pub proof fn law_option_arguments_are_rewritten(p: PathS, turbofish: bool, args: Seq<ArgS>, b: RankBindingsS)
    requires
        p.segments.len() > 0,
        p.segments.last().ident == "Option"@,
        p.segments.last().arguments == (ArgumentsS::AngleBracketed { turbofish, args }),
    ensures
        rewrite_type(TypeS::Path(p), b) matches Ok(r) ==> r matches TypeS::Path(q) && q.qself
            == p.qself && q.leading_colon == p.leading_colon && q.segments.len() == p.segments.len()
            && q.segments.drop_last() == p.segments.drop_last() && q.segments.last().ident
            == "Option"@ && match q.segments.last().arguments {
            ArgumentsS::AngleBracketed { turbofish: t, args: to } => t == turbofish && to.len()
                == args.len() && forall|i: int|
                0 <= i < args.len() ==> match args[i] {
                    ArgS::Type(x) => #[trigger] to[i] matches ArgS::Type(y) && rewrite_type(x, b)
                        == Ok::<TypeS, ErrorS>(y),
                    _ => to[i] == args[i],
                },
            _ => false,
        },
{
    let results = type_args_results(args, b);
    lemma_collect(results);
    if let Ok(r) = rewrite_type(TypeS::Path(p), b) {
        let q = r->Path_0;
        let to = collect(results)->Ok_0;
        assert(q.segments.drop_last() =~= p.segments.drop_last());
        assert forall|i: int| 0 <= i < args.len() implies match args[i] {
            ArgS::Type(x) => #[trigger] to[i] matches ArgS::Type(y) && rewrite_type(x, b) == Ok::<
                TypeS,
                ErrorS,
            >(y),
            _ => to[i] == args[i],
        } by {
            assert(results[i] == super::types::rewrite_type_arg(args[i], b));
            assert(results[i] == Ok::<ArgS, ErrorS>(to[i]));
        }
    }
}

// ---------------------------------------------------------------------------
// Paths
// ---------------------------------------------------------------------------

/// The segment `r` is `s` rewritten: one without arguments is as it was, one with arguments has
/// them expanded. A name of an array in scope cannot be a segment.
pub open spec fn segment_rewritten(s: SegmentS, r: SegmentS, b: RankBindingsS, keep_name: bool) -> bool {
    &&& !b.inst_array.contains_key(s.ident)
    &&& match s.arguments {
        ArgumentsS::Empty => r == s,
        ArgumentsS::AngleBracketed { turbofish, args } => expand_args(
            b,
            s.ident,
            turbofish,
            args,
            keep_name,
        ) == Ok::<SegmentS, ErrorS>(r),
        ArgumentsS::Parenthesized(_) => false,
    }
}

/// A rewritten path has a segment for each segment, each rewritten; only the last segment of an
/// expression keeps its name whatever its arguments are.
pub proof fn law_path_is_rewritten(p: PathS, b: RankBindingsS, expr: bool)
    ensures
        rewrite_path(p, b, expr) matches Ok(q) ==> {
            &&& q.qself == p.qself
            &&& q.leading_colon == p.leading_colon
            &&& q.segments.len() == p.segments.len()
            &&& forall|i: int|
                0 <= i < p.segments.len() ==> segment_rewritten(
                    p.segments[i],
                    #[trigger] q.segments[i],
                    b,
                    expr && i == p.segments.len() - 1,
                )
        },
{
    let whole = written_path_text(p);
    let results = rewritten_segments(p.segments, b, expr, whole);
    lemma_collect(results);
    if let Ok(segments) = collect(results) {
        assert forall|i: int| 0 <= i < p.segments.len() implies segment_rewritten(
            p.segments[i],
            #[trigger] segments[i],
            b,
            expr && i == p.segments.len() - 1,
        ) by {
            assert(results[i] == Ok::<SegmentS, ErrorS>(segments[i]));
            lemma_segment(p.segments[i], segments[i], b, expr && i == p.segments.len() - 1, whole);
        }
    }
}

proof fn lemma_segment(s: SegmentS, r: SegmentS, b: RankBindingsS, keep_name: bool, whole: Text)
    requires
        rewrite_segment(s, b, keep_name, whole) == Ok::<SegmentS, ErrorS>(r),
    ensures
        segment_rewritten(s, r, b, keep_name),
{
}

// ---------------------------------------------------------------------------
// Generic arguments
// ---------------------------------------------------------------------------

/// What one generic argument contributes: the arguments that stand for it, and the rank that the
/// type gets from it if it is a shape.
pub open spec fn contributes(a: ArgS, b: RankBindingsS, texts: Seq<Text>, rank: Option<nat>) -> bool {
    match a {
        ArgS::Type(t) => if t is Path && t->Path_0.segments.len() > 0 && b.inst_array.contains_key(
            t->Path_0.segments.last().ident,
        ) {
            let cga = b.inst_array[t->Path_0.segments.last().ident];
            rank == Some(cga.length) && texts.len() == cga.length && forall|i: int|
                0 <= i < texts.len() ==> #[trigger] texts[i] == cga.name + seq!['_']
                    + decimal_text(i as nat)
        } else {
            rank is None && (rewrite_type(t, b) matches Ok(u) && texts == seq![type_text(u)])
        },
        ArgS::Const(ExprS::Block(stmts)) => stmts.len() == 1 && match stmts[0] {
            StmtS::Expr { expr: ExprS::Array(elems), semi: _ } => texts.len() == elems.len() && (
            forall|i: int| 0 <= i < elems.len() ==> #[trigger] texts[i] == expr_text(elems[i])) && (
            elems.len() <= u32::MAX ==> rank == Some(elems.len())),
            StmtS::Expr { expr: ExprS::Repeat { elem, len }, semi: _ } => rank == Some(texts.len())
                && (forall|i: int| 0 <= i < texts.len() ==> #[trigger] texts[i] == expr_text(*elem))
                && match *len {
                ExprS::Path(p) => b.inst_u32.contains_key(path_text(p, true)) && texts.len()
                    == b.inst_u32[path_text(p, true)],
                ExprS::Lit(t) => u32_value(t) == Some(texts.len() as u32) && texts.len()
                    <= u32::MAX,
                _ => false,
            },
            _ => false,
        },
        _ => rank is None && texts == seq![arg_text(a)],
    }
}

proof fn lemma_contributes(a: ArgS, b: RankBindingsS, whole: Text)
    ensures
        arg_pieces(a, b, whole) matches Ok(p) ==> contributes(a, b, p.args, p.rank),
{
    reveal_strlit("_");
    assert("_"@ =~= seq!['_']);
    if let Ok(p) = arg_pieces(a, b, whole) {
        if let ArgS::Const(ExprS::Block(stmts)) = a {
            if let StmtS::Expr { expr: ExprS::Array(elems), semi } = stmts[0] {
                assert forall|i: int| 0 <= i < elems.len() implies #[trigger] p.args[i]
                    == expr_text(elems[i]) by {
                    assert(exprs_texts(elems)[i] == expr_text(elems[i]));
                }
                if elems.len() <= u32::MAX {
                    assert(elems.len() % 0x1_0000_0000 == elems.len()) by (nonlinear_arith)
                        requires
                            elems.len() <= 0xffff_ffff,
                    ;
                }
            }
        }
    }
}

/// Every argument that can contribute something is accepted.
pub proof fn law_argument_is_accepted(
    a: ArgS,
    b: RankBindingsS,
    whole: Text,
    texts: Seq<Text>,
    rank: Option<nat>,
)
    requires
        contributes(a, b, texts, rank),
        a matches ArgS::Type(TypeS::Path(p)) ==> p.segments.len() > 0,
    ensures
        arg_pieces(a, b, whole) matches Ok(p) && p.args == texts,
{
    lemma_contributes(a, b, whole);
    let p = arg_pieces(a, b, whole)->Ok_0;
    assert(arg_pieces(a, b, whole) is Ok);
    assert(p.args =~= texts);
}

/// The rank that a type is named after: that of its last argument that is a shape.
pub open spec fn last_rank(ranks: Seq<Option<nat>>, rank: Option<nat>) -> bool {
    match rank {
        None => forall|i: int| 0 <= i < ranks.len() ==> #[trigger] ranks[i] is None,
        Some(_) => exists|i: int|
            0 <= i < ranks.len() && #[trigger] ranks[i] == rank && forall|j: int|
                i < j < ranks.len() ==> #[trigger] ranks[j] is None,
    }
}

proof fn lemma_last_rank(v: Seq<PiecesS>)
    ensures
        last_rank(Seq::new(v.len(), |i: int| v[i].rank), pieces_rank(v)),
    decreases v.len(),
{
    let ranks = Seq::new(v.len(), |i: int| v[i].rank);
    if v.len() > 0 {
        if v.last().rank is Some {
            assert(ranks[v.len() - 1] == pieces_rank(v));
        } else {
            let w = v.drop_last();
            lemma_last_rank(w);
            let before = Seq::new(w.len(), |i: int| w[i].rank);
            assert forall|i: int| 0 <= i < w.len() implies before[i] == ranks[i] by {}
            match pieces_rank(v) {
                None => {
                    assert forall|i: int| 0 <= i < ranks.len() implies #[trigger] ranks[i] is None by {
                        if i < w.len() {
                            assert(before[i] is None);
                        }
                    }
                },
                Some(n) => {
                    let i = choose|i: int|
                        0 <= i < before.len() && #[trigger] before[i] == Some(n) && forall|j: int|
                            i < j < before.len() ==> #[trigger] before[j] is None;
                    assert(ranks[i] == Some(n));
                    assert forall|j: int| i < j < ranks.len() implies #[trigger] ranks[j] is None by {
                        if j < w.len() {
                            assert(before[j] is None);
                        }
                    }
                },
            }
        }
    }
}

/// The arguments of a rewritten segment are what each of its arguments contributes, in their
/// order; it is named after the rank of its last shape, unless its name is to be kept.
pub proof fn law_segment_is_rewritten(
    b: RankBindingsS,
    ident: Text,
    turbofish: bool,
    args: Seq<ArgS>,
    keep_name: bool,
)
    ensures
        expand_args(b, ident, turbofish, args, keep_name) matches Ok(seg) ==> exists|
            parts: Seq<Seq<Text>>,
            ranks: Seq<Option<nat>>,
            rank: Option<nat>,
        |
            {
                &&& parts.len() == args.len() && ranks.len() == args.len()
                &&& forall|i: int|
                    0 <= i < args.len() ==> contributes(args[i], b, #[trigger] parts[i], ranks[i])
                &&& #[trigger] last_rank(ranks, rank)
                &&& seg.ident == match rank {
                    Some(n) if !keep_name => ident + seq!['_'] + decimal_text(n),
                    _ => ident,
                }
                &&& seg.arguments matches ArgumentsS::AngleBracketed { turbofish: t, args: to } && !t
                    && to.len() == #[trigger] concat(parts).len() && forall|i: int|
                    0 <= i < to.len() ==> #[trigger] to[i] == ArgS::Verbatim(concat(parts)[i])
            },
{
    reveal_strlit("_");
    assert("_"@ =~= seq!['_']);
    let whole = generic_args_text(turbofish, args);
    let results = args_pieces(args, b, whole);
    lemma_collect(results);
    if let Ok(seg) = expand_args(b, ident, turbofish, args, keep_name) {
        let pieces = collect(results)->Ok_0;
        let parts = Seq::new(pieces.len(), |i: int| pieces[i].args);
        let ranks = Seq::new(pieces.len(), |i: int| pieces[i].rank);
        assert forall|i: int| 0 <= i < args.len() implies contributes(
            args[i],
            b,
            #[trigger] parts[i],
            ranks[i],
        ) by {
            assert(results[i] == arg_pieces(args[i], b, whole));
            assert(results[i] == Ok::<PiecesS, ErrorS>(pieces[i]));
            lemma_contributes(args[i], b, whole);
        }
        lemma_last_rank(pieces);
        assert(last_rank(ranks, pieces_rank(pieces)));
        assert(concat(parts) == pieces_args(pieces));
    }
}

// ---------------------------------------------------------------------------
// Shape macros
// ---------------------------------------------------------------------------

/// What one token of a shape macro writes: a literal itself, an array in scope its dimensions, any
/// other name itself, a comma nothing.
pub open spec fn writes(t: MacroTokenS, b: RankBindingsS, texts: Seq<Text>) -> bool {
    match t {
        MacroTokenS::Literal(t) => texts == seq![t],
        MacroTokenS::Ident(name) => if b.inst_array.contains_key(name) {
            let cga = b.inst_array[name];
            texts.len() == cga.length && forall|i: int|
                0 <= i < texts.len() ==> #[trigger] texts[i] == cga.name + seq!['_']
                    + decimal_text(i as nat)
        } else {
            texts == seq![name]
        },
        MacroTokenS::Comma => texts.len() == 0,
        MacroTokenS::Other(_) => false,
    }
}

/// A shape macro becomes `Shape::<{[..]}>::const_new` or `Array::<{[..]}>::const_new` over what
/// its tokens write, in their order.
pub proof fn law_shape_macro_is_expanded(
    kind: Text,
    tokens: Seq<MacroTokenS>,
    source: Text,
    b: RankBindingsS,
)
    ensures
        expand_shape(kind, tokens, source, b) matches Ok(p) ==> exists|parts: Seq<Seq<Text>>|
            {
                &&& parts.len() == tokens.len()
                &&& forall|i: int| 0 <= i < tokens.len() ==> writes(tokens[i], b, #[trigger] parts[i])
                &&& p == const_new_path(
                    if kind == "const_shape"@ { "Shape"@ } else { "Array"@ },
                    #[trigger] concat(parts),
                )
            },
        (exists|i: int| 0 <= i < tokens.len() && #[trigger] tokens[i] is Other) ==> expand_shape(
            kind,
            tokens,
            source,
            b,
        ) is Err,
{
    reveal_strlit("_");
    assert("_"@ =~= seq!['_']);
    let results = tokens_args(tokens, kind, source, b);
    lemma_collect(results);
    if let Ok(p) = expand_shape(kind, tokens, source, b) {
        let parts = collect(results)->Ok_0;
        assert forall|i: int| 0 <= i < tokens.len() implies writes(
            tokens[i],
            b,
            #[trigger] parts[i],
        ) by {
            assert(results[i] == token_args(tokens[i], kind, source, b));
            assert(results[i] == Ok::<Seq<Text>, ErrorS>(parts[i]));
        }
        assert(p == const_new_path(
            if kind == "const_shape"@ { "Shape"@ } else { "Array"@ },
            concat(parts),
        ));
        assert forall|i: int| 0 <= i < tokens.len() implies !(#[trigger] tokens[i] is Other) by {
            assert(writes(tokens[i], b, parts[i]));
        }
    }
}

/// An array by itself becomes the names of its dimensions; anything else is refused.
pub proof fn law_array_becomes_its_dimensions(p: PathS, b: RankBindingsS)
    ensures
        expand_cga(p, b) matches Ok(v) ==> p.segments.len() > 0 && b.inst_array.contains_key(
            p.segments.last().ident,
        ) && v.len() == b.inst_array[p.segments.last().ident].length && forall|i: int|
            0 <= i < v.len() ==> #[trigger] v[i] == b.inst_array[p.segments.last().ident].name
                + seq!['_'] + decimal_text(i as nat),
{
    reveal_strlit("_");
    assert("_"@ =~= seq!['_']);
}

} // verus!
