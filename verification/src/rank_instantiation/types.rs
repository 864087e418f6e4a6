//! Specialisation of generics, paths and types to the lengths in scope.
use super::bindings::{dim_texts, dims, ranked, ranked_text, RankBindings, RankBindingsS};
use crate::ast::{
    arg_s, args_s, exprs_s, segment_s, segments_s, stmt_s, stmts_s, type_s, types_s, ArgS,
    ArgumentsS, ExprS, PathS, SegmentS, StmtS, TypeS,
};
use crate::ast::{
    Expr, GenericArgument, Path, PathArguments, PathSegment, Stmt, Type,
};
use crate::copy::{
    clone_arg, clone_expr, clone_opt, clone_path, clone_qself, clone_segment, clone_type,
};
use crate::error::{agrees, error_at, Error, ErrorS, SpannedError};
use crate::grammar::{
    args_source, generic_args_refusal, judge, number_word, parse_u32, refuse_expr,
    refuse_generic_args, simple_args, splits_into_tokens, tokenizes, u32_refusal, u32_value,
    verdict,
};
use crate::lists::{collect, concat, lemma_collect_step};
use crate::print::{
    angle_text, arg_text, args_texts, expr_text, exprs_texts, path_text, print_angle, print_arg,
    print_args, print_expr, print_exprs, print_path, print_type, type_text,
};
use crate::text::{
    append_all, cat2, cat3, decimal, decimal_text, join, same, texts, Text,
};
use vstd::prelude::*;

verus! {

// ---------------------------------------------------------------------------
// Generic arguments
// ---------------------------------------------------------------------------

/// What one generic argument becomes: a list of arguments, and the rank that it
/// brings to the type that it is an argument of, if any.
pub struct PiecesS {
    pub args: Seq<Text>,
    pub rank: Option<nat>,
}

pub struct Pieces {
    pub args: Vec<String>,
    pub rank: Option<u32>,
}

impl View for Pieces {
    type V = PiecesS;

    open spec fn view(&self) -> PiecesS {
        PiecesS {
            args: texts(self.args@),
            rank: match self.rank {
                Some(n) => Some(n as nat),
                None => None,
            },
        }
    }
}

/// An argument that stays as it is.
pub open spec fn kept(t: Text) -> PiecesS {
    PiecesS { args: seq![t], rank: None }
}

fn keep(t: String) -> (r: Pieces)
    ensures
        r@ == kept(t@),
{
    let mut args: Vec<String> = Vec::new();
    let ghost text = t@;
    args.push(t);
    assert(texts(args@) =~= seq![text]);
    Pieces { args, rank: None }
}

/// The source of a list of generic arguments.
pub open spec fn generic_args_text(turbofish: bool, args: Seq<ArgS>) -> Text {
    (if turbofish { ":: "@ } else { ""@ }) + angle_text(args_texts(args))
}

/// `{[x; n]}`: the length is a bound length variable or a literal.
pub open spec fn repeat_pieces(
    elem: ExprS,
    len: ExprS,
    b: RankBindingsS,
    whole: Text,
) -> Result<PiecesS, ErrorS> {
    match len {
        ExprS::Path(p) => {
            let var = path_text(p, true);
            if !b.inst_u32.contains_key(var) {
                Err(error_at(var, "Expected instance for generic argument "@ + var))
            } else {
                Ok(repeated(elem, b.inst_u32[var] as nat))
            }
        },
        ExprS::Lit(t) => match u32_value(t) {
            Some(n) => Ok(repeated(elem, n as nat)),
            None => Err(error_at(t, "Failed to parse repeat length as u32: "@ + u32_refusal(t))),
        },
        _ => Err(error_at(whole, "Unexpected repeat expression."@)),
    }
}

pub open spec fn repeated(elem: ExprS, n: nat) -> PiecesS {
    PiecesS { args: Seq::new(n, |i: int| expr_text(elem)), rank: Some(n) }
}

/// `{..}` as an argument: an array literal, whose elements become the arguments.
pub open spec fn block_pieces(stmts: Seq<StmtS>, b: RankBindingsS, whole: Text) -> Result<
    PiecesS,
    ErrorS,
> {
    let at = expr_text(ExprS::Block(stmts));
    if stmts.len() != 1 {
        Err(
            error_at(
                at,
                "Expected exactly 1 statement in block expression, got "@ + decimal_text(
                    stmts.len(),
                ),
            ),
        )
    } else {
        match stmts[0] {
            StmtS::Expr { expr, semi: _ } => match expr {
                ExprS::Array(elems) => Ok(
                    PiecesS {
                        args: exprs_texts(elems),
                        rank: Some((elems.len() % 0x1_0000_0000) as nat),
                    },
                ),
                ExprS::Repeat { elem, len } => repeat_pieces(*elem, *len, b, whole),
                _ => Err(error_at(at, "Unexpected block expression."@)),
            },
            StmtS::Composite(_) => Err(error_at(at, "Unexpected block expression."@)),
        }
    }
}

/// What one generic argument becomes. `whole` is the source of the list it is in. An array
/// becomes its dimensions; any other type is specialised.
pub open spec fn arg_pieces(a: ArgS, b: RankBindingsS, whole: Text) -> Result<PiecesS, ErrorS>
    decreases a, 0nat,
{
    match a {
        ArgS::Type(t) => if t is Path && t->Path_0.segments.len() == 0 {
            Err(error_at(type_text(t), "Expected at least one path segment"@))
        } else if t is Path && b.inst_array.contains_key(t->Path_0.segments.last().ident) {
            let cga = b.inst_array[t->Path_0.segments.last().ident];
            Ok(PiecesS { args: dim_texts(cga.name, cga.length), rank: Some(cga.length) })
        } else {
            match rewrite_type(t, b) {
                Err(e) => Err(e),
                Ok(t) => Ok(kept(type_text(t))),
            }
        },
        ArgS::Const(ExprS::Block(stmts)) => block_pieces(stmts, b, whole),
        _ => Ok(kept(arg_text(a))),
    }
}

pub open spec fn args_pieces(args: Seq<ArgS>, b: RankBindingsS, whole: Text) -> Seq<
    Result<PiecesS, ErrorS>,
>
    decreases args, 0nat,
{
    Seq::new(
        args.len(),
        |i: int| if 0 <= i < args.len() { arg_pieces(args[i], b, whole) } else { arbitrary() },
    )
}

/// The arguments of a list of pieces.
pub open spec fn pieces_args(v: Seq<PiecesS>) -> Seq<Text> {
    concat(Seq::new(v.len(), |i: int| v[i].args))
}

/// The last rank that a list of pieces brings.
pub open spec fn pieces_rank(v: Seq<PiecesS>) -> Option<nat>
    decreases v.len(),
{
    if v.len() == 0 {
        None
    } else if v.last().rank is Some {
        v.last().rank
    } else {
        pieces_rank(v.drop_last())
    }
}

/// A name at a rank, where there is one.
pub open spec fn at_rank(ident: Text, rank: Option<nat>) -> Text {
    match rank {
        Some(n) => ranked_text(ident, n),
        None => ident,
    }
}

/// Arguments as they stand in the source.
pub open spec fn verbatim_args(args: Seq<Text>) -> Seq<ArgS> {
    Seq::new(args.len(), |i: int| ArgS::Verbatim(args[i]))
}

pub open spec fn args_failure(args: Seq<Text>) -> Text {
    "Failed to parse angle bracketed args '"@ + args_source(args) + "'"@
}

/// The verdict on a list of generic arguments. Those of plain form always pass.
pub open spec fn args_verdict(at: Text, args: Seq<Text>) -> Result<(), ErrorS> {
    if simple_args(args) {
        Ok(())
    } else {
        verdict(
            at,
            args_failure(args),
            tokenizes(args_source(args)),
            generic_args_refusal(args_source(args)),
        )
    }
}

/// Expands the generic arguments of a path segment: each array argument is replaced
/// by its scalar dimensions and, unless `skip_suffix`, the name gets the rank.
pub open spec fn expand_args(
    b: RankBindingsS,
    ident: Text,
    turbofish: bool,
    args: Seq<ArgS>,
    skip_suffix: bool,
) -> Result<SegmentS, ErrorS>
    decreases args, 1nat,
{
    match collect(args_pieces(args, b, generic_args_text(turbofish, args))) {
        Err(e) => Err(e),
        Ok(pieces) => {
            let out = pieces_args(pieces);
            match args_verdict(ident, out) {
                Err(e) => Err(e),
                Ok(_) => Ok(
                    SegmentS {
                        ident: if skip_suffix { ident } else { at_rank(ident, pieces_rank(pieces)) },
                        arguments: ArgumentsS::AngleBracketed {
                            turbofish: false,
                            args: verbatim_args(out),
                        },
                    },
                ),
            }
        },
    }
}

fn repeat_piece(elem: &Expr, len: &Expr, b: &RankBindings, whole: &str) -> (r: Result<Pieces, Error>)
    ensures
        agrees(r, repeat_pieces(elem@, len@, b@, whole@)),
{
    let n: u32 = match len {
        Expr::Path(p) => {
            let var = print_path(p, true);
            match b.length(var.as_str()) {
                Some(n) => n,
                None => {
                    let m = cat2("Expected instance for generic argument ", var.as_str());
                    return var.err(m.as_str());
                },
            }
        },
        Expr::Lit(t) => match parse_u32(t.as_str()) {
            Ok(n) => n,
            Err(reason) => {
                let m = cat2("Failed to parse repeat length as u32: ", reason.as_str());
                return t.err(m.as_str());
            },
        },
        _ => {
            return whole.to_owned().err("Unexpected repeat expression.");
        },
    };
    let text = print_expr(elem);
    let mut args: Vec<String> = Vec::new();
    let mut i: u32 = 0;
    while i < n
        invariant
            i <= n,
            args@.len() == i,
            text@ == expr_text(elem@),
            forall|j: int| 0 <= j < i ==> (#[trigger] args@[j])@ == text@,
        decreases n - i,
    {
        args.push(text.clone());
        i = i + 1;
    }
    assert(texts(args@) =~= repeated(elem@, n as nat).args);
    Ok(Pieces { args, rank: Some(n) })
}

fn low_bits(n: usize) -> (r: u32)
    ensures
        r == n as nat % 0x1_0000_0000,
{
    (n as u64 % 0x1_0000_0000u64) as u32
}

fn block_piece(block: &Expr, stmts: &Vec<Stmt>, b: &RankBindings, whole: &str) -> (r: Result<
    Pieces,
    Error,
>)
    requires
        block@ == ExprS::Block(stmts_s(stmts@)),
    ensures
        agrees(r, block_pieces(stmts_s(stmts@), b@, whole@)),
{
    if stmts.len() != 1 {
        let n = decimal(stmts.len());
        let m = cat2("Expected exactly 1 statement in block expression, got ", n.as_str());
        return block.err(m.as_str());
    }
    assert(stmts_s(stmts@)[0] == stmt_s(stmts@[0]));
    match &stmts[0] {
        Stmt::Expr { expr, semi: _ } => match expr {
            Expr::Array(elems) => {
                assert(exprs_s(elems@).len() == elems@.len());
                Ok(Pieces { args: print_exprs(elems), rank: Some(low_bits(elems.len())) })
            },
            Expr::Repeat { elem, len } => repeat_piece(elem, len, b, whole),
            _ => block.err("Unexpected block expression."),
        },
        Stmt::Composite(_) => block.err("Unexpected block expression."),
    }
}

fn arg_piece(a: &GenericArgument, b: &RankBindings, whole: &str) -> (r: Result<Pieces, Error>)
    ensures
        agrees(r, arg_pieces(a@, b@, whole@)),
    decreases a, 0nat,
{
    match a {
        GenericArgument::Type(t) => {
            if let Type::Path(p) = t {
                assert(segments_s(p.segments@).len() == p.segments@.len());
                if p.segments.len() == 0 {
                    return t.err("Expected at least one path segment");
                }
                let last = &p.segments[p.segments.len() - 1];
                assert(segments_s(p.segments@).last() == segment_s(*last));
                if let Some(cga) = b.array(last.ident.as_str()) {
                    return Ok(
                        Pieces { args: dims(cga.name.as_str(), cga.length), rank: Some(cga.length) },
                    );
                }
            }
            match rewrite_type_for_rank(t, b) {
                Ok(t) => Ok(keep(print_type(&t))),
                Err(e) => Err(e),
            }
        },
        GenericArgument::Const(e) => match e {
            Expr::Block(stmts) => block_piece(e, stmts, b, whole),
            _ => Ok(keep(print_arg(a))),
        },
        _ => Ok(keep(print_arg(a))),
    }
}

/// Reads a list of generic arguments.
fn check_args(at: &str, args: &Vec<String>) -> (r: Result<(), Error>)
    ensures
        match r {
            Ok(_) => args_verdict(at@, texts(args@)) is Ok,
            Err(e) => args_verdict(at@, texts(args@)) == Err::<(), ErrorS>(e@),
        },
{
    let body = join(args, ",");
    let source = cat3("<", body.as_str(), ">");
    assert(source@ == args_source(texts(args@)));
    let failure = cat3("Failed to parse angle bracketed args '", source.as_str(), "'");
    judge(
        at,
        failure.as_str(),
        splits_into_tokens(source.as_str()),
        refuse_generic_args(source.as_str()),
    )
}

fn to_verbatim(args: Vec<String>) -> (r: Vec<GenericArgument>)
    ensures
        args_s(r@) == verbatim_args(texts(args@)),
{
    let mut out: Vec<GenericArgument> = Vec::new();
    let mut i: usize = 0;
    while i < args.len()
        invariant
            i <= args@.len(),
            out@.len() == i,
            forall|j: int| 0 <= j < i ==> arg_s(#[trigger] out@[j]) == ArgS::Verbatim(args@[j]@),
        decreases args@.len() - i,
    {
        out.push(GenericArgument::Verbatim(args[i].clone()));
        i = i + 1;
    }
    assert(args_s(out@) =~= verbatim_args(texts(args@)));
    out
}

proof fn lemma_pieces_step(v: Seq<PiecesS>, i: int)
    requires
        0 <= i < v.len(),
    ensures
        pieces_args(v.take(i + 1)) == pieces_args(v.take(i)) + v[i].args,
        pieces_rank(v.take(i + 1)) == if v[i].rank is Some {
            v[i].rank
        } else {
            pieces_rank(v.take(i))
        },
{
    let lists = Seq::new(v.take(i + 1).len(), |k: int| v.take(i + 1)[k].args);
    assert(lists.drop_last() =~= Seq::new(v.take(i).len(), |k: int| v.take(i)[k].args));
    assert(v.take(i + 1).drop_last() =~= v.take(i));
}

/// Expand a path segment's generic args per rank instance: substitute each CGA arg
/// for its scalar dim refs (e.g. `S` → `S_0, S_1, …`) and (unless `skip_suffix`)
/// suffix the path's ident with the rank.
pub fn instantiate_cga_args(
    instances: &RankBindings,
    type_ident: &str,
    turbofish: bool,
    generic_args: &Vec<GenericArgument>,
    skip_suffix: bool,
) -> (r: Result<PathSegment, Error>)
    ensures
        agrees(
            r,
            expand_args(instances@, type_ident@, turbofish, args_s(generic_args@), skip_suffix),
        ),
    decreases generic_args, 1nat,
{
    let angle = print_angle(&print_args(generic_args));
    let whole = cat2(if turbofish { ":: " } else { "" }, angle.as_str());
    let ghost margs = args_s(generic_args@);
    let ghost results = args_pieces(margs, instances@, whole@);
    let ghost mut pieces: Seq<PiecesS> = seq![];
    let mut out: Vec<String> = Vec::new();
    let mut rank: Option<u32> = None;
    let mut i: usize = 0;
    assert(texts(out@) =~= pieces_args(pieces));
    assert(results.take(0) =~= seq![]);
    while i < generic_args.len()
        invariant
            i <= generic_args@.len(),
            margs == args_s(generic_args@),
            whole@ == generic_args_text(turbofish, margs),
            results == args_pieces(margs, instances@, whole@),
            results.len() == generic_args@.len(),
            collect(results.take(i as int)) == Ok::<Seq<PiecesS>, ErrorS>(pieces),
            texts(out@) == pieces_args(pieces),
            pieces_rank(pieces) == (match rank {
                Some(n) => Some(n as nat),
                None => None,
            }),
        decreases generic_args@.len() - i,
    {
        proof {
            lemma_collect_step(results, i as int);
            assert(results[i as int] == arg_pieces(generic_args@[i as int]@, instances@, whole@));
        }
        let piece = match arg_piece(&generic_args[i], instances, whole.as_str()) {
            Ok(p) => p,
            Err(e) => {
                return Err(e);
            },
        };
        proof {
            let more = pieces.push(piece@);
            lemma_pieces_step(more, pieces.len() as int);
            assert(more.take(pieces.len() as int) =~= pieces);
            assert(more.take((pieces.len() + 1) as int) =~= more);
            pieces = more;
        }
        if piece.rank.is_some() {
            rank = piece.rank;
        }
        append_all(&mut out, &piece.args);
        i = i + 1;
    }
    assert(results.take(i as int) =~= results);
    match check_args(type_ident, &out) {
        Err(e) => {
            return Err(e);
        },
        Ok(_) => {},
    }
    let ident = match rank {
        Some(n) => if skip_suffix { type_ident.to_owned() } else { ranked(type_ident, n) },
        None => type_ident.to_owned(),
    };
    Ok(
        PathSegment {
            ident,
            arguments: PathArguments::AngleBracketed { turbofish: false, args: to_verbatim(out) },
        },
    )
}

// ---------------------------------------------------------------------------
// Paths
// ---------------------------------------------------------------------------

/// A path without the `<T as Trait>` in front of it, as it is written.
pub open spec fn written_path_text(p: PathS) -> Text {
    path_text(PathS { qself: None, ..p }, false)
}

pub fn print_written_path(p: &Path) -> (r: String)
    ensures
        r@ == written_path_text(p@),
{
    let mut bare = clone_path(p);
    bare.qself = None;
    print_path(&bare, false)
}

/// A path that is a single name.
pub open spec fn name_path(name: Text) -> PathS {
    PathS {
        qself: None,
        leading_colon: false,
        segments: seq![SegmentS { ident: name, arguments: ArgumentsS::Empty }],
    }
}

pub fn make_name_path(name: String) -> (r: Path)
    ensures
        r@ == name_path(name@),
{
    let ghost text = name@;
    let mut segments: Vec<PathSegment> = Vec::new();
    segments.push(PathSegment { ident: name, arguments: PathArguments::Empty });
    assert(segments_s(segments@) =~= name_path(text).segments);
    Path { qself: None, leading_colon: false, segments }
}

/// The dimensions that stand for an array, read as generic arguments.
pub open spec fn expand_cga(p: PathS, b: RankBindingsS) -> Result<Seq<Text>, ErrorS> {
    let at = path_text(p, false);
    if p.segments.len() == 0 {
        Err(error_at(at, "Expected at least one path segment in instantiate_cga"@))
    } else if !b.inst_array.contains_key(p.segments.last().ident) {
        Err(error_at(at, written_path_text(p) + " is not a const generic array."@))
    } else {
        let cga = b.inst_array[p.segments.last().ident];
        match args_verdict(at, dim_texts(cga.name, cga.length)) {
            Err(e) => Err(e),
            Ok(_) => Ok(dim_texts(cga.name, cga.length)),
        }
    }
}

/// Expands a CGA path into angle-bracketed individual const generic arguments.
pub fn instantiate_cga(path: &Path, instances: &RankBindings) -> (r: Result<Vec<String>, Error>)
    ensures
        match r {
            Ok(v) => expand_cga(path@, instances@) == Ok::<Seq<Text>, ErrorS>(texts(v@)),
            Err(e) => expand_cga(path@, instances@) == Err::<Seq<Text>, ErrorS>(e@),
        },
{
    assert(segments_s(path.segments@).len() == path.segments@.len());
    if path.segments.len() == 0 {
        return path.err("Expected at least one path segment in instantiate_cga");
    }
    let last = &path.segments[path.segments.len() - 1];
    assert(segments_s(path.segments@).last() == segment_s(*last));
    match instances.array(last.ident.as_str()) {
        None => {
            let shown = print_written_path(path);
            let m = cat2(shown.as_str(), " is not a const generic array.");
            path.err(m.as_str())
        },
        Some(cga) => {
            let args = dims(cga.name.as_str(), cga.length);
            let at = print_path(path, false);
            match check_args(at.as_str(), &args) {
                Err(e) => Err(e),
                Ok(_) => Ok(args),
            }
        },
    }
}

/// One segment of a path. The name of an array cannot stand there. `whole` is the source of
/// the path.
pub open spec fn rewrite_segment(seg: SegmentS, b: RankBindingsS, keep_name: bool, whole: Text) -> Result<
    SegmentS,
    ErrorS,
>
    decreases seg, 0nat,
{
    if b.inst_array.contains_key(seg.ident) {
        Err(error_at(seg.ident, "Unexpected use of rewrite_path_for_rank for "@ + whole))
    } else {
        match seg.arguments {
            ArgumentsS::AngleBracketed { turbofish, args } => expand_args(
                b,
                seg.ident,
                turbofish,
                args,
                keep_name,
            ),
            ArgumentsS::Empty => Ok(seg),
            ArgumentsS::Parenthesized(_) => Err(error_at(seg.ident, "Unexpected Path arguments."@)),
        }
    }
}

/// The segments of a path. In an expression, the last one keeps its name.
pub open spec fn rewritten_segments(v: Seq<SegmentS>, b: RankBindingsS, expr: bool, whole: Text) -> Seq<
    Result<SegmentS, ErrorS>,
>
    decreases v, 0nat,
{
    Seq::new(
        v.len(),
        |i: int|
            if 0 <= i < v.len() {
                rewrite_segment(v[i], b, expr && i == v.len() - 1, whole)
            } else {
                arbitrary()
            },
    )
}

/// A path with every segment specialised. In an expression, the last segment names a
/// function or an associated item and keeps its name.
pub open spec fn rewrite_path(p: PathS, b: RankBindingsS, expr: bool) -> Result<PathS, ErrorS>
    decreases p, 0nat,
{
    match collect(rewritten_segments(p.segments, b, expr, written_path_text(p))) {
        Err(e) => Err(e),
        Ok(segments) => Ok(PathS { segments, ..p }),
    }
}

/// Where a path is being rewritten. Drives whether the *last* segment's ident gets
/// rank-instance-suffixed when it carries a CGA arg.
///
/// In a type position every segment whose generic args reference a CGA is a variadic
/// type: `Tile<E, S>` is `Tile_R<E, S_0, …>`. In an expression path the last segment
/// names a function or associated item and keeps the unsuffixed name; earlier segments
/// are still type-like and still get suffixed.
#[derive(Debug, Clone, Copy)]
pub enum PathContext {
    Type,
    ExprPath,
}

/// Desugars variadic types in a path, replacing CGA syntax with concrete type names and
/// args.
pub fn rewrite_path_for_rank(path: &Path, instances: &RankBindings, context: PathContext) -> (r:
    Result<Path, Error>)
    ensures
        agrees(r, rewrite_path(path@, instances@, context is ExprPath)),
    decreases path, 0nat,
{
    let ghost p = path@;
    let ghost expr = context is ExprPath;
    let ghost whole = written_path_text(p);
    let ghost results = rewritten_segments(p.segments, instances@, expr, whole);
    let mut out: Vec<PathSegment> = Vec::new();
    let mut i: usize = 0;
    assert(segments_s(path.segments@).len() == path.segments@.len());
    assert(results.take(0) =~= seq![]);
    assert(segments_s(out@) =~= seq![]);
    while i < path.segments.len()
        invariant
            i <= path.segments@.len(),
            p == path@,
            p.segments.len() == path.segments@.len(),
            expr == (context is ExprPath),
            whole == written_path_text(p),
            results == rewritten_segments(p.segments, instances@, expr, whole),
            results.len() == path.segments@.len(),
            collect(results.take(i as int)) == Ok::<Seq<SegmentS>, ErrorS>(segments_s(out@)),
        decreases path.segments@.len() - i,
    {
        let seg = &path.segments[i];
        assert(p.segments[i as int] == segment_s(*seg));
        proof {
            lemma_collect_step(results, i as int);
            assert(results[i as int] == rewrite_segment(
                segment_s(*seg),
                instances@,
                expr && i == p.segments.len() - 1,
                whole,
            ));
        }
        if instances.array(seg.ident.as_str()).is_some() {
            let shown = print_written_path(path);
            let m = cat2("Unexpected use of rewrite_path_for_rank for ", shown.as_str());
            return seg.ident.err(m.as_str());
        }
        let skip_suffix = match context {
            PathContext::ExprPath => i == path.segments.len() - 1,
            PathContext::Type => false,
        };
        let done = match &seg.arguments {
            PathArguments::AngleBracketed { turbofish, args } => match instantiate_cga_args(
                instances,
                seg.ident.as_str(),
                *turbofish,
                args,
                skip_suffix,
            ) {
                Ok(s) => s,
                Err(e) => {
                    return Err(e);
                },
            },
            PathArguments::Empty => clone_segment(seg),
            PathArguments::Parenthesized(_) => {
                return seg.ident.err("Unexpected Path arguments.");
            },
        };
        let ghost prev = out@;
        out.push(done);
        assert(segments_s(out@) =~= segments_s(prev).push(done@));
        i = i + 1;
    }
    assert(results.take(i as int) =~= results);
    Ok(
        Path {
            qself: clone_qself(&path.qself),
            leading_colon: path.leading_colon,
            segments: out,
        },
    )
}

// ---------------------------------------------------------------------------
// Types
// ---------------------------------------------------------------------------

/// The length of an array type: a bound length variable is replaced by its value.
pub open spec fn rewrite_array_len(len: ExprS, b: RankBindingsS) -> ExprS {
    let var = expr_text(len);
    if b.inst_u32.contains_key(var) {
        ExprS::Lit(decimal_text(b.inst_u32[var] as nat))
    } else {
        len
    }
}

/// A type specialised to the lengths in scope. `Option` itself is never an array type:
/// only the types among its arguments are specialised.
pub open spec fn rewrite_type(t: TypeS, b: RankBindingsS) -> Result<TypeS, ErrorS>
    decreases t, 0nat,
{
    match t {
        TypeS::Path(p) => if p.segments.len() == 0 {
            Err(
                error_at(
                    type_text(t),
                    "Expected at least one path segment in rewrite_type_for_rank"@,
                ),
            )
        } else if p.segments.last().ident == "Option"@ {
            match p.segments.last().arguments {
                ArgumentsS::AngleBracketed { turbofish, args } => match collect(
                    type_args_results(args, b),
                ) {
                    Err(e) => Err(e),
                    Ok(args) => Ok(
                        TypeS::Path(
                            with_last_arguments(
                                p,
                                ArgumentsS::AngleBracketed { turbofish, args },
                            ),
                        ),
                    ),
                },
                _ => Ok(t),
            }
        } else {
            match rewrite_path(p, b, false) {
                Err(e) => Err(e),
                Ok(p) => Ok(TypeS::Path(p)),
            }
        },
        TypeS::Array { elem, len } => match rewrite_type(*elem, b) {
            Err(e) => Err(e),
            Ok(elem) => Ok(
                TypeS::Array { elem: Box::new(elem), len: Box::new(rewrite_array_len(*len, b)) },
            ),
        },
        TypeS::Reference { lifetime, mutable, elem } => match rewrite_type(*elem, b) {
            Err(e) => Err(e),
            Ok(elem) => Ok(TypeS::Reference { lifetime, mutable, elem: Box::new(elem) }),
        },
        TypeS::Tuple(elems) => match collect(types_results(elems, b)) {
            Err(e) => Err(e),
            Ok(elems) => Ok(TypeS::Tuple(elems)),
        },
        TypeS::Slice(elem) => match rewrite_type(*elem, b) {
            Err(e) => Err(e),
            Ok(elem) => Ok(TypeS::Slice(Box::new(elem))),
        },
        TypeS::Verbatim(_) => Ok(t),
    }
}

pub open spec fn with_last_arguments(p: PathS, arguments: ArgumentsS) -> PathS {
    let last = p.segments.len() - 1;
    PathS {
        segments: p.segments.update(last, SegmentS { ident: p.segments[last].ident, arguments }),
        ..p
    }
}

pub open spec fn types_results(v: Seq<TypeS>, b: RankBindingsS) -> Seq<Result<TypeS, ErrorS>>
    decreases v, 0nat,
{
    Seq::new(v.len(), |i: int| if 0 <= i < v.len() { rewrite_type(v[i], b) } else { arbitrary() })
}

/// The types among a list of generic arguments specialised, the rest unchanged.
pub open spec fn type_args_results(v: Seq<ArgS>, b: RankBindingsS) -> Seq<Result<ArgS, ErrorS>>
    decreases v, 0nat,
{
    Seq::new(
        v.len(),
        |i: int| if 0 <= i < v.len() { rewrite_type_arg(v[i], b) } else { arbitrary() },
    )
}

pub open spec fn rewrite_type_arg(a: ArgS, b: RankBindingsS) -> Result<ArgS, ErrorS>
    decreases a, 0nat,
{
    match a {
        ArgS::Type(t) => match rewrite_type(t, b) {
            Err(e) => Err(e),
            Ok(t) => Ok(ArgS::Type(t)),
        },
        _ => Ok(a),
    }
}


/// Replaces a bound length variable by its value.
fn array_len(array: &Type, len: &Expr, b: &RankBindings) -> (r: Result<Expr, Error>)
    ensures
        r matches Ok(e) && e@ == rewrite_array_len(len@, b@),
{
    let var = print_expr(len);
    match b.length(var.as_str()) {
        None => Ok(clone_expr(len)),
        Some(n) => {
            let text = decimal(n as usize);
            let at = print_type(array);
            let failure = cat3("Failed to parse array length '", text.as_str(), "'");
            proof {
                lemma_decimal_is_number(n as nat);
            }
            match judge(
                at.as_str(),
                failure.as_str(),
                splits_into_tokens(text.as_str()),
                refuse_expr(text.as_str()),
            ) {
                Err(e) => Err(e),
                Ok(_) => Ok(Expr::Lit(text)),
            }
        },
    }
}

/// Recursively desugars const generic array syntax within a type.
pub fn rewrite_type_for_rank(ty: &Type, instances: &RankBindings) -> (r: Result<Type, Error>)
    ensures
        agrees(r, rewrite_type(ty@, instances@)),
    decreases ty, 0nat,
{
    match ty {
        Type::Path(p) => match rewrite_type_path(p, instances) {
            Ok(p) => Ok(Type::Path(p)),
            Err(e) => Err(e),
        },
        Type::Array { elem, len } => {
            let elem = match rewrite_type_for_rank(elem, instances) {
                Ok(t) => t,
                Err(e) => {
                    return Err(e);
                },
            };
            match array_len(ty, len, instances) {
                Ok(len) => Ok(Type::Array { elem: Box::new(elem), len: Box::new(len) }),
                Err(e) => Err(e),
            }
        },
        Type::Reference { lifetime, mutable, elem } => match rewrite_type_for_rank(
            elem,
            instances,
        ) {
            Ok(elem) => Ok(
                Type::Reference {
                    lifetime: clone_opt(lifetime),
                    mutable: *mutable,
                    elem: Box::new(elem),
                },
            ),
            Err(e) => Err(e),
        },
        Type::Tuple(elems) => match rewrite_tuple(elems, instances) {
            Ok(elems) => Ok(Type::Tuple(elems)),
            Err(e) => Err(e),
        },
        Type::Slice(elem) => match rewrite_type_for_rank(elem, instances) {
            Ok(elem) => Ok(Type::Slice(Box::new(elem))),
            Err(e) => Err(e),
        },
        Type::Verbatim(_) => Ok(clone_type(ty)),
    }
}

fn rewrite_tuple(elems: &Vec<Type>, instances: &RankBindings) -> (r: Result<Vec<Type>, Error>)
    ensures
        match r {
            Ok(v) => collect(types_results(types_s(elems@), instances@)) == Ok::<
                Seq<TypeS>,
                ErrorS,
            >(types_s(v@)),
            Err(e) => collect(types_results(types_s(elems@), instances@)) == Err::<
                Seq<TypeS>,
                ErrorS,
            >(e@),
        },
    decreases elems, 0nat,
{
    let ghost models = types_s(elems@);
    let ghost results = types_results(models, instances@);
    let mut out: Vec<Type> = Vec::new();
    let mut i: usize = 0;
    assert(results.take(0) =~= seq![]);
    assert(types_s(out@) =~= seq![]);
    while i < elems.len()
        invariant
            i <= elems@.len(),
            models == types_s(elems@),
            results == types_results(models, instances@),
            results.len() == elems@.len(),
            collect(results.take(i as int)) == Ok::<Seq<TypeS>, ErrorS>(types_s(out@)),
        decreases elems@.len() - i,
    {
        proof {
            lemma_collect_step(results, i as int);
            assert(results[i as int] == rewrite_type(type_s(elems@[i as int]), instances@));
        }
        let done = match rewrite_type_for_rank(&elems[i], instances) {
            Ok(t) => t,
            Err(e) => {
                return Err(e);
            },
        };
        let ghost prev = out@;
        out.push(done);
        assert(types_s(out@) =~= types_s(prev).push(done@));
        i = i + 1;
    }
    assert(results.take(i as int) =~= results);
    Ok(out)
}

fn rewrite_type_path(p: &Path, instances: &RankBindings) -> (r: Result<Path, Error>)
    ensures
        match r {
            Ok(q) => rewrite_type(TypeS::Path(p@), instances@) == Ok::<TypeS, ErrorS>(
                TypeS::Path(q@),
            ),
            Err(e) => rewrite_type(TypeS::Path(p@), instances@) == Err::<TypeS, ErrorS>(e@),
        },
    decreases p, 1nat,
{
    let ghost ty = TypeS::Path(p@);
    assert(p@.segments.len() == p.segments@.len());
    assert(type_text(ty) == path_text(p@, false));
    if p.segments.len() == 0 {
        return p.err("Expected at least one path segment in rewrite_type_for_rank");
    }
    let last: usize = p.segments.len() - 1;
    let seg = &p.segments[last];
    assert(p@.segments.last() == segment_s(*seg));
    if same(seg.ident.as_str(), "Option") {
        match &seg.arguments {
            PathArguments::AngleBracketed { turbofish, args } => {
                let args = match rewrite_option_args(args, instances) {
                    Ok(a) => a,
                    Err(e) => {
                        return Err(e);
                    },
                };
                Ok(
                    replace_last_arguments(
                        p,
                        PathArguments::AngleBracketed { turbofish: *turbofish, args },
                    ),
                )
            },
            _ => Ok(clone_path(p)),
        }
    } else {
        rewrite_path_for_rank(p, instances, PathContext::Type)
    }
}

/// Desugars the types among the arguments of `Option`.
fn rewrite_option_args(args: &Vec<GenericArgument>, instances: &RankBindings) -> (r: Result<
    Vec<GenericArgument>,
    Error,
>)
    ensures
        match r {
            Ok(v) => collect(type_args_results(args_s(args@), instances@)) == Ok::<
                Seq<ArgS>,
                ErrorS,
            >(args_s(v@)),
            Err(e) => collect(type_args_results(args_s(args@), instances@)) == Err::<
                Seq<ArgS>,
                ErrorS,
            >(e@),
        },
    decreases args, 0nat,
{
    let ghost models = args_s(args@);
    let ghost results = type_args_results(models, instances@);
    let mut out: Vec<GenericArgument> = Vec::new();
    let mut i: usize = 0;
    assert(results.take(0) =~= seq![]);
    assert(args_s(out@) =~= seq![]);
    while i < args.len()
        invariant
            i <= args@.len(),
            models == args_s(args@),
            results == type_args_results(models, instances@),
            results.len() == args@.len(),
            collect(results.take(i as int)) == Ok::<Seq<ArgS>, ErrorS>(args_s(out@)),
        decreases args@.len() - i,
    {
        proof {
            lemma_collect_step(results, i as int);
            assert(results[i as int] == rewrite_type_arg(arg_s(args@[i as int]), instances@));
        }
        let done = match &args[i] {
            GenericArgument::Type(t) => match rewrite_type_for_rank(t, instances) {
                Ok(t) => GenericArgument::Type(t),
                Err(e) => {
                    return Err(e);
                },
            },
            other => clone_arg(other),
        };
        let ghost prev = out@;
        out.push(done);
        assert(args_s(out@) =~= args_s(prev).push(done@));
        i = i + 1;
    }
    assert(results.take(i as int) =~= results);
    Ok(out)
}

pub fn replace_last_arguments(p: &Path, arguments: PathArguments) -> (r: Path)
    requires
        p@.segments.len() > 0,
    ensures
        r@ == with_last_arguments(p@, arguments@),
{
    assert(segments_s(p.segments@).len() == p.segments@.len());
    let mut out = clone_path(p);
    assert(segments_s(out.segments@).len() == out.segments@.len());
    let last: usize = p.segments.len() - 1;
    let ident = p.segments[last].ident.clone();
    let ghost before = out.segments@;
    out.segments.set(last, PathSegment { ident, arguments });
    proof {
        let want = with_last_arguments(p@, arguments@).segments;
        assert forall|i: int| 0 <= i < want.len() implies segments_s(out.segments@)[i] == want[i] by {
            if i != last {
                assert(out.segments@[i] == before[i]);
                assert(segments_s(before)[i] == segment_s(before[i]));
                assert(segments_s(p.segments@)[i] == segments_s(before)[i]);
            } else {
                assert(segments_s(p.segments@)[i] == segment_s(p.segments@[i]));
            }
        }
        assert(segments_s(out.segments@) =~= want);
    }
    out
}

pub proof fn lemma_decimal_is_number(n: nat)
    ensures
        number_word(decimal_text(n)),
    decreases n,
{
    if n >= 10 {
        lemma_decimal_is_number(n / 10);
        let head = decimal_text(n / 10);
        let t = decimal_text(n);
        assert forall|i: int| 0 <= i < t.len() implies '0' <= #[trigger] t[i] <= '9' by {
            if i < head.len() {
                assert(t[i] == head[i]);
            }
        }
    }
}

} // verus!
