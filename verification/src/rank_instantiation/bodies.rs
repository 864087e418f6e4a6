//! Specialisation of expressions and statements to the lengths in scope.
use super::bindings::{dim, dim_text, RankBindings, RankBindingsS};
use super::types::{
    expand_cga, instantiate_cga, make_name_path, name_path, rewrite_path, rewrite_path_for_rank,
    rewrite_type, rewrite_type_for_rank, PathContext,
};
use crate::ast::{
    args_s, expr_s, exprs_s, field_value_s, field_values_s, macro_tokens_s, piece_s, pieces_s,
    segment_s, segments_s, stmt_s, stmts_s, ArgS, ArgumentsS, ExprS, FieldValueS, MacroTokenS,
    PathS, PieceS, SegmentS, StmtS,
};
use crate::ast::{
    Expr, FieldValue, GenericArgument, MacroToken, Path, PathArguments, PathSegment, Piece, Stmt,
};
use crate::copy::{clone_macro_tokens, clone_piece};
use crate::error::{agrees, error_at, Error, ErrorS, SpannedError};
use crate::grammar::{const_new_source, expr_refusal, plain_word, refuse_expr, simple_elems};
use crate::lists::{collect, concat, lemma_collect_step};
use crate::print::expr_text;
use crate::text::{
    append_all, cat2, cat4, cat5, decimal, decimal_text, join, same, texts, Text,
};
use vstd::prelude::*;

verus! {

// ---------------------------------------------------------------------------
// Shape macros
// ---------------------------------------------------------------------------

/// What one token of a `const_shape!` or `const_array!` call contributes: a literal or
/// a name itself, the name of an array its dimensions, a comma nothing.
pub open spec fn token_args(t: MacroTokenS, kind: Text, source: Text, b: RankBindingsS) -> Result<
    Seq<Text>,
    ErrorS,
> {
    match t {
        MacroTokenS::Literal(t) => Ok(seq![t]),
        MacroTokenS::Ident(name) => if b.inst_array.contains_key(name) {
            expand_cga(name_path(name), b)
        } else {
            Ok(seq![name])
        },
        MacroTokenS::Comma => Ok(seq![]),
        MacroTokenS::Other(t) => Err(
            error_at(source, "Unexpected token in "@ + kind + "!: "@ + t),
        ),
    }
}

pub open spec fn tokens_args(
    tokens: Seq<MacroTokenS>,
    kind: Text,
    source: Text,
    b: RankBindingsS,
) -> Seq<Result<Seq<Text>, ErrorS>> {
    Seq::new(tokens.len(), |i: int| token_args(tokens[i], kind, source, b))
}

/// The type that a shape macro builds.
pub open spec fn shape_type(kind: Text) -> Text {
    if kind == "const_shape"@ { "Shape"@ } else { "Array"@ }
}

pub open spec fn literals(args: Seq<Text>) -> Seq<ExprS> {
    Seq::new(args.len(), |i: int| ExprS::Lit(args[i]))
}

/// `ty::<{[args]}>::const_new`.
pub open spec fn const_new_path(ty: Text, args: Seq<Text>) -> PathS {
    PathS {
        qself: None,
        leading_colon: false,
        segments: seq![
            SegmentS {
                ident: ty,
                arguments: ArgumentsS::AngleBracketed {
                    turbofish: true,
                    args: seq![
                        ArgS::Const(
                            ExprS::Block(
                                seq![
                                    StmtS::Expr { expr: ExprS::Array(literals(args)), semi: false },
                                ],
                            ),
                        ),
                    ],
                },
            },
            SegmentS { ident: "const_new"@, arguments: ArgumentsS::Empty },
        ],
    }
}

/// The path that a shape macro calls. A list of names and numbers always gives one.
pub open spec fn expand_shape(
    kind: Text,
    tokens: Seq<MacroTokenS>,
    source: Text,
    b: RankBindingsS,
) -> Result<PathS, ErrorS> {
    match collect(tokens_args(tokens, kind, source, b)) {
        Err(e) => Err(e),
        Ok(lists) => {
            let args = concat(lists);
            let ty = shape_type(kind);
            let call = const_new_source(ty, args);
            let refusal = if simple_elems(args) { None } else { expr_refusal(call) };
            match refusal {
                Some(reason) => Err(
                    error_at(source, "Failed to parse '"@ + call + "': "@ + reason),
                ),
                None => Ok(const_new_path(ty, args)),
            }
        },
    }
}

/// A call of a path without arguments.
pub open spec fn call_of(p: PathS) -> ExprS {
    ExprS::Composite(seq![PieceS::Expr(ExprS::Path(p)), PieceS::Source("()"@)])
}

/// Whether a macro builds a shape.
pub open spec fn is_shape_macro(name: Text) -> bool {
    name == "const_shape"@ || name == "const_array"@
}

fn token_arg(t: &MacroToken, kind: &str, source: &str, b: &RankBindings) -> (r: Result<
    Vec<String>,
    Error,
>)
    ensures
        match r {
            Ok(v) => token_args(t@, kind@, source@, b@) == Ok::<Seq<Text>, ErrorS>(texts(v@)),
            Err(e) => token_args(t@, kind@, source@, b@) == Err::<Seq<Text>, ErrorS>(e@),
        },
{
    let mut out: Vec<String> = Vec::new();
    match t {
        MacroToken::Literal(t) => {
            out.push(t.clone());
            assert(texts(out@) =~= seq![t@]);
        },
        MacroToken::Ident(name) => {
            if b.array(name.as_str()).is_some() {
                return instantiate_cga(&make_name_path(name.clone()), b);
            }
            out.push(name.clone());
            assert(texts(out@) =~= seq![name@]);
        },
        MacroToken::Comma => {
            assert(texts(out@) =~= seq![]);
        },
        MacroToken::Other(t) => {
            let m = cat4("Unexpected token in ", kind, "!: ", t.as_str());
            return source.to_owned().err(m.as_str());
        },
    }
    Ok(out)
}

fn make_literals(args: &Vec<String>) -> (r: Vec<Expr>)
    ensures
        exprs_s(r@) == literals(texts(args@)),
{
    let mut out: Vec<Expr> = Vec::new();
    let mut i: usize = 0;
    while i < args.len()
        invariant
            i <= args@.len(),
            out@.len() == i,
            forall|j: int| 0 <= j < i ==> expr_s(#[trigger] out@[j]) == ExprS::Lit(args@[j]@),
        decreases args@.len() - i,
    {
        out.push(Expr::Lit(args[i].clone()));
        i = i + 1;
    }
    assert(exprs_s(out@) =~= literals(texts(args@)));
    out
}

fn make_const_new_path(ty: &str, args: &Vec<String>) -> (r: Path)
    ensures
        r@ == const_new_path(ty@, texts(args@)),
{
    let ghost want = const_new_path(ty@, texts(args@));
    let array = Expr::Array(make_literals(args));
    let mut stmts: Vec<Stmt> = Vec::new();
    stmts.push(Stmt::Expr { expr: array, semi: false });
    assert(stmts_s(stmts@) =~= seq![
        StmtS::Expr { expr: ExprS::Array(literals(texts(args@))), semi: false },
    ]);
    let block = Expr::Block(stmts);
    let mut generic_args: Vec<GenericArgument> = Vec::new();
    let ghost block_model = block@;
    generic_args.push(GenericArgument::Const(block));
    assert(args_s(generic_args@) =~= seq![ArgS::Const(block_model)]);
    let mut segments: Vec<PathSegment> = Vec::new();
    segments.push(
        PathSegment {
            ident: ty.to_owned(),
            arguments: PathArguments::AngleBracketed { turbofish: true, args: generic_args },
        },
    );
    segments.push(
        PathSegment { ident: "const_new".to_owned(), arguments: PathArguments::Empty },
    );
    assert(segments_s(segments@) =~= want.segments);
    Path { qself: None, leading_colon: false, segments }
}

/// Build `Shape_R::<{[…]}>::const_new` (or the `Array` equivalent) from a `const_shape!` /
/// `const_array!` token list. Idents inside the macro that name an in-scope CGA expand to
/// rank-instance dim refs.
pub fn expand_shape_macro(
    kind: &str,
    tokens: &Vec<MacroToken>,
    source: &str,
    bindings: &RankBindings,
) -> (r: Result<Path, Error>)
    ensures
        agrees(r, expand_shape(kind@, macro_tokens_s(tokens@), source@, bindings@)),
{
    let ghost models = macro_tokens_s(tokens@);
    let ghost results = tokens_args(models, kind@, source@, bindings@);
    let ghost mut lists: Seq<Seq<Text>> = seq![];
    let mut args: Vec<String> = Vec::new();
    let mut i: usize = 0;
    assert(results.take(0) =~= seq![]);
    assert(texts(args@) =~= concat(lists));
    while i < tokens.len()
        invariant
            i <= tokens@.len(),
            models == macro_tokens_s(tokens@),
            results == tokens_args(models, kind@, source@, bindings@),
            collect(results.take(i as int)) == Ok::<Seq<Seq<Text>>, ErrorS>(lists),
            texts(args@) == concat(lists),
        decreases tokens@.len() - i,
    {
        proof {
            lemma_collect_step(results, i as int);
            assert(results[i as int] == token_args(tokens@[i as int]@, kind@, source@, bindings@));
        }
        let more = match token_arg(&tokens[i], kind, source, bindings) {
            Ok(v) => v,
            Err(e) => {
                return Err(e);
            },
        };
        proof {
            let next = lists.push(texts(more@));
            assert(next.drop_last() =~= lists);
            lists = next;
        }
        append_all(&mut args, &more);
        i = i + 1;
    }
    assert(results.take(i as int) =~= results);
    let ty = if same(kind, "const_shape") { "Shape" } else { "Array" };
    let body = join(&args, ", ");
    let call = cat4(ty, "::<{[", body.as_str(), "]}>::const_new()");
    proof {
        reveal_strlit("Shape");
        reveal_strlit("Array");
        assert(plain_word(ty@));
        assert(call@ == const_new_source(ty@, texts(args@)));
    }
    match refuse_expr(call.as_str()) {
        Some(reason) => {
            let m = cat4("Failed to parse '", call.as_str(), "': ", reason.as_str());
            source.to_owned().err(m.as_str())
        },
        None => Ok(make_const_new_path(ty, &args)),
    }
}

// ---------------------------------------------------------------------------
// Expressions
// ---------------------------------------------------------------------------

/// A `u32` as a literal.
pub open spec fn u32_literal(n: nat) -> ExprS {
    ExprS::Lit(decimal_text(n) + "u32"@)
}

/// The value that a bare name stands for: a length variable its value, an array its
/// length.
pub open spec fn bound_value(p: PathS, b: RankBindingsS) -> Option<nat> {
    if p.segments.len() != 1 {
        None
    } else if b.inst_u32.contains_key(p.segments[0].ident) {
        Some(b.inst_u32[p.segments[0].ident] as nat)
    } else if b.inst_array.contains_key(p.segments[0].ident) {
        Some(b.inst_array[p.segments[0].ident].length)
    } else {
        None
    }
}

/// The name of the array that is indexed, if the base of an index is one.
pub open spec fn indexed_array(base: ExprS, b: RankBindingsS) -> Option<Text> {
    match base {
        ExprS::Path(p) => {
            let name = if p.segments.len() == 0 { ""@ } else { p.segments.last().ident };
            if b.inst_array.contains_key(name) { Some(name) } else { None }
        },
        _ => None,
    }
}

/// A number in decimal.
pub open spec fn int_text(i: int) -> Text {
    if i < 0 { "-"@ + decimal_text((-i) as nat) } else { decimal_text(i as nat) }
}

pub open spec fn index_failure(i: int, name: Text, length: nat) -> Text {
    "Index "@ + int_text(i) + " out of bounds for CGA `"@ + name + "` of length "@ + decimal_text(
        length,
    )
}

/// `S[i]` for an array `S`: the dimension of that number.
pub open spec fn index_dim(name: Text, index: ExprS, position: int, b: RankBindingsS) -> Result<
    ExprS,
    ErrorS,
> {
    let cga = b.inst_array[name];
    if 0 <= position < cga.length {
        Ok(ExprS::Path(name_path(dim_text(cga.name, position as nat))))
    } else {
        Err(error_at(expr_text(index), index_failure(position, cga.name, cga.length)))
    }
}

/// A list with every item specialised.
pub open spec fn visit_exprs(v: Seq<ExprS>, b: RankBindingsS) -> Seq<Result<ExprS, ErrorS>>
    decreases v,
{
    Seq::new(v.len(), |i: int| if 0 <= i < v.len() { visit_expr(v[i], b) } else { arbitrary() })
}

pub open spec fn visit_fields(v: Seq<FieldValueS>, b: RankBindingsS) -> Seq<
    Result<FieldValueS, ErrorS>,
>
    decreases v,
{
    Seq::new(v.len(), |i: int| if 0 <= i < v.len() { visit_field(v[i], b) } else { arbitrary() })
}

pub open spec fn visit_stmts(v: Seq<StmtS>, b: RankBindingsS) -> Seq<Result<StmtS, ErrorS>>
    decreases v,
{
    Seq::new(v.len(), |i: int| if 0 <= i < v.len() { visit_stmt(v[i], b) } else { arbitrary() })
}

pub open spec fn visit_pieces(v: Seq<PieceS>, b: RankBindingsS) -> Seq<Result<PieceS, ErrorS>>
    decreases v,
{
    Seq::new(v.len(), |i: int| if 0 <= i < v.len() { visit_piece(v[i], b) } else { arbitrary() })
}

pub open spec fn visit_field(f: FieldValueS, b: RankBindingsS) -> Result<FieldValueS, ErrorS>
    decreases f,
{
    match visit_expr(f.expr, b) {
        Err(e) => Err(e),
        Ok(expr) => Ok(FieldValueS { member: f.member, expr }),
    }
}

pub open spec fn visit_piece(p: PieceS, b: RankBindingsS) -> Result<PieceS, ErrorS>
    decreases p,
{
    match p {
        PieceS::Source(_) => Ok(p),
        PieceS::Expr(e) => match visit_expr(e, b) {
            Err(e) => Err(e),
            Ok(e) => Ok(PieceS::Expr(e)),
        },
        PieceS::Type(t) => match rewrite_type(t, b) {
            Err(e) => Err(e),
            Ok(t) => Ok(PieceS::Type(t)),
        },
        PieceS::Path(p) => match rewrite_path(p, b, true) {
            Err(e) => Err(e),
            Ok(p) => Ok(PieceS::Path(p)),
        },
    }
}

pub open spec fn visit_stmt(s: StmtS, b: RankBindingsS) -> Result<StmtS, ErrorS>
    decreases s,
{
    match s {
        StmtS::Expr { expr, semi } => match visit_expr(expr, b) {
            Err(e) => Err(e),
            Ok(expr) => Ok(StmtS::Expr { expr, semi }),
        },
        StmtS::Composite(pieces) => match collect(visit_pieces(pieces, b)) {
            Err(e) => Err(e),
            Ok(pieces) => Ok(StmtS::Composite(pieces)),
        },
    }
}

pub open spec fn visit_rest(e: Option<Box<ExprS>>, b: RankBindingsS) -> Result<
    Option<Box<ExprS>>,
    ErrorS,
>
    decreases e,
{
    match e {
        None => Ok(None),
        Some(e) => match visit_expr(*e, b) {
            Err(e) => Err(e),
            Ok(e) => Ok(Some(Box::new(e))),
        },
    }
}

/// An expression specialised to the lengths in scope.
///
/// - A `const_shape!` or `const_array!` call becomes a call of `const_new` on the type.
/// - A bare length variable or array name becomes its value.
/// - `S[i]` becomes the dimension `S_i`.
/// - The path of a struct literal is a type, behind its fields; any other path is an
///   expression path.
pub open spec fn visit_expr(e: ExprS, b: RankBindingsS) -> Result<ExprS, ErrorS>
    decreases e,
{
    match e {
        ExprS::Macro { name, tokens, source } => if is_shape_macro(name) {
            match expand_shape(name, tokens, source, b) {
                Err(e) => Err(e),
                Ok(p) => match rewrite_path(p, b, true) {
                    Err(e) => Err(e),
                    Ok(p) => Ok(call_of(p)),
                },
            }
        } else {
            Ok(e)
        },
        ExprS::Path(p) => match bound_value(p, b) {
            Some(n) => Ok(u32_literal(n)),
            None => match rewrite_path(p, b, true) {
                Err(e) => Err(e),
                Ok(p) => Ok(ExprS::Path(p)),
            },
        },
        ExprS::Index { base, index, position } => match indexed_array(*base, b) {
            Some(name) => index_dim(name, *index, position as int, b),
            None => match visit_expr(*base, b) {
                Err(e) => Err(e),
                Ok(base) => match visit_expr(*index, b) {
                    Err(e) => Err(e),
                    Ok(index) => Ok(
                        ExprS::Index { base: Box::new(base), index: Box::new(index), position },
                    ),
                },
            },
        },
        ExprS::Lit(_) => Ok(e),
        ExprS::Unary { op, operand } => match visit_expr(*operand, b) {
            Err(e) => Err(e),
            Ok(operand) => Ok(ExprS::Unary { op, operand: Box::new(operand) }),
        },
        ExprS::Array(elems) => match collect(visit_exprs(elems, b)) {
            Err(e) => Err(e),
            Ok(elems) => Ok(ExprS::Array(elems)),
        },
        ExprS::Repeat { elem, len } => match visit_expr(*elem, b) {
            Err(e) => Err(e),
            Ok(elem) => match visit_expr(*len, b) {
                Err(e) => Err(e),
                Ok(len) => Ok(ExprS::Repeat { elem: Box::new(elem), len: Box::new(len) }),
            },
        },
        ExprS::Block(stmts) => match collect(visit_stmts(stmts, b)) {
            Err(e) => Err(e),
            Ok(stmts) => Ok(ExprS::Block(stmts)),
        },
        ExprS::Struct { path, fields, rest } => match collect(visit_fields(fields, b)) {
            Err(e) => Err(e),
            Ok(fields) => match visit_rest(rest, b) {
                Err(e) => Err(e),
                Ok(rest) => match rewrite_path(path, b, false) {
                    Err(e) => Err(e),
                    Ok(path) => Ok(ExprS::Struct { path, fields, rest }),
                },
            },
        },
        ExprS::Composite(pieces) => match collect(visit_pieces(pieces, b)) {
            Err(e) => Err(e),
            Ok(pieces) => Ok(ExprS::Composite(pieces)),
        },
    }
}

fn print_int(i: i32) -> (r: String)
    ensures
        r@ == int_text(i as int),
{
    if i < 0 {
        let d = decimal((-(i as i64)) as usize);
        cat2("-", d.as_str())
    } else {
        decimal(i as usize)
    }
}

fn value_of(p: &Path, b: &RankBindings) -> (r: Option<u32>)
    ensures
        match r {
            Some(n) => bound_value(p@, b@) == Some(n as nat),
            None => bound_value(p@, b@) is None,
        },
{
    assert(segments_s(p.segments@).len() == p.segments@.len());
    if p.segments.len() != 1 {
        return None;
    }
    let name = p.segments[0].ident.as_str();
    match b.length(name) {
        Some(n) => Some(n),
        None => match b.array(name) {
            Some(cga) => Some(cga.length),
            None => None,
        },
    }
}

/// `S[i]`, where `S` is an array in scope.
fn dim_at(base: &Expr, index: &Expr, position: i32, b: &RankBindings) -> (r: Option<
    Result<Expr, Error>,
>)
    ensures
        match r {
            Some(done) => indexed_array(base@, b@) matches Some(name) && agrees(
                done,
                index_dim(name, index@, position as int, b@),
            ),
            None => indexed_array(base@, b@) is None,
        },
{
    let p = match base {
        Expr::Path(p) => p,
        _ => {
            return None;
        },
    };
    assert(segments_s(p.segments@).len() == p.segments@.len());
    let name = if p.segments.len() == 0 {
        ""
    } else {
        p.segments[p.segments.len() - 1].ident.as_str()
    };
    assert(p.segments@.len() > 0 ==> p@.segments.last() == segment_s(p.segments@.last()));
    match b.array(name) {
        None => None,
        Some(cga) => if 0 <= position && (position as u32) < cga.length {
            Some(Ok(Expr::Path(make_name_path(dim(cga.name.as_str(), position as u32)))))
        } else {
            let i = print_int(position);
            let n = decimal(cga.length as usize);
            let m = cat5(
                "Index ",
                i.as_str(),
                " out of bounds for CGA `",
                cga.name.as_str(),
                "` of length ",
            );
            let m = cat2(m.as_str(), n.as_str());
            Some(index.err(m.as_str()))
        },
    }
}

fn make_call(p: Path) -> (r: Expr)
    ensures
        r@ == call_of(p@),
{
    let ghost model = p@;
    let mut pieces: Vec<Piece> = Vec::new();
    pieces.push(Piece::Expr(Expr::Path(p)));
    pieces.push(Piece::Source("()".to_owned()));
    assert(pieces_s(pieces@) =~= seq![PieceS::Expr(ExprS::Path(model)), PieceS::Source("()"@)]);
    Expr::Composite(pieces)
}

fn visit_macro_mut(name: &String, tokens: &Vec<MacroToken>, source: &String, b: &RankBindings) -> (r:
    Result<Expr, Error>)
    ensures
        agrees(
            r,
            visit_expr(
                ExprS::Macro { name: name@, tokens: macro_tokens_s(tokens@), source: source@ },
                b@,
            ),
        ),
{
    if same(name.as_str(), "const_shape") || same(name.as_str(), "const_array") {
        match expand_shape_macro(name.as_str(), tokens, source.as_str(), b) {
            Ok(p) => match rewrite_path_for_rank(&p, b, PathContext::ExprPath) {
                Ok(p) => Ok(make_call(p)),
                Err(e) => Err(e),
            },
            Err(e) => Err(e),
        }
    } else {
        Ok(
            Expr::Macro {
                name: name.clone(),
                tokens: clone_macro_tokens(tokens),
                source: source.clone(),
            },
        )
    }
}

fn visit_path_mut(p: &Path, b: &RankBindings) -> (r: Result<Expr, Error>)
    ensures
        agrees(r, visit_expr(ExprS::Path(p@), b@)),
{
    match value_of(p, b) {
        Some(n) => {
            let d = decimal(n as usize);
            Ok(Expr::Lit(cat2(d.as_str(), "u32")))
        },
        None => match rewrite_path_for_rank(p, b, PathContext::ExprPath) {
            Ok(p) => Ok(Expr::Path(p)),
            Err(e) => Err(e),
        },
    }
}

/// Specialises an expression.
pub fn visit_expr_mut(e: &Expr, b: &RankBindings) -> (r: Result<Expr, Error>)
    ensures
        agrees(r, visit_expr(e@, b@)),
    decreases e,
{
    match e {
        Expr::Macro { name, tokens, source } => visit_macro_mut(name, tokens, source, b),
        Expr::Path(p) => visit_path_mut(p, b),
        Expr::Index { base, index, position } => match dim_at(base, index, *position, b) {
            Some(done) => done,
            None => match visit_expr_mut(base, b) {
                Err(e) => Err(e),
                Ok(x) => match visit_expr_mut(index, b) {
                    Err(e) => Err(e),
                    Ok(y) => Ok(
                        Expr::Index { base: Box::new(x), index: Box::new(y), position: *position },
                    ),
                },
            },
        },
        Expr::Lit(t) => Ok(Expr::Lit(t.clone())),
        Expr::Unary { op, operand } => match visit_expr_mut(operand, b) {
            Ok(x) => Ok(Expr::Unary { op: op.clone(), operand: Box::new(x) }),
            Err(e) => Err(e),
        },
        Expr::Array(elems) => match visit_exprs_mut(elems, b) {
            Ok(v) => Ok(Expr::Array(v)),
            Err(e) => Err(e),
        },
        Expr::Repeat { elem, len } => match visit_expr_mut(elem, b) {
            Err(e) => Err(e),
            Ok(x) => match visit_expr_mut(len, b) {
                Err(e) => Err(e),
                Ok(y) => Ok(Expr::Repeat { elem: Box::new(x), len: Box::new(y) }),
            },
        },
        Expr::Block(stmts) => match visit_block_mut(stmts, b) {
            Ok(v) => Ok(Expr::Block(v)),
            Err(e) => Err(e),
        },
        Expr::Struct { path, fields, rest } => match visit_fields_mut(fields, b) {
            Err(e) => Err(e),
            Ok(fields) => match visit_rest_mut(rest, b) {
                Err(e) => Err(e),
                Ok(rest) => match rewrite_path_for_rank(path, b, PathContext::Type) {
                    Ok(path) => Ok(Expr::Struct { path, fields, rest }),
                    Err(e) => Err(e),
                },
            },
        },
        Expr::Composite(pieces) => match visit_pieces_mut(pieces, b) {
            Ok(v) => Ok(Expr::Composite(v)),
            Err(e) => Err(e),
        },
    }
}

/// The model of what a struct literal takes the rest of its fields from.
pub open spec fn rest_s(e: Option<Box<Expr>>) -> Option<Box<ExprS>> {
    match e {
        Some(e) => Some(Box::new(expr_s(*e))),
        None => None,
    }
}

fn visit_rest_mut(e: &Option<Box<Expr>>, b: &RankBindings) -> (r: Result<Option<Box<Expr>>, Error>)
    ensures
        match r {
            Ok(x) => visit_rest(rest_s(*e), b@) == Ok::<Option<Box<ExprS>>, ErrorS>(rest_s(x)),
            Err(x) => visit_rest(rest_s(*e), b@) == Err::<Option<Box<ExprS>>, ErrorS>(x@),
        },
    decreases e,
{
    match e {
        None => Ok(None),
        Some(x) => match visit_expr_mut(x, b) {
            Ok(x) => Ok(Some(Box::new(x))),
            Err(e) => Err(e),
        },
    }
}

fn visit_field_mut(f: &FieldValue, b: &RankBindings) -> (r: Result<FieldValue, Error>)
    ensures
        match r {
            Ok(x) => visit_field(field_value_s(*f), b@) == Ok::<FieldValueS, ErrorS>(
                field_value_s(x),
            ),
            Err(e) => visit_field(field_value_s(*f), b@) == Err::<FieldValueS, ErrorS>(e@),
        },
    decreases f,
{
    match visit_expr_mut(&f.expr, b) {
        Ok(expr) => Ok(FieldValue { member: f.member.clone(), expr }),
        Err(e) => Err(e),
    }
}

fn visit_stmt_mut(s: &Stmt, b: &RankBindings) -> (r: Result<Stmt, Error>)
    ensures
        agrees(r, visit_stmt(s@, b@)),
    decreases s,
{
    match s {
        Stmt::Expr { expr, semi } => match visit_expr_mut(expr, b) {
            Ok(expr) => Ok(Stmt::Expr { expr, semi: *semi }),
            Err(e) => Err(e),
        },
        Stmt::Composite(pieces) => match visit_pieces_mut(pieces, b) {
            Ok(v) => Ok(Stmt::Composite(v)),
            Err(e) => Err(e),
        },
    }
}

fn visit_piece_mut(p: &Piece, b: &RankBindings) -> (r: Result<Piece, Error>)
    ensures
        agrees(r, visit_piece(p@, b@)),
    decreases p,
{
    match p {
        Piece::Source(_) => Ok(clone_piece(p)),
        Piece::Expr(e) => match visit_expr_mut(e, b) {
            Ok(x) => Ok(Piece::Expr(x)),
            Err(e) => Err(e),
        },
        Piece::Type(t) => match rewrite_type_for_rank(t, b) {
            Ok(x) => Ok(Piece::Type(x)),
            Err(e) => Err(e),
        },
        Piece::Path(p) => match rewrite_path_for_rank(p, b, PathContext::ExprPath) {
            Ok(x) => Ok(Piece::Path(x)),
            Err(e) => Err(e),
        },
    }
}

/// Specialises the statements of a block.
pub fn visit_block_mut(v: &Vec<Stmt>, b: &RankBindings) -> (r: Result<Vec<Stmt>, Error>)
    ensures
        match r {
            Ok(w) => collect(visit_stmts(stmts_s(v@), b@)) == Ok::<Seq<StmtS>, ErrorS>(stmts_s(w@)),
            Err(e) => collect(visit_stmts(stmts_s(v@), b@)) == Err::<Seq<StmtS>, ErrorS>(e@),
        },
    decreases v,
{
    let ghost models = stmts_s(v@);
    let ghost results = visit_stmts(models, b@);
    let mut out: Vec<Stmt> = Vec::new();
    let mut i: usize = 0;
    assert(results.take(0) =~= seq![]);
    assert(stmts_s(out@) =~= seq![]);
    while i < v.len()
        invariant
            i <= v@.len(),
            models == stmts_s(v@),
            results == visit_stmts(models, b@),
            results.len() == v@.len(),
            collect(results.take(i as int)) == Ok::<Seq<StmtS>, ErrorS>(stmts_s(out@)),
        decreases v@.len() - i,
    {
        proof {
            lemma_collect_step(results, i as int);
            assert(models[i as int] == stmt_s(v@[i as int]));
        }
        let done = match visit_stmt_mut(&v[i], b) {
            Ok(x) => x,
            Err(e) => {
                return Err(e);
            },
        };
        let ghost prev = out@;
        out.push(done);
        assert(stmts_s(out@) =~= stmts_s(prev).push(stmt_s(done)));
        i = i + 1;
    }
    assert(results.take(i as int) =~= results);
    Ok(out)
}

fn visit_exprs_mut(v: &Vec<Expr>, b: &RankBindings) -> (r: Result<Vec<Expr>, Error>)
    ensures
        match r {
            Ok(w) => collect(visit_exprs(exprs_s(v@), b@)) == Ok::<Seq<ExprS>, ErrorS>(exprs_s(w@)),
            Err(e) => collect(visit_exprs(exprs_s(v@), b@)) == Err::<Seq<ExprS>, ErrorS>(e@),
        },
    decreases v,
{
    let ghost models = exprs_s(v@);
    let ghost results = visit_exprs(models, b@);
    let mut out: Vec<Expr> = Vec::new();
    let mut i: usize = 0;
    assert(results.take(0) =~= seq![]);
    assert(exprs_s(out@) =~= seq![]);
    while i < v.len()
        invariant
            i <= v@.len(),
            models == exprs_s(v@),
            results == visit_exprs(models, b@),
            results.len() == v@.len(),
            collect(results.take(i as int)) == Ok::<Seq<ExprS>, ErrorS>(exprs_s(out@)),
        decreases v@.len() - i,
    {
        proof {
            lemma_collect_step(results, i as int);
            assert(models[i as int] == expr_s(v@[i as int]));
        }
        let done = match visit_expr_mut(&v[i], b) {
            Ok(x) => x,
            Err(e) => {
                return Err(e);
            },
        };
        let ghost prev = out@;
        out.push(done);
        assert(exprs_s(out@) =~= exprs_s(prev).push(expr_s(done)));
        i = i + 1;
    }
    assert(results.take(i as int) =~= results);
    Ok(out)
}

fn visit_fields_mut(v: &Vec<FieldValue>, b: &RankBindings) -> (r: Result<Vec<FieldValue>, Error>)
    ensures
        match r {
            Ok(w) => collect(visit_fields(field_values_s(v@), b@)) == Ok::<Seq<FieldValueS>, ErrorS>(field_values_s(w@)),
            Err(e) => collect(visit_fields(field_values_s(v@), b@)) == Err::<Seq<FieldValueS>, ErrorS>(e@),
        },
    decreases v,
{
    let ghost models = field_values_s(v@);
    let ghost results = visit_fields(models, b@);
    let mut out: Vec<FieldValue> = Vec::new();
    let mut i: usize = 0;
    assert(results.take(0) =~= seq![]);
    assert(field_values_s(out@) =~= seq![]);
    while i < v.len()
        invariant
            i <= v@.len(),
            models == field_values_s(v@),
            results == visit_fields(models, b@),
            results.len() == v@.len(),
            collect(results.take(i as int)) == Ok::<Seq<FieldValueS>, ErrorS>(field_values_s(out@)),
        decreases v@.len() - i,
    {
        proof {
            lemma_collect_step(results, i as int);
            assert(models[i as int] == field_value_s(v@[i as int]));
        }
        let done = match visit_field_mut(&v[i], b) {
            Ok(x) => x,
            Err(e) => {
                return Err(e);
            },
        };
        let ghost prev = out@;
        out.push(done);
        assert(field_values_s(out@) =~= field_values_s(prev).push(field_value_s(done)));
        i = i + 1;
    }
    assert(results.take(i as int) =~= results);
    Ok(out)
}

fn visit_pieces_mut(v: &Vec<Piece>, b: &RankBindings) -> (r: Result<Vec<Piece>, Error>)
    ensures
        match r {
            Ok(w) => collect(visit_pieces(pieces_s(v@), b@)) == Ok::<Seq<PieceS>, ErrorS>(pieces_s(w@)),
            Err(e) => collect(visit_pieces(pieces_s(v@), b@)) == Err::<Seq<PieceS>, ErrorS>(e@),
        },
    decreases v,
{
    let ghost models = pieces_s(v@);
    let ghost results = visit_pieces(models, b@);
    let mut out: Vec<Piece> = Vec::new();
    let mut i: usize = 0;
    assert(results.take(0) =~= seq![]);
    assert(pieces_s(out@) =~= seq![]);
    while i < v.len()
        invariant
            i <= v@.len(),
            models == pieces_s(v@),
            results == visit_pieces(models, b@),
            results.len() == v@.len(),
            collect(results.take(i as int)) == Ok::<Seq<PieceS>, ErrorS>(pieces_s(out@)),
        decreases v@.len() - i,
    {
        proof {
            lemma_collect_step(results, i as int);
            assert(models[i as int] == piece_s(v@[i as int]));
        }
        let done = match visit_piece_mut(&v[i], b) {
            Ok(x) => x,
            Err(e) => {
                return Err(e);
            },
        };
        let ghost prev = out@;
        out.push(done);
        assert(pieces_s(out@) =~= pieces_s(prev).push(piece_s(done)));
        i = i + 1;
    }
    assert(results.take(i as int) =~= results);
    Ok(out)
}

} // verus!
