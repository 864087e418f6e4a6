//! Copies of syntax. A copy has the same model.
use crate::ast::{
    arg_s, args_s, expr_s, exprs_s, field_value_s, field_values_s, macro_tokens_s, piece_s,
    pieces_s, qself_s, segment_s, segments_s, stmt_s, stmts_s, type_s, types_s,
};
use crate::ast::{
    Expr, FieldValue, GenericArgument, MacroToken, Path, PathArguments, PathSegment, Piece, QSelf,
    Stmt, Type,
};
use crate::text::opt_text;
use vstd::prelude::*;

verus! {

pub fn clone_opt(o: &Option<String>) -> (r: Option<String>)
    ensures
        opt_text(r) == opt_text(*o),
{
    match o {
        Some(s) => Some(s.clone()),
        None => None,
    }
}

pub fn clone_qself(q: &Option<QSelf>) -> (r: Option<QSelf>)
    ensures
        qself_s(r) == qself_s(*q),
{
    match q {
        Some(q) => Some(QSelf { ty: q.ty.clone(), position: q.position }),
        None => None,
    }
}

pub fn clone_path(p: &Path) -> (r: Path)
    ensures
        r@ == p@,
    decreases p,
{
    Path {
        qself: clone_qself(&p.qself),
        leading_colon: p.leading_colon,
        segments: clone_segments(&p.segments),
    }
}

pub fn clone_segment(s: &PathSegment) -> (r: PathSegment)
    ensures
        r@ == s@,
    decreases s,
{
    PathSegment { ident: s.ident.clone(), arguments: clone_arguments(&s.arguments) }
}

pub fn clone_arguments(a: &PathArguments) -> (r: PathArguments)
    ensures
        r@ == a@,
    decreases a,
{
    match a {
        PathArguments::Empty => PathArguments::Empty,
        PathArguments::AngleBracketed { turbofish, args } => PathArguments::AngleBracketed {
            turbofish: *turbofish,
            args: clone_args(args),
        },
        PathArguments::Parenthesized(t) => PathArguments::Parenthesized(t.clone()),
    }
}

pub fn clone_arg(a: &GenericArgument) -> (r: GenericArgument)
    ensures
        r@ == a@,
    decreases a,
{
    match a {
        GenericArgument::Lifetime(l) => GenericArgument::Lifetime(l.clone()),
        GenericArgument::Type(t) => GenericArgument::Type(clone_type(t)),
        GenericArgument::Const(e) => GenericArgument::Const(clone_expr(e)),
        GenericArgument::Verbatim(t) => GenericArgument::Verbatim(t.clone()),
    }
}

pub fn clone_type(t: &Type) -> (r: Type)
    ensures
        r@ == t@,
    decreases t,
{
    match t {
        Type::Path(p) => Type::Path(clone_path(p)),
        Type::Reference { lifetime, mutable, elem } => Type::Reference {
            lifetime: clone_opt(lifetime),
            mutable: *mutable,
            elem: Box::new(clone_type(elem)),
        },
        Type::Array { elem, len } => Type::Array {
            elem: Box::new(clone_type(elem)),
            len: Box::new(clone_expr(len)),
        },
        Type::Tuple(elems) => Type::Tuple(clone_types(elems)),
        Type::Slice(elem) => Type::Slice(Box::new(clone_type(elem))),
        Type::Verbatim(t) => Type::Verbatim(t.clone()),
    }
}

pub fn clone_expr(e: &Expr) -> (r: Expr)
    ensures
        r@ == e@,
    decreases e,
{
    match e {
        Expr::Path(p) => Expr::Path(clone_path(p)),
        Expr::Lit(t) => Expr::Lit(t.clone()),
        Expr::Unary { op, operand } => Expr::Unary {
            op: op.clone(),
            operand: Box::new(clone_expr(operand)),
        },
        Expr::Array(elems) => Expr::Array(clone_exprs(elems)),
        Expr::Repeat { elem, len } => Expr::Repeat {
            elem: Box::new(clone_expr(elem)),
            len: Box::new(clone_expr(len)),
        },
        Expr::Block(stmts) => Expr::Block(clone_stmts(stmts)),
        Expr::Index { base, index, position } => Expr::Index {
            base: Box::new(clone_expr(base)),
            index: Box::new(clone_expr(index)),
            position: *position,
        },
        Expr::Macro { name, tokens, source } => Expr::Macro {
            name: name.clone(),
            tokens: clone_macro_tokens(tokens),
            source: source.clone(),
        },
        Expr::Struct { path, fields, rest } => Expr::Struct {
            path: clone_path(path),
            fields: clone_field_values(fields),
            rest: match rest {
                Some(r) => Some(Box::new(clone_expr(r))),
                None => None,
            },
        },
        Expr::Composite(pieces) => Expr::Composite(clone_pieces(pieces)),
    }
}

pub fn clone_field_value(f: &FieldValue) -> (r: FieldValue)
    ensures
        field_value_s(r) == field_value_s(*f),
    decreases f,
{
    FieldValue { member: f.member.clone(), expr: clone_expr(&f.expr) }
}

pub fn clone_stmt(s: &Stmt) -> (r: Stmt)
    ensures
        r@ == s@,
    decreases s,
{
    match s {
        Stmt::Expr { expr, semi } => Stmt::Expr { expr: clone_expr(expr), semi: *semi },
        Stmt::Composite(pieces) => Stmt::Composite(clone_pieces(pieces)),
    }
}

pub fn clone_piece(p: &Piece) -> (r: Piece)
    ensures
        r@ == p@,
    decreases p,
{
    match p {
        Piece::Source(t) => Piece::Source(t.clone()),
        Piece::Expr(e) => Piece::Expr(clone_expr(e)),
        Piece::Type(t) => Piece::Type(clone_type(t)),
        Piece::Path(p) => Piece::Path(clone_path(p)),
    }
}

pub fn clone_macro_token(t: &MacroToken) -> (r: MacroToken)
    ensures
        r@ == t@,
{
    match t {
        MacroToken::Literal(t) => MacroToken::Literal(t.clone()),
        MacroToken::Ident(t) => MacroToken::Ident(t.clone()),
        MacroToken::Comma => MacroToken::Comma,
        MacroToken::Other(t) => MacroToken::Other(t.clone()),
    }
}

pub fn clone_macro_tokens(v: &Vec<MacroToken>) -> (r: Vec<MacroToken>)
    ensures
        macro_tokens_s(r@) == macro_tokens_s(v@),
{
    let mut out: Vec<MacroToken> = Vec::new();
    let mut i: usize = 0;
    while i < v.len()
        invariant
            i <= v@.len(),
            out@.len() == i,
            forall|j: int| 0 <= j < i ==> out@[j]@ == v@[j]@,
        decreases v@.len() - i,
    {
        out.push(clone_macro_token(&v[i]));
        i = i + 1;
    }
    assert(macro_tokens_s(out@) =~= macro_tokens_s(v@));
    out
}

pub fn clone_segments(v: &Vec<PathSegment>) -> (r: Vec<PathSegment>)
    ensures
        segments_s(r@) == segments_s(v@),
    decreases v,
{
    let mut out: Vec<PathSegment> = Vec::new();
    let mut i: usize = 0;
    while i < v.len()
        invariant
            i <= v@.len(),
            out@.len() == i,
            forall|j: int| 0 <= j < i ==> segment_s(#[trigger] out@[j]) == segment_s(v@[j]),
        decreases v@.len() - i,
    {
        out.push(clone_segment(&v[i]));
        i = i + 1;
    }
    assert(segments_s(out@) =~= segments_s(v@));
    out
}

pub fn clone_args(v: &Vec<GenericArgument>) -> (r: Vec<GenericArgument>)
    ensures
        args_s(r@) == args_s(v@),
    decreases v,
{
    let mut out: Vec<GenericArgument> = Vec::new();
    let mut i: usize = 0;
    while i < v.len()
        invariant
            i <= v@.len(),
            out@.len() == i,
            forall|j: int| 0 <= j < i ==> arg_s(#[trigger] out@[j]) == arg_s(v@[j]),
        decreases v@.len() - i,
    {
        out.push(clone_arg(&v[i]));
        i = i + 1;
    }
    assert(args_s(out@) =~= args_s(v@));
    out
}

pub fn clone_types(v: &Vec<Type>) -> (r: Vec<Type>)
    ensures
        types_s(r@) == types_s(v@),
    decreases v,
{
    let mut out: Vec<Type> = Vec::new();
    let mut i: usize = 0;
    while i < v.len()
        invariant
            i <= v@.len(),
            out@.len() == i,
            forall|j: int| 0 <= j < i ==> type_s(#[trigger] out@[j]) == type_s(v@[j]),
        decreases v@.len() - i,
    {
        out.push(clone_type(&v[i]));
        i = i + 1;
    }
    assert(types_s(out@) =~= types_s(v@));
    out
}

pub fn clone_exprs(v: &Vec<Expr>) -> (r: Vec<Expr>)
    ensures
        exprs_s(r@) == exprs_s(v@),
    decreases v,
{
    let mut out: Vec<Expr> = Vec::new();
    let mut i: usize = 0;
    while i < v.len()
        invariant
            i <= v@.len(),
            out@.len() == i,
            forall|j: int| 0 <= j < i ==> expr_s(#[trigger] out@[j]) == expr_s(v@[j]),
        decreases v@.len() - i,
    {
        out.push(clone_expr(&v[i]));
        i = i + 1;
    }
    assert(exprs_s(out@) =~= exprs_s(v@));
    out
}

pub fn clone_field_values(v: &Vec<FieldValue>) -> (r: Vec<FieldValue>)
    ensures
        field_values_s(r@) == field_values_s(v@),
    decreases v,
{
    let mut out: Vec<FieldValue> = Vec::new();
    let mut i: usize = 0;
    while i < v.len()
        invariant
            i <= v@.len(),
            out@.len() == i,
            forall|j: int| 0 <= j < i ==> field_value_s(#[trigger] out@[j]) == field_value_s(v@[j]),
        decreases v@.len() - i,
    {
        out.push(clone_field_value(&v[i]));
        i = i + 1;
    }
    assert(field_values_s(out@) =~= field_values_s(v@));
    out
}

pub fn clone_stmts(v: &Vec<Stmt>) -> (r: Vec<Stmt>)
    ensures
        stmts_s(r@) == stmts_s(v@),
    decreases v,
{
    let mut out: Vec<Stmt> = Vec::new();
    let mut i: usize = 0;
    while i < v.len()
        invariant
            i <= v@.len(),
            out@.len() == i,
            forall|j: int| 0 <= j < i ==> stmt_s(#[trigger] out@[j]) == stmt_s(v@[j]),
        decreases v@.len() - i,
    {
        out.push(clone_stmt(&v[i]));
        i = i + 1;
    }
    assert(stmts_s(out@) =~= stmts_s(v@));
    out
}

pub fn clone_pieces(v: &Vec<Piece>) -> (r: Vec<Piece>)
    ensures
        pieces_s(r@) == pieces_s(v@),
    decreases v,
{
    let mut out: Vec<Piece> = Vec::new();
    let mut i: usize = 0;
    while i < v.len()
        invariant
            i <= v@.len(),
            out@.len() == i,
            forall|j: int| 0 <= j < i ==> piece_s(#[trigger] out@[j]) == piece_s(v@[j]),
        decreases v@.len() - i,
    {
        out.push(clone_piece(&v[i]));
        i = i + 1;
    }
    assert(pieces_s(out@) =~= pieces_s(v@));
    out
}

} // verus!
