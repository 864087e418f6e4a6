//! The syntax that the macros read and rewrite.
//!
//! The types follow the shape of Rust source as far as the rewriting rules look
//! into it; whatever they never look into is kept as source text. Every type has
//! a mathematical model of the same name with an `S` at the end, in which a
//! string is a sequence of characters and a list a sequence of models; the view
//! of a value is its model.
use crate::text::{opt_text, Text};
use vstd::prelude::*;

verus! {

// ---------------------------------------------------------------------------
// Types, paths and expressions
// ---------------------------------------------------------------------------

/// The `<T as Trait>` in front of a qualified path: the source text of `T`, and
/// how many of the path's segments name the trait.
#[derive(Debug)]
pub struct QSelf {
    pub ty: String,
    pub position: usize,
}

/// A path such as `a::b::<T>`.
#[derive(Debug)]
pub struct Path {
    pub qself: Option<QSelf>,
    pub leading_colon: bool,
    pub segments: Vec<PathSegment>,
}

#[derive(Debug)]
pub struct PathSegment {
    pub ident: String,
    pub arguments: PathArguments,
}

/// The generic arguments of a path segment.
#[derive(Debug)]
pub enum PathArguments {
    Empty,
    /// `<A, B>`, or `::<A, B>` with `turbofish`.
    AngleBracketed { turbofish: bool, args: Vec<GenericArgument> },
    /// `(A, B) -> C`, as source text.
    Parenthesized(String),
}

#[derive(Debug)]
pub enum GenericArgument {
    /// The name of a lifetime, without the tick.
    Lifetime(String),
    Type(Type),
    Const(Expr),
    /// Any other argument, as source text.
    Verbatim(String),
}

#[derive(Debug)]
pub enum Type {
    Path(Path),
    Reference { lifetime: Option<String>, mutable: bool, elem: Box<Type> },
    Array { elem: Box<Type>, len: Box<Expr> },
    Tuple(Vec<Type>),
    Slice(Box<Type>),
    /// Any other type, as source text.
    Verbatim(String),
}

#[derive(Debug)]
pub enum Expr {
    Path(Path),
    /// A literal, as source text.
    Lit(String),
    Unary { op: String, operand: Box<Expr> },
    Array(Vec<Expr>),
    Repeat { elem: Box<Expr>, len: Box<Expr> },
    Block(Vec<Stmt>),
    /// `base[index]`. Where the index is a signed literal, `position` is its value.
    Index { base: Box<Expr>, index: Box<Expr>, position: i32 },
    /// A macro call: the last segment of its path, its tokens, and all of it as
    /// source text.
    Macro { name: String, tokens: Vec<MacroToken>, source: String },
    Struct { path: Path, fields: Vec<FieldValue>, rest: Option<Box<Expr>> },
    /// Any other expression: its source text with the parts that can be rewritten
    /// cut out of it.
    Composite(Vec<Piece>),
}

/// `member: expr` in a struct literal.
#[derive(Debug)]
pub struct FieldValue {
    pub member: String,
    pub expr: Expr,
}

#[derive(Debug)]
pub enum Stmt {
    Expr { expr: Expr, semi: bool },
    /// Any other statement, cut into pieces like [`Expr::Composite`].
    Composite(Vec<Piece>),
}

/// A piece of an expression or a statement.
#[derive(Debug)]
pub enum Piece {
    Source(String),
    Expr(Expr),
    Type(Type),
    /// A path in a pattern.
    Path(Path),
}

/// A token inside a macro call.
#[derive(Debug)]
pub enum MacroToken {
    Literal(String),
    Ident(String),
    Comma,
    /// Any other token, as it is shown in a diagnostic.
    Other(String),
}

pub struct QSelfS {
    pub ty: Text,
    pub position: nat,
}

pub struct PathS {
    pub qself: Option<QSelfS>,
    pub leading_colon: bool,
    pub segments: Seq<SegmentS>,
}

pub struct SegmentS {
    pub ident: Text,
    pub arguments: ArgumentsS,
}

pub enum ArgumentsS {
    Empty,
    AngleBracketed { turbofish: bool, args: Seq<ArgS> },
    Parenthesized(Text),
}

pub enum ArgS {
    Lifetime(Text),
    Type(TypeS),
    Const(ExprS),
    Verbatim(Text),
}

pub enum TypeS {
    Path(PathS),
    Reference { lifetime: Option<Text>, mutable: bool, elem: Box<TypeS> },
    Array { elem: Box<TypeS>, len: Box<ExprS> },
    Tuple(Seq<TypeS>),
    Slice(Box<TypeS>),
    Verbatim(Text),
}

pub enum ExprS {
    Path(PathS),
    Lit(Text),
    Unary { op: Text, operand: Box<ExprS> },
    Array(Seq<ExprS>),
    Repeat { elem: Box<ExprS>, len: Box<ExprS> },
    Block(Seq<StmtS>),
    Index { base: Box<ExprS>, index: Box<ExprS>, position: i32 },
    Macro { name: Text, tokens: Seq<MacroTokenS>, source: Text },
    Struct { path: PathS, fields: Seq<FieldValueS>, rest: Option<Box<ExprS>> },
    Composite(Seq<PieceS>),
}

pub struct FieldValueS {
    pub member: Text,
    pub expr: ExprS,
}

pub enum StmtS {
    Expr { expr: ExprS, semi: bool },
    Composite(Seq<PieceS>),
}

pub enum PieceS {
    Source(Text),
    Expr(ExprS),
    Type(TypeS),
    Path(PathS),
}

pub enum MacroTokenS {
    Literal(Text),
    Ident(Text),
    Comma,
    Other(Text),
}

// ---------------------------------------------------------------------------
// Views
// ---------------------------------------------------------------------------

pub open spec fn qself_s(q: Option<QSelf>) -> Option<QSelfS> {
    match q {
        Some(q) => Some(QSelfS { ty: q.ty@, position: q.position as nat }),
        None => None,
    }
}

pub open spec fn path_s(p: Path) -> PathS
    decreases p,
{
    PathS {
        qself: qself_s(p.qself),
        leading_colon: p.leading_colon,
        segments: segments_s(p.segments@),
    }
}

pub open spec fn segments_s(v: Seq<PathSegment>) -> Seq<SegmentS>
    decreases v,
{
    Seq::new(v.len(), |i: int| if 0 <= i < v.len() { segment_s(v[i]) } else { arbitrary() })
}

pub open spec fn segment_s(s: PathSegment) -> SegmentS
    decreases s,
{
    SegmentS { ident: s.ident@, arguments: arguments_s(s.arguments) }
}

pub open spec fn arguments_s(a: PathArguments) -> ArgumentsS
    decreases a,
{
    match a {
        PathArguments::Empty => ArgumentsS::Empty,
        PathArguments::AngleBracketed { turbofish, args } => ArgumentsS::AngleBracketed {
            turbofish,
            args: args_s(args@),
        },
        PathArguments::Parenthesized(t) => ArgumentsS::Parenthesized(t@),
    }
}

pub open spec fn args_s(v: Seq<GenericArgument>) -> Seq<ArgS>
    decreases v,
{
    Seq::new(v.len(), |i: int| if 0 <= i < v.len() { arg_s(v[i]) } else { arbitrary() })
}

pub open spec fn arg_s(a: GenericArgument) -> ArgS
    decreases a,
{
    match a {
        GenericArgument::Lifetime(l) => ArgS::Lifetime(l@),
        GenericArgument::Type(t) => ArgS::Type(type_s(t)),
        GenericArgument::Const(e) => ArgS::Const(expr_s(e)),
        GenericArgument::Verbatim(t) => ArgS::Verbatim(t@),
    }
}

pub open spec fn types_s(v: Seq<Type>) -> Seq<TypeS>
    decreases v,
{
    Seq::new(v.len(), |i: int| if 0 <= i < v.len() { type_s(v[i]) } else { arbitrary() })
}

pub open spec fn type_s(t: Type) -> TypeS
    decreases t,
{
    match t {
        Type::Path(p) => TypeS::Path(path_s(p)),
        Type::Reference { lifetime, mutable, elem } => TypeS::Reference {
            lifetime: opt_text(lifetime),
            mutable,
            elem: Box::new(type_s(*elem)),
        },
        Type::Array { elem, len } => TypeS::Array {
            elem: Box::new(type_s(*elem)),
            len: Box::new(expr_s(*len)),
        },
        Type::Tuple(elems) => TypeS::Tuple(types_s(elems@)),
        Type::Slice(elem) => TypeS::Slice(Box::new(type_s(*elem))),
        Type::Verbatim(t) => TypeS::Verbatim(t@),
    }
}

pub open spec fn exprs_s(v: Seq<Expr>) -> Seq<ExprS>
    decreases v,
{
    Seq::new(v.len(), |i: int| if 0 <= i < v.len() { expr_s(v[i]) } else { arbitrary() })
}

pub open spec fn expr_s(e: Expr) -> ExprS
    decreases e,
{
    match e {
        Expr::Path(p) => ExprS::Path(path_s(p)),
        Expr::Lit(t) => ExprS::Lit(t@),
        Expr::Unary { op, operand } => ExprS::Unary {
            op: op@,
            operand: Box::new(expr_s(*operand)),
        },
        Expr::Array(elems) => ExprS::Array(exprs_s(elems@)),
        Expr::Repeat { elem, len } => ExprS::Repeat {
            elem: Box::new(expr_s(*elem)),
            len: Box::new(expr_s(*len)),
        },
        Expr::Block(stmts) => ExprS::Block(stmts_s(stmts@)),
        Expr::Index { base, index, position } => ExprS::Index {
            base: Box::new(expr_s(*base)),
            index: Box::new(expr_s(*index)),
            position,
        },
        Expr::Macro { name, tokens, source } => ExprS::Macro {
            name: name@,
            tokens: macro_tokens_s(tokens@),
            source: source@,
        },
        Expr::Struct { path, fields, rest } => ExprS::Struct {
            path: path_s(path),
            fields: field_values_s(fields@),
            rest: match rest {
                Some(r) => Some(Box::new(expr_s(*r))),
                None => None,
            },
        },
        Expr::Composite(pieces) => ExprS::Composite(pieces_s(pieces@)),
    }
}

pub open spec fn field_values_s(v: Seq<FieldValue>) -> Seq<FieldValueS>
    decreases v,
{
    Seq::new(v.len(), |i: int| if 0 <= i < v.len() { field_value_s(v[i]) } else { arbitrary() })
}

pub open spec fn field_value_s(f: FieldValue) -> FieldValueS
    decreases f,
{
    FieldValueS { member: f.member@, expr: expr_s(f.expr) }
}

pub open spec fn stmts_s(v: Seq<Stmt>) -> Seq<StmtS>
    decreases v,
{
    Seq::new(v.len(), |i: int| if 0 <= i < v.len() { stmt_s(v[i]) } else { arbitrary() })
}

pub open spec fn stmt_s(s: Stmt) -> StmtS
    decreases s,
{
    match s {
        Stmt::Expr { expr, semi } => StmtS::Expr { expr: expr_s(expr), semi },
        Stmt::Composite(pieces) => StmtS::Composite(pieces_s(pieces@)),
    }
}

pub open spec fn pieces_s(v: Seq<Piece>) -> Seq<PieceS>
    decreases v,
{
    Seq::new(v.len(), |i: int| if 0 <= i < v.len() { piece_s(v[i]) } else { arbitrary() })
}

pub open spec fn piece_s(p: Piece) -> PieceS
    decreases p,
{
    match p {
        Piece::Source(t) => PieceS::Source(t@),
        Piece::Expr(e) => PieceS::Expr(expr_s(e)),
        Piece::Type(t) => PieceS::Type(type_s(t)),
        Piece::Path(p) => PieceS::Path(path_s(p)),
    }
}

pub open spec fn macro_token_s(t: MacroToken) -> MacroTokenS {
    match t {
        MacroToken::Literal(t) => MacroTokenS::Literal(t@),
        MacroToken::Ident(t) => MacroTokenS::Ident(t@),
        MacroToken::Comma => MacroTokenS::Comma,
        MacroToken::Other(t) => MacroTokenS::Other(t@),
    }
}

pub open spec fn macro_tokens_s(v: Seq<MacroToken>) -> Seq<MacroTokenS> {
    Seq::new(v.len(), |i: int| macro_token_s(v[i]))
}

impl View for Path {
    type V = PathS;

    open spec fn view(&self) -> PathS {
        path_s(*self)
    }
}

impl View for PathSegment {
    type V = SegmentS;

    open spec fn view(&self) -> SegmentS {
        segment_s(*self)
    }
}

impl View for PathArguments {
    type V = ArgumentsS;

    open spec fn view(&self) -> ArgumentsS {
        arguments_s(*self)
    }
}

impl View for GenericArgument {
    type V = ArgS;

    open spec fn view(&self) -> ArgS {
        arg_s(*self)
    }
}

impl View for Type {
    type V = TypeS;

    open spec fn view(&self) -> TypeS {
        type_s(*self)
    }
}

impl View for Expr {
    type V = ExprS;

    open spec fn view(&self) -> ExprS {
        expr_s(*self)
    }
}

impl View for Stmt {
    type V = StmtS;

    open spec fn view(&self) -> StmtS {
        stmt_s(*self)
    }
}

impl View for Piece {
    type V = PieceS;

    open spec fn view(&self) -> PieceS {
        piece_s(*self)
    }
}

impl View for MacroToken {
    type V = MacroTokenS;

    open spec fn view(&self) -> MacroTokenS {
        macro_token_s(*self)
    }
}

} // verus!
