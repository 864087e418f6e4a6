//! Source text of syntax: the tokens in order, a space between neighbours except
//! inside round and square brackets.
use crate::ast::{
    args_s, exprs_s, field_value_s, field_values_s, pieces_s, segments_s, stmts_s, types_s, ArgS,
    ArgumentsS, ExprS, FieldValueS, PathS, PieceS, SegmentS, StmtS, TypeS,
};
use crate::ast::{
    Expr, FieldValue, GenericArgument, Path, PathArguments, PathSegment, Piece, Stmt, Type,
};
use crate::text::{cat2, cat3, cat4, cat5, join, join_range, join_text, texts, Text};
use vstd::prelude::*;

verus! {

// ---------------------------------------------------------------------------
// The text of a model
// ---------------------------------------------------------------------------

/// The text of a path. In an expression, generic arguments are written with `::`.
pub open spec fn path_text(p: PathS, expr: bool) -> Text
    decreases p,
{
    let n = p.segments.len() as int;
    match p.qself {
        None => lead_text(p.leading_colon) + join_text(
            segments_texts(p.segments, expr),
            " :: "@,
        ),
        Some(q) => {
            let pos = if q.position < n { q.position as int } else { n };
            let head = segments_texts(p.segments, false).subrange(0, pos);
            let tail = segments_texts(p.segments, expr).subrange(pos, n);
            "< "@ + q.ty + as_text(p.leading_colon, head) + " >"@ + tail_text(tail)
        },
    }
}

pub open spec fn lead_text(leading_colon: bool) -> Text {
    if leading_colon { ":: "@ } else { ""@ }
}

/// The trait named in a qualified path, if any.
pub open spec fn as_text(leading_colon: bool, head: Seq<Text>) -> Text {
    if head.len() == 0 {
        ""@
    } else {
        " as "@ + lead_text(leading_colon) + join_text(head, " :: "@)
    }
}

/// The segments behind the `<T as Trait>` of a qualified path.
pub open spec fn tail_text(tail: Seq<Text>) -> Text {
    if tail.len() == 0 { ""@ } else { " :: "@ + join_text(tail, " :: "@) }
}

pub open spec fn segment_text(s: SegmentS, expr: bool) -> Text
    decreases s,
{
    s.ident + arguments_text(s.arguments, expr)
}

pub open spec fn arguments_text(a: ArgumentsS, expr: bool) -> Text
    decreases a,
{
    match a {
        ArgumentsS::Empty => ""@,
        ArgumentsS::AngleBracketed { turbofish, args } => {
            (if turbofish || expr { " :: "@ } else { " "@ }) + angle_text(args_texts(args))
        },
        ArgumentsS::Parenthesized(t) => (if expr { " :: "@ } else { " "@ }) + t,
    }
}

/// A list of generic arguments between angle brackets.
pub open spec fn angle_text(args: Seq<Text>) -> Text {
    if args.len() == 0 { "< >"@ } else { "< "@ + join_text(args, " , "@) + " >"@ }
}

pub open spec fn arg_text(a: ArgS) -> Text
    decreases a,
{
    match a {
        ArgS::Lifetime(l) => "'"@ + l,
        ArgS::Type(t) => type_text(t),
        ArgS::Const(e) => if stands_bare(e) { expr_text(e) } else { "{ "@ + expr_text(e) + " }"@ },
        ArgS::Verbatim(t) => t,
    }
}

/// Whether a const argument needs no braces of its own.
pub open spec fn stands_bare(e: ExprS) -> bool {
    match e {
        ExprS::Lit(_) => true,
        ExprS::Block(_) => true,
        ExprS::Path(p) => p.qself is None && path_ident(p) is Some,
        _ => false,
    }
}

/// The name that a path consists of, if it is a single plain name.
pub open spec fn path_ident(p: PathS) -> Option<Text> {
    if !p.leading_colon && p.segments.len() == 1 && p.segments[0].arguments is Empty {
        Some(p.segments[0].ident)
    } else {
        None
    }
}

pub open spec fn type_text(t: TypeS) -> Text
    decreases t,
{
    match t {
        TypeS::Path(p) => path_text(p, false),
        TypeS::Reference { lifetime, mutable, elem } => "&"@ + ref_lifetime_text(lifetime)
            + (if mutable { " mut "@ } else { " "@ }) + type_text(*elem),
        TypeS::Array { elem, len } => "["@ + type_text(*elem) + " ; "@ + expr_text(*len) + "]"@,
        TypeS::Tuple(elems) => "("@ + join_text(types_texts(elems), " , "@) + (if elems.len() == 1 {
            " ,)"@
        } else {
            ")"@
        }),
        TypeS::Slice(elem) => "["@ + type_text(*elem) + "]"@,
        TypeS::Verbatim(t) => t,
    }
}

pub open spec fn ref_lifetime_text(lifetime: Option<Text>) -> Text {
    match lifetime {
        Some(l) => " '"@ + l,
        None => ""@,
    }
}

pub open spec fn expr_text(e: ExprS) -> Text
    decreases e,
{
    match e {
        ExprS::Path(p) => path_text(p, true),
        ExprS::Lit(t) => t,
        ExprS::Unary { op, operand } => op + " "@ + expr_text(*operand),
        ExprS::Array(elems) => "["@ + join_text(exprs_texts(elems), " , "@) + "]"@,
        ExprS::Repeat { elem, len } => "["@ + expr_text(*elem) + " ; "@ + expr_text(*len) + "]"@,
        ExprS::Block(stmts) => if stmts.len() == 0 {
            "{ }"@
        } else {
            "{ "@ + join_text(stmts_texts(stmts), " "@) + " }"@
        },
        ExprS::Index { base, index, position } => expr_text(*base) + " ["@ + expr_text(*index)
            + "]"@,
        ExprS::Macro { name, tokens, source } => source,
        ExprS::Struct { path, fields, rest } => path_text(path, true) + " { "@ + join_text(
            field_values_texts(fields),
            " "@,
        ) + (match rest {
            Some(r) => " .. "@ + expr_text(*r) + " }"@,
            None => " }"@,
        }),
        ExprS::Composite(pieces) => join_text(pieces_texts(pieces), " "@),
    }
}

pub open spec fn field_value_text(f: FieldValueS) -> Text
    decreases f,
{
    f.member + " : "@ + expr_text(f.expr) + " ,"@
}

pub open spec fn stmt_text(s: StmtS) -> Text
    decreases s,
{
    match s {
        StmtS::Expr { expr, semi } => if semi {
            expr_text(expr) + " ;"@
        } else {
            expr_text(expr)
        },
        StmtS::Composite(pieces) => join_text(pieces_texts(pieces), " "@),
    }
}

pub open spec fn piece_text(p: PieceS) -> Text
    decreases p,
{
    match p {
        PieceS::Source(t) => t,
        PieceS::Expr(e) => expr_text(e),
        PieceS::Type(t) => type_text(t),
        PieceS::Path(p) => path_text(p, true),
    }
}

pub open spec fn segments_texts(v: Seq<SegmentS>, expr: bool) -> Seq<Text>
    decreases v,
{
    Seq::new(v.len(), |i: int| if 0 <= i < v.len() { segment_text(v[i], expr) } else { arbitrary() })
}

pub open spec fn args_texts(v: Seq<ArgS>) -> Seq<Text>
    decreases v,
{
    Seq::new(v.len(), |i: int| if 0 <= i < v.len() { arg_text(v[i]) } else { arbitrary() })
}

pub open spec fn types_texts(v: Seq<TypeS>) -> Seq<Text>
    decreases v,
{
    Seq::new(v.len(), |i: int| if 0 <= i < v.len() { type_text(v[i]) } else { arbitrary() })
}

pub open spec fn exprs_texts(v: Seq<ExprS>) -> Seq<Text>
    decreases v,
{
    Seq::new(v.len(), |i: int| if 0 <= i < v.len() { expr_text(v[i]) } else { arbitrary() })
}

pub open spec fn field_values_texts(v: Seq<FieldValueS>) -> Seq<Text>
    decreases v,
{
    Seq::new(v.len(), |i: int| if 0 <= i < v.len() { field_value_text(v[i]) } else { arbitrary() })
}

pub open spec fn stmts_texts(v: Seq<StmtS>) -> Seq<Text>
    decreases v,
{
    Seq::new(v.len(), |i: int| if 0 <= i < v.len() { stmt_text(v[i]) } else { arbitrary() })
}

pub open spec fn pieces_texts(v: Seq<PieceS>) -> Seq<Text>
    decreases v,
{
    Seq::new(v.len(), |i: int| if 0 <= i < v.len() { piece_text(v[i]) } else { arbitrary() })
}

// ---------------------------------------------------------------------------
// Printing
// ---------------------------------------------------------------------------

/// The name that a path consists of, if it is a single plain name.
pub fn get_ident(p: &Path) -> (r: Option<&String>)
    ensures
        match r {
            Some(s) => path_ident(p@) == Some(s@),
            None => path_ident(p@) is None,
        },
{
    if p.leading_colon || p.segments.len() != 1 {
        return None;
    }
    match &p.segments[0].arguments {
        PathArguments::Empty => Some(&p.segments[0].ident),
        _ => None,
    }
}

pub fn print_path(p: &Path, expr: bool) -> (r: String)
    ensures
        r@ == path_text(p@, expr),
    decreases p,
{
    let segments = print_segments(&p.segments, expr);
    assert(texts(segments@).len() == p.segments@.len());
    let lead = if p.leading_colon { ":: " } else { "" };
    match &p.qself {
        None => {
            let body = join(&segments, " :: ");
            cat2(lead, body.as_str())
        },
        Some(q) => {
            let n: usize = p.segments.len();
            let pos: usize = if q.position < n { q.position } else { n };
            let heads = print_segments(&p.segments, false);
            assert(texts(heads@).len() == n);
            let head = if pos == 0 {
                cat2("", "")
            } else {
                let h = join_range(&heads, 0, pos, " :: ");
                cat3(" as ", lead, h.as_str())
            };
            let tail = if pos == n {
                cat2("", "")
            } else {
                let t = join_range(&segments, pos, n, " :: ");
                cat2(" :: ", t.as_str())
            };
            proof {
                reveal_strlit("");
                assert(""@ + ""@ =~= ""@);
            }
            cat5("< ", q.ty.as_str(), head.as_str(), " >", tail.as_str())
        },
    }
}

pub fn print_segment(s: &PathSegment, expr: bool) -> (r: String)
    ensures
        r@ == segment_text(s@, expr),
    decreases s,
{
    let args = print_arguments(&s.arguments, expr);
    cat2(s.ident.as_str(), args.as_str())
}

pub fn print_arguments(a: &PathArguments, expr: bool) -> (r: String)
    ensures
        r@ == arguments_text(a@, expr),
    decreases a,
{
    match a {
        PathArguments::Empty => "".to_owned(),
        PathArguments::AngleBracketed { turbofish, args } => {
            let texts = print_args(args);
            let angle = print_angle(&texts);
            cat2(if *turbofish || expr { " :: " } else { " " }, angle.as_str())
        },
        PathArguments::Parenthesized(t) => cat2(if expr { " :: " } else { " " }, t.as_str()),
    }
}

pub fn print_angle(args: &Vec<String>) -> (r: String)
    ensures
        r@ == angle_text(texts(args@)),
{
    if args.len() == 0 {
        "< >".to_owned()
    } else {
        let body = join(args, " , ");
        cat3("< ", body.as_str(), " >")
    }
}

fn is_bare(e: &Expr) -> (r: bool)
    ensures
        r == stands_bare(e@),
{
    match e {
        Expr::Lit(_) => true,
        Expr::Block(_) => true,
        Expr::Path(p) => {
            let plain = get_ident(p).is_some();
            p.qself.is_none() && plain
        },
        _ => false,
    }
}

pub fn print_arg(a: &GenericArgument) -> (r: String)
    ensures
        r@ == arg_text(a@),
    decreases a,
{
    match a {
        GenericArgument::Lifetime(l) => cat2("'", l.as_str()),
        GenericArgument::Type(t) => print_type(t),
        GenericArgument::Const(e) => {
            let body = print_expr(e);
            if is_bare(e) { body } else { cat3("{ ", body.as_str(), " }") }
        },
        GenericArgument::Verbatim(t) => t.clone(),
    }
}

pub fn print_type(t: &Type) -> (r: String)
    ensures
        r@ == type_text(t@),
    decreases t,
{
    match t {
        Type::Path(p) => print_path(p, false),
        Type::Reference { lifetime, mutable, elem } => {
            let lt = match lifetime {
                Some(l) => cat2(" '", l.as_str()),
                None => "".to_owned(),
            };
            let inner = print_type(elem);
            cat4("&", lt.as_str(), if *mutable { " mut " } else { " " }, inner.as_str())
        },
        Type::Array { elem, len } => {
            let inner = print_type(elem);
            let len_text = print_expr(len);
            cat5("[", inner.as_str(), " ; ", len_text.as_str(), "]")
        },
        Type::Tuple(elems) => {
            let body = join(&print_types(elems), " , ");
            cat3("(", body.as_str(), if elems.len() == 1 { " ,)" } else { ")" })
        },
        Type::Slice(elem) => {
            let inner = print_type(elem);
            cat3("[", inner.as_str(), "]")
        },
        Type::Verbatim(t) => t.clone(),
    }
}

pub fn print_expr(e: &Expr) -> (r: String)
    ensures
        r@ == expr_text(e@),
    decreases e,
{
    match e {
        Expr::Path(p) => print_path(p, true),
        Expr::Lit(t) => t.clone(),
        Expr::Unary { op, operand } => {
            let inner = print_expr(operand);
            cat3(op.as_str(), " ", inner.as_str())
        },
        Expr::Array(elems) => {
            let body = join(&print_exprs(elems), " , ");
            cat3("[", body.as_str(), "]")
        },
        Expr::Repeat { elem, len } => {
            let inner = print_expr(elem);
            let len_text = print_expr(len);
            cat5("[", inner.as_str(), " ; ", len_text.as_str(), "]")
        },
        Expr::Block(stmts) => {
            assert(stmts_s(stmts@).len() == stmts@.len());
            if stmts.len() == 0 {
                "{ }".to_owned()
            } else {
                let body = join(&print_stmts(stmts), " ");
                cat3("{ ", body.as_str(), " }")
            }
        },
        Expr::Index { base, index, position: _ } => {
            let b = print_expr(base);
            let i = print_expr(index);
            cat4(b.as_str(), " [", i.as_str(), "]")
        },
        Expr::Macro { name: _, tokens: _, source } => source.clone(),
        Expr::Struct { path, fields, rest } => {
            let p = print_path(path, true);
            let body = join(&print_field_values(fields), " ");
            let end = match rest {
                Some(r) => {
                    let inner = print_expr(r);
                    cat3(" .. ", inner.as_str(), " }")
                },
                None => " }".to_owned(),
            };
            cat4(p.as_str(), " { ", body.as_str(), end.as_str())
        },
        Expr::Composite(pieces) => join(&print_pieces(pieces), " "),
    }
}

pub fn print_field_value(f: &FieldValue) -> (r: String)
    ensures
        r@ == field_value_text(field_value_s(*f)),
    decreases f,
{
    let inner = print_expr(&f.expr);
    cat4(f.member.as_str(), " : ", inner.as_str(), " ,")
}

pub fn print_stmt(s: &Stmt) -> (r: String)
    ensures
        r@ == stmt_text(s@),
    decreases s,
{
    match s {
        Stmt::Expr { expr, semi } => {
            let inner = print_expr(expr);
            if *semi { cat2(inner.as_str(), " ;") } else { inner }
        },
        Stmt::Composite(pieces) => join(&print_pieces(pieces), " "),
    }
}

pub fn print_piece(p: &Piece) -> (r: String)
    ensures
        r@ == piece_text(p@),
    decreases p,
{
    match p {
        Piece::Source(t) => t.clone(),
        Piece::Expr(e) => print_expr(e),
        Piece::Type(t) => print_type(t),
        Piece::Path(p) => print_path(p, true),
    }
}

pub fn print_segments(v: &Vec<PathSegment>, expr: bool) -> (r: Vec<String>)
    ensures
        texts(r@) == segments_texts(segments_s(v@), expr),
    decreases v,
{
    let mut out: Vec<String> = Vec::new();
    let mut i: usize = 0;
    while i < v.len()
        invariant
            i <= v@.len(),
            out@.len() == i,
            forall|j: int| 0 <= j < i ==> (#[trigger] out@[j])@ == segment_text(segments_s(v@)[j], expr),
        decreases v@.len() - i,
    {
        out.push(print_segment(&v[i], expr));
        i = i + 1;
    }
    assert(texts(out@) =~= segments_texts(segments_s(v@), expr));
    out
}

pub fn print_args(v: &Vec<GenericArgument>) -> (r: Vec<String>)
    ensures
        texts(r@) == args_texts(args_s(v@)),
    decreases v,
{
    let mut out: Vec<String> = Vec::new();
    let mut i: usize = 0;
    while i < v.len()
        invariant
            i <= v@.len(),
            out@.len() == i,
            forall|j: int| 0 <= j < i ==> (#[trigger] out@[j])@ == arg_text(args_s(v@)[j]),
        decreases v@.len() - i,
    {
        out.push(print_arg(&v[i]));
        i = i + 1;
    }
    assert(texts(out@) =~= args_texts(args_s(v@)));
    out
}

pub fn print_types(v: &Vec<Type>) -> (r: Vec<String>)
    ensures
        texts(r@) == types_texts(types_s(v@)),
    decreases v,
{
    let mut out: Vec<String> = Vec::new();
    let mut i: usize = 0;
    while i < v.len()
        invariant
            i <= v@.len(),
            out@.len() == i,
            forall|j: int| 0 <= j < i ==> (#[trigger] out@[j])@ == type_text(types_s(v@)[j]),
        decreases v@.len() - i,
    {
        out.push(print_type(&v[i]));
        i = i + 1;
    }
    assert(texts(out@) =~= types_texts(types_s(v@)));
    out
}

pub fn print_exprs(v: &Vec<Expr>) -> (r: Vec<String>)
    ensures
        texts(r@) == exprs_texts(exprs_s(v@)),
    decreases v,
{
    let mut out: Vec<String> = Vec::new();
    let mut i: usize = 0;
    while i < v.len()
        invariant
            i <= v@.len(),
            out@.len() == i,
            forall|j: int| 0 <= j < i ==> (#[trigger] out@[j])@ == expr_text(exprs_s(v@)[j]),
        decreases v@.len() - i,
    {
        out.push(print_expr(&v[i]));
        i = i + 1;
    }
    assert(texts(out@) =~= exprs_texts(exprs_s(v@)));
    out
}

pub fn print_field_values(v: &Vec<FieldValue>) -> (r: Vec<String>)
    ensures
        texts(r@) == field_values_texts(field_values_s(v@)),
    decreases v,
{
    let mut out: Vec<String> = Vec::new();
    let mut i: usize = 0;
    while i < v.len()
        invariant
            i <= v@.len(),
            out@.len() == i,
            forall|j: int| 0 <= j < i ==> (#[trigger] out@[j])@ == field_value_text(field_values_s(v@)[j]),
        decreases v@.len() - i,
    {
        out.push(print_field_value(&v[i]));
        i = i + 1;
    }
    assert(texts(out@) =~= field_values_texts(field_values_s(v@)));
    out
}

pub fn print_stmts(v: &Vec<Stmt>) -> (r: Vec<String>)
    ensures
        texts(r@) == stmts_texts(stmts_s(v@)),
    decreases v,
{
    let mut out: Vec<String> = Vec::new();
    let mut i: usize = 0;
    while i < v.len()
        invariant
            i <= v@.len(),
            out@.len() == i,
            forall|j: int| 0 <= j < i ==> (#[trigger] out@[j])@ == stmt_text(stmts_s(v@)[j]),
        decreases v@.len() - i,
    {
        out.push(print_stmt(&v[i]));
        i = i + 1;
    }
    assert(texts(out@) =~= stmts_texts(stmts_s(v@)));
    out
}

pub fn print_pieces(v: &Vec<Piece>) -> (r: Vec<String>)
    ensures
        texts(r@) == pieces_texts(pieces_s(v@)),
    decreases v,
{
    let mut out: Vec<String> = Vec::new();
    let mut i: usize = 0;
    while i < v.len()
        invariant
            i <= v@.len(),
            out@.len() == i,
            forall|j: int| 0 <= j < i ==> (#[trigger] out@[j])@ == piece_text(pieces_s(v@)[j]),
        decreases v@.len() - i,
    {
        out.push(print_piece(&v[i]));
        i = i + 1;
    }
    assert(texts(out@) =~= pieces_texts(pieces_s(v@)));
    out
}

} // verus!
