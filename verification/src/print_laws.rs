//! What holds of printing: every text is made of the texts of its parts, in their order.
use crate::ast::{
    ArgS, ArgumentsS, ExprS, FieldValueS, PathS, PieceS, QSelfS, SegmentS, StmtS, TypeS,
};
use crate::items::{where_text, FnArgS, GenericParamS, SignatureS};
use crate::print::{
    angle_text, arg_text, args_texts, expr_text, exprs_texts, field_values_texts, path_text,
    piece_text, pieces_texts, segment_text, segments_texts, stmt_text, stmts_texts, type_text,
    types_texts,
};
use crate::text::{join_text, Text};
use vstd::prelude::*;

verus! {

// ---------------------------------------------------------------------------
// Lists
// ---------------------------------------------------------------------------

/// A joined list with one more text is the list so far, the separator and that text.
pub proof fn law_joining_appends(parts: Seq<Text>, t: Text, sep: Text)
    ensures
        join_text(seq![], sep) == Seq::<char>::empty(),
        join_text(parts.push(t), sep) == if parts.len() == 0 {
            t
        } else {
            join_text(parts, sep) + sep + t
        },
{
    assert(parts.push(t).drop_last() =~= parts);
}

// ---------------------------------------------------------------------------
// Pieces and statements
// ---------------------------------------------------------------------------

/// A statement or an expression made of pieces is printed piece by piece, with a space between;
/// a piece is printed as what it is, a path as in an expression.
pub proof fn law_pieces_are_printed(v: Seq<PieceS>, p: PieceS)
    ensures
        stmt_text(StmtS::Composite(v)) == expr_text(ExprS::Composite(v)),
        expr_text(ExprS::Composite(seq![p])) == piece_text(p),
        v.len() > 0 ==> expr_text(ExprS::Composite(v.push(p))) == expr_text(ExprS::Composite(v))
            + " "@ + piece_text(p),
        piece_text(p) == match p {
            PieceS::Source(t) => t,
            PieceS::Expr(e) => expr_text(e),
            PieceS::Type(t) => type_text(t),
            PieceS::Path(p) => expr_text(ExprS::Path(p)),
        },
{
    assert(pieces_texts(seq![p]) =~= seq![piece_text(p)]);
    assert(pieces_texts(v.push(p)) =~= pieces_texts(v).push(piece_text(p)));
    law_joining_appends(pieces_texts(v), piece_text(p), " "@);
}

/// A block is printed statement by statement, in braces; a statement ends in a semicolon exactly
/// if it has one.
pub proof fn law_statements_are_printed(v: Seq<StmtS>, e: ExprS)
    ensures
        stmt_text(StmtS::Expr { expr: e, semi: true }) == expr_text(e) + " ;"@,
        stmt_text(StmtS::Expr { expr: e, semi: false }) == expr_text(e),
        v.len() > 0 ==> expr_text(ExprS::Block(v)) == "{ "@ + join_text(stmts_texts(v), " "@)
            + " }"@,
        stmts_texts(v).len() == v.len(),
        forall|i: int| 0 <= i < v.len() ==> #[trigger] stmts_texts(v)[i] == stmt_text(v[i]),
{
}

/// The elements of a list, the fields of a struct literal and the members of a tuple are printed
/// in their order.
pub proof fn law_elements_are_printed(
    elems: Seq<ExprS>,
    types: Seq<TypeS>,
    path: PathS,
    fields: Seq<FieldValueS>,
    rest: ExprS,
)
    ensures
        expr_text(ExprS::Array(elems)) == "["@ + join_text(exprs_texts(elems), " , "@) + "]"@,
        exprs_texts(elems).len() == elems.len(),
        forall|i: int| 0 <= i < elems.len() ==> #[trigger] exprs_texts(elems)[i] == expr_text(
            elems[i],
        ),
        types_texts(types).len() == types.len(),
        forall|i: int| 0 <= i < types.len() ==> #[trigger] types_texts(types)[i] == type_text(
            types[i],
        ),
        type_text(TypeS::Tuple(types)) == "("@ + join_text(types_texts(types), " , "@) + (
        if types.len() == 1 {
            " ,)"@
        } else {
            ")"@
        }),
        field_values_texts(fields).len() == fields.len(),
        forall|i: int|
            0 <= i < fields.len() ==> #[trigger] field_values_texts(fields)[i] == fields[i].member
                + " : "@ + expr_text(fields[i].expr) + " ,"@,
        expr_text(ExprS::Struct { path, fields, rest: None }) == expr_text(ExprS::Path(path)) + " { "@
            + join_text(field_values_texts(fields), " "@) + " }"@,
        expr_text(ExprS::Struct { path, fields, rest: Some(Box::new(rest)) }) == expr_text(
            ExprS::Path(path),
        ) + " { "@ + join_text(field_values_texts(fields), " "@) + (" .. "@ + expr_text(rest)
            + " }"@),
{
}

// ---------------------------------------------------------------------------
// Paths
// ---------------------------------------------------------------------------

/// A path is printed segment by segment; only in an expression, or where it is written so, are
/// generic arguments set off by `::`. What stands in parentheses is set off in the same way.
pub proof fn law_segments_are_printed(
    leading_colon: bool,
    v: Seq<SegmentS>,
    s: SegmentS,
    turbofish: bool,
    args: Seq<ArgS>,
    t: Text,
    expr: bool,
)
    ensures
        v.len() > 0 ==> path_text(PathS { qself: None, leading_colon, segments: v.push(s) }, expr)
            == path_text(PathS { qself: None, leading_colon, segments: v }, expr) + " :: "@
            + segment_text(s, expr),
        path_text(PathS { qself: None, leading_colon: false, segments: seq![s] }, expr)
            == segment_text(s, expr),
        path_text(PathS { qself: None, leading_colon: true, segments: seq![s] }, expr) == ":: "@
            + segment_text(s, expr),
        segment_text(SegmentS { ident: t, arguments: ArgumentsS::Empty }, expr) == t,
        segment_text(
            SegmentS { ident: t, arguments: ArgumentsS::AngleBracketed { turbofish, args } },
            expr,
        ) == t + ((if turbofish || expr { " :: "@ } else { " "@ }) + angle_text(args_texts(args))),
        segment_text(SegmentS { ident: s.ident, arguments: ArgumentsS::Parenthesized(t) }, expr)
            == s.ident + ((if expr { " :: "@ } else { " "@ }) + t),
        args_texts(args).len() == args.len(),
        forall|i: int| 0 <= i < args.len() ==> #[trigger] args_texts(args)[i] == arg_text(args[i]),
{
    reveal_strlit("");
    let all = segments_texts(v.push(s), expr);
    assert(all =~= segments_texts(v, expr).push(segment_text(s, expr)));
    law_joining_appends(segments_texts(v, expr), segment_text(s, expr), " :: "@);
    let lead = crate::print::lead_text(leading_colon);
    let so_far = join_text(segments_texts(v, expr), " :: "@);
    if v.len() > 0 {
        assert(lead + (so_far + " :: "@ + segment_text(s, expr)) =~= lead + so_far + " :: "@
            + segment_text(s, expr));
    }
    assert(segments_texts(seq![s], expr) =~= seq![segment_text(s, expr)]);
    assert(path_text(PathS { qself: None, leading_colon: false, segments: seq![s] }, expr)
        =~= segment_text(s, expr));
    assert(path_text(PathS { qself: None, leading_colon: true, segments: seq![s] }, expr) =~= ":: "@
        + segment_text(s, expr));
    assert(segment_text(SegmentS { ident: t, arguments: ArgumentsS::Empty }, expr) =~= t);
}

/// The path of a qualified type: `< T as head > :: tail`, where `head` is the first segments of
/// the path, up to the position, and never set off as in an expression.
pub proof fn law_qualified_path_is_printed(
    ty: Text,
    leading_colon: bool,
    head: Seq<SegmentS>,
    tail: Seq<SegmentS>,
    expr: bool,
)
    requires
        head.len() > 0,
        tail.len() > 0,
    ensures
        path_text(
            PathS {
                qself: Some(QSelfS { ty, position: head.len() }),
                leading_colon,
                segments: head + tail,
            },
            expr,
        ) == "< "@ + ty + (" as "@ + (if leading_colon { ":: "@ } else { ""@ }) + join_text(
            segments_texts(head, false),
            " :: "@,
        )) + " >"@ + (" :: "@ + join_text(segments_texts(tail, expr), " :: "@)),
{
    let all = head + tail;
    assert(segments_texts(all, false).subrange(0, head.len() as int) =~= segments_texts(
        head,
        false,
    ));
    assert(segments_texts(all, expr).subrange(head.len() as int, all.len() as int)
        =~= segments_texts(tail, expr));
}

/// A constant argument stands in braces unless it is a literal, a block or a bare name.
pub proof fn law_constant_argument_is_braced(e: ExprS)
    ensures
        ({
            let bare = e is Lit || e is Block || (e matches ExprS::Path(p) && p.qself is None
                && !p.leading_colon && p.segments.len() == 1 && p.segments[0].arguments is Empty);
            arg_text(ArgS::Const(e)) == if bare {
                expr_text(e)
            } else {
                "{ "@ + expr_text(e) + " }"@
            }
        }),
{
}

// ---------------------------------------------------------------------------
// Signatures
// ---------------------------------------------------------------------------

/// A signature is printed with its qualifiers, its name, its parameters, its arguments in their
/// order, its return type if it has one, and its bounds if it has any.
pub proof fn law_signature_is_printed(s: SignatureS)
    ensures
        s.text() == s.qualifiers + " fn "@ + s.ident + (if s.generics.params.len() == 0 {
            ""@
        } else {
            " "@ + angle_text(Seq::new(s.generics.params.len(), |i: int| param_printed(s.generics.params[i])))
        }) + ("("@ + join_text(Seq::new(s.inputs.len(), |i: int| arg_printed(s.inputs[i])), " , "@)
            + ")"@) + (match s.output {
            Some(t) => " -> "@ + type_text(t),
            None => ""@,
        }) + where_text(s.generics.where_clause),
        forall|preds: Seq<Text>|
            preds.len() > 0 ==> #[trigger] where_text(Some(preds)) == " where "@ + join_text(
                preds,
                " , "@,
            ),
        where_text(None) == ""@,
        where_text(Some(seq![])) == ""@,
{
    assert(crate::items::param_texts(s.generics.params) =~= Seq::new(
        s.generics.params.len(),
        |i: int| param_printed(s.generics.params[i]),
    ));
    assert(crate::items::fn_arg_texts(s.inputs) =~= Seq::new(
        s.inputs.len(),
        |i: int| arg_printed(s.inputs[i]),
    ));
}

pub open spec fn param_printed(p: GenericParamS) -> Text {
    match p {
        GenericParamS::Type { ident, rest } => ident + rest,
        GenericParamS::Const { ident, ty, rest } => "const "@ + ident + " : "@ + type_text(ty)
            + rest,
        GenericParamS::Lifetime { ident, rest } => "'"@ + ident + rest,
    }
}

pub open spec fn arg_printed(a: FnArgS) -> Text {
    match a {
        FnArgS::Receiver(t) => t,
        FnArgS::Typed { pat, ty } => pat.source + " : "@ + type_text(ty),
    }
}

/// A parameter is referred to by its name, a lifetime with its tick.
pub proof fn law_parameter_is_referred_to(p: GenericParamS)
    ensures
        p.arg_text() == match p {
            GenericParamS::Lifetime { ident, .. } => "'"@ + ident,
            _ => p.name(),
        },
        p.name() == match p {
            GenericParamS::Type { ident, .. } => ident,
            GenericParamS::Const { ident, .. } => ident,
            GenericParamS::Lifetime { ident, .. } => ident,
        },
{
}

} // verus!
