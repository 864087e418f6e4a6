//! What holds of specialising bodies, and the items that hold them.
use super::bindings::{dim_text, RankBindingsS};
use super::bodies::{
    call_of, expand_shape, visit_expr, visit_exprs, visit_field, visit_fields, visit_piece,
    visit_pieces, visit_rest, visit_stmt, visit_stmts,
};
use super::laws::law_expr_path_keeps_its_name;
use super::types::{name_path, rewrite_path, rewrite_type};
use crate::ast::{ExprS, FieldValueS, MacroTokenS, PathS, PieceS, StmtS};
use crate::error::ErrorS;
use crate::lists::{collect, lemma_collect};
use crate::text::{decimal_text, Text};
use vstd::prelude::*;

verus! {

/// Each element of `from` has been through `step`, in order: the results stand at the places of
/// what they come from, and the first failure is the failure of the whole.
pub open spec fn each_in_turn<A, B>(
    from: Seq<A>,
    step: spec_fn(A) -> Result<B, ErrorS>,
    r: Result<Seq<B>, ErrorS>,
) -> bool {
    match r {
        Ok(to) => to.len() == from.len() && forall|i: int|
            0 <= i < from.len() ==> step(from[i]) == Ok::<B, ErrorS>(#[trigger] to[i]),
        Err(e) => exists|i: int|
            0 <= i < from.len() && step(#[trigger] from[i]) == Err::<B, ErrorS>(e) && forall|j: int|
                0 <= j < i ==> step(#[trigger] from[j]) is Ok,
    }
}

pub proof fn lemma_each_in_turn<A, B>(
    from: Seq<A>,
    step: spec_fn(A) -> Result<B, ErrorS>,
    results: Seq<Result<B, ErrorS>>,
)
    requires
        results.len() == from.len(),
        forall|i: int| 0 <= i < from.len() ==> #[trigger] results[i] == step(from[i]),
    ensures
        each_in_turn(from, step, collect(results)),
{
    lemma_collect(results);
    match collect(results) {
        Ok(to) => {
            assert forall|i: int| 0 <= i < from.len() implies step(from[i]) == Ok::<B, ErrorS>(
                #[trigger] to[i],
            ) by {
                assert(results[i] == Ok::<B, ErrorS>(to[i]));
            }
        },
        Err(e) => {
            let i = choose|i: int|
                0 <= i < results.len() && #[trigger] results[i] == Err::<B, ErrorS>(e)
                    && forall|j: int| 0 <= j < i ==> (#[trigger] results[j]) is Ok;
            assert(step(from[i]) == Err::<B, ErrorS>(e));
            assert forall|j: int| 0 <= j < i implies step(#[trigger] from[j]) is Ok by {
                assert(results[j] is Ok);
            }
        },
    }
}

// ---------------------------------------------------------------------------
// Statements and expressions
// ---------------------------------------------------------------------------

/// The piece of a specialised statement or expression that stands for `p`: source text as it is,
/// a type rewritten, an expression specialised, a path rewritten with its last name kept.
pub open spec fn piece_specialised(p: PieceS, b: RankBindingsS) -> Result<PieceS, ErrorS> {
    match p {
        PieceS::Source(t) => Ok(PieceS::Source(t)),
        PieceS::Type(t) => match rewrite_type(t, b) {
            Ok(u) => Ok(PieceS::Type(u)),
            Err(e) => Err(e),
        },
        PieceS::Expr(x) => match visit_expr(x, b) {
            Ok(y) => Ok(PieceS::Expr(y)),
            Err(e) => Err(e),
        },
        PieceS::Path(q) => match rewrite_path(q, b, true) {
            Ok(q) => Ok(PieceS::Path(q)),
            Err(e) => Err(e),
        },
    }
}

/// Specialising a statement specialises every part of it: an expression keeps its semicolon, and
/// a statement made of pieces, a `let` among them, has a piece for each piece, with every type
/// and path rewritten and every expression specialised.
pub proof fn law_statement_is_specialised_throughout(s: StmtS, b: RankBindingsS)
    ensures
        s matches StmtS::Expr { expr, semi } ==> match visit_stmt(s, b) {
            Ok(r) => r matches StmtS::Expr { expr: to, semi: ends } && ends == semi && visit_expr(
                expr,
                b,
            ) == Ok::<ExprS, ErrorS>(to),
            Err(e) => visit_expr(expr, b) == Err::<ExprS, ErrorS>(e),
        },
        s matches StmtS::Composite(pieces) ==> match visit_stmt(s, b) {
            Ok(r) => r matches StmtS::Composite(to) && each_in_turn(
                pieces,
                |p: PieceS| piece_specialised(p, b),
                Ok(to),
            ),
            Err(e) => each_in_turn(
                pieces,
                |p: PieceS| piece_specialised(p, b),
                Err::<Seq<PieceS>, ErrorS>(e),
            ),
        },
{
    if let StmtS::Composite(pieces) = s {
        lemma_pieces(pieces, b);
    }
}

proof fn lemma_pieces(pieces: Seq<PieceS>, b: RankBindingsS)
    ensures
        each_in_turn(
            pieces,
            |p: PieceS| piece_specialised(p, b),
            collect(visit_pieces(pieces, b)),
        ),
{
    let results = visit_pieces(pieces, b);
    let step = |p: PieceS| piece_specialised(p, b);
    assert forall|i: int| 0 <= i < pieces.len() implies #[trigger] results[i] == step(
        pieces[i],
    ) by {
        assert(results[i] == visit_piece(pieces[i], b));
    }
    lemma_each_in_turn(pieces, step, results);
}

/// A name of an array or of a length that is bound.
pub open spec fn in_scope(name: Text, b: RankBindingsS) -> bool {
    b.inst_u32.contains_key(name) || b.inst_array.contains_key(name)
}

/// The length that a bound name stands for: its own where it is a length, and that of its array
/// otherwise.
pub open spec fn value_of(name: Text, b: RankBindingsS) -> nat
    recommends
        in_scope(name, b),
{
    if b.inst_u32.contains_key(name) { b.inst_u32[name] as nat } else { b.inst_array[name].length }
}

/// In an expression a bound name by itself becomes its value, written as a `u32`; any other path
/// is rewritten and stays a path.
pub proof fn law_bound_name_becomes_its_value(p: PathS, b: RankBindingsS)
    ensures
        p.segments.len() == 1 && in_scope(p.segments[0].ident, b) ==> visit_expr(
            ExprS::Path(p),
            b,
        ) == Ok::<ExprS, ErrorS>(
            ExprS::Lit(decimal_text(value_of(p.segments[0].ident, b)) + seq!['u', '3', '2']),
        ),
        p.segments.len() != 1 || !in_scope(p.segments[0].ident, b) ==> match visit_expr(
            ExprS::Path(p),
            b,
        ) {
            Ok(r) => r matches ExprS::Path(q) && rewrite_path(p, b, true) == Ok::<PathS, ErrorS>(q),
            Err(e) => rewrite_path(p, b, true) == Err::<PathS, ErrorS>(e),
        },
{
    reveal_strlit("u32");
    assert("u32"@ =~= seq!['u', '3', '2']);
}

/// An element `S[i]` of an array in scope becomes the name of its dimension, `S_i`, if the array
/// has one, and is refused otherwise; elsewhere an index keeps its place and both its parts are
/// specialised.
pub proof fn law_element_becomes_its_dimension(p: PathS, index: ExprS, i: i32, b: RankBindingsS)
    requires
        p.segments.len() > 0,
    ensures
        b.inst_array.contains_key(p.segments.last().ident) ==> {
            let cga = b.inst_array[p.segments.last().ident];
            let e = ExprS::Index {
                base: Box::new(ExprS::Path(p)),
                index: Box::new(index),
                position: i,
            };
            &&& 0 <= i < cga.length ==> visit_expr(e, b) == Ok::<ExprS, ErrorS>(
                ExprS::Path(name_path(cga.name + seq!['_'] + decimal_text(i as nat))),
            )
            &&& !(0 <= i < cga.length) ==> visit_expr(e, b) is Err
        },
{
    reveal_strlit("_");
    assert("_"@ =~= seq!['_']);
}

/// Specialising an operator specialises its operand and keeps the operator.
pub proof fn law_operand_is_specialised(op: Text, operand: Box<ExprS>, b: RankBindingsS)
    ensures
        match visit_expr(ExprS::Unary { op, operand }, b) {
            Ok(r) => r matches ExprS::Unary { op: o, operand: x } && o == op && visit_expr(
                *operand,
                b,
            ) == Ok::<ExprS, ErrorS>(*x),
            Err(e) => visit_expr(*operand, b) == Err::<ExprS, ErrorS>(e),
        },
{
}

/// Specialising a list or a block specialises each element or statement in its place; the first
/// that fails is the failure of the whole.
pub proof fn law_elements_are_specialised(elems: Seq<ExprS>, stmts: Seq<StmtS>, b: RankBindingsS)
    ensures
        match visit_expr(ExprS::Array(elems), b) {
            Ok(r) => r matches ExprS::Array(to) && each_in_turn(
                elems,
                |x: ExprS| visit_expr(x, b),
                Ok(to),
            ),
            Err(e) => each_in_turn(
                elems,
                |x: ExprS| visit_expr(x, b),
                Err::<Seq<ExprS>, ErrorS>(e),
            ),
        },
        match visit_expr(ExprS::Block(stmts), b) {
            Ok(r) => r matches ExprS::Block(to) && each_in_turn(
                stmts,
                |s: StmtS| visit_stmt(s, b),
                Ok(to),
            ),
            Err(e) => each_in_turn(
                stmts,
                |s: StmtS| visit_stmt(s, b),
                Err::<Seq<StmtS>, ErrorS>(e),
            ),
        },
{
    lemma_exprs(elems, b);
    lemma_stmts(stmts, b);
}

/// Specialising any other expression made of pieces specialises each piece in its place.
pub proof fn law_expression_pieces_are_specialised(pieces: Seq<PieceS>, b: RankBindingsS)
    ensures
        match visit_expr(ExprS::Composite(pieces), b) {
            Ok(r) => r matches ExprS::Composite(to) && each_in_turn(
                pieces,
                |p: PieceS| piece_specialised(p, b),
                Ok(to),
            ),
            Err(e) => each_in_turn(
                pieces,
                |p: PieceS| piece_specialised(p, b),
                Err::<Seq<PieceS>, ErrorS>(e),
            ),
        },
{
    lemma_pieces(pieces, b);
}

/// Specialising `[x; n]` specialises both the element and the length, the element first.
pub proof fn law_repetition_is_specialised(elem: Box<ExprS>, len: Box<ExprS>, b: RankBindingsS)
    ensures
        match visit_expr(ExprS::Repeat { elem, len }, b) {
            Ok(r) => r matches ExprS::Repeat { elem: x, len: n } && visit_expr(*elem, b) == Ok::<
                ExprS,
                ErrorS,
            >(*x) && visit_expr(*len, b) == Ok::<ExprS, ErrorS>(*n),
            Err(e) => visit_expr(*elem, b) == Err::<ExprS, ErrorS>(e) || (visit_expr(*elem, b) is Ok
                && visit_expr(*len, b) == Err::<ExprS, ErrorS>(e)),
        },
{
}

/// An index into anything but an array in scope keeps its place, and both its parts are
/// specialised, the base first.
pub proof fn law_other_index_is_specialised(
    base: Box<ExprS>,
    index: Box<ExprS>,
    position: i32,
    b: RankBindingsS,
)
    requires
        *base matches ExprS::Path(p) ==> p.segments.len() > 0 && !b.inst_array.contains_key(
            p.segments.last().ident,
        ),
    ensures
        match visit_expr(ExprS::Index { base, index, position }, b) {
            Ok(r) => r matches ExprS::Index { base: x, index: n, position: at } && at == position
                && visit_expr(*base, b) == Ok::<ExprS, ErrorS>(*x) && visit_expr(*index, b) == Ok::<
                ExprS,
                ErrorS,
            >(*n),
            Err(e) => visit_expr(*base, b) == Err::<ExprS, ErrorS>(e) || (visit_expr(*base, b) is Ok
                && visit_expr(*index, b) == Err::<ExprS, ErrorS>(e)),
        },
{
}

/// A struct literal keeps the names of its fields; the value of each field, and what the rest is
/// taken from, are specialised, and its path is rewritten as that of a type.
pub proof fn law_struct_literal_is_specialised(
    path: PathS,
    fields: Seq<FieldValueS>,
    rest: Option<Box<ExprS>>,
    b: RankBindingsS,
)
    ensures
        visit_expr(ExprS::Struct { path, fields, rest }, b) matches Ok(r) ==> r is Struct
            && rewrite_path(path, b, false) == Ok::<PathS, ErrorS>(r->path) && r->fields.len()
            == fields.len() && forall|i: int|
            0 <= i < fields.len() ==> (#[trigger] r->fields[i]).member == fields[i].member
                && visit_expr(fields[i].expr, b) == Ok::<ExprS, ErrorS>(r->fields[i].expr),
        visit_expr(ExprS::Struct { path, fields, rest }, b) matches Ok(r) ==> match rest {
            None => r->rest is None,
            Some(x) => r->rest matches Some(y) && visit_expr(*x, b) == Ok::<ExprS, ErrorS>(*y),
        },
        visit_expr(ExprS::Struct { path, fields, rest }, b) matches Err(e) ==> {
            ||| exists|i: int|
                0 <= i < fields.len() && visit_expr((#[trigger] fields[i]).expr, b) == Err::<
                    ExprS,
                    ErrorS,
                >(e)
            ||| rest matches Some(x) && visit_expr(*x, b) == Err::<ExprS, ErrorS>(e)
            ||| rewrite_path(path, b, false) == Err::<PathS, ErrorS>(e)
        },
{
    lemma_struct(path, fields, rest, b);
    lemma_fields(fields, b);
}

proof fn lemma_struct(
    path: PathS,
    fields: Seq<FieldValueS>,
    rest: Option<Box<ExprS>>,
    b: RankBindingsS,
)
    ensures
        visit_expr(ExprS::Struct { path, fields, rest }, b) == match collect(visit_fields(fields, b)) {
            Err(e) => Err(e),
            Ok(fields) => match visit_rest(rest, b) {
                Err(e) => Err(e),
                Ok(rest) => match rewrite_path(path, b, false) {
                    Err(e) => Err(e),
                    Ok(path) => Ok(ExprS::Struct { path, fields, rest }),
                },
            },
        },
{
}

proof fn lemma_rest(
    rest: Option<Box<ExprS>>,
    b: RankBindingsS,
)
    ensures
        match visit_rest(rest, b) {
            Ok(last) => match rest {
            None => last is None,
            Some(x) => last matches Some(y) && visit_expr(*x, b) == Ok::<ExprS, ErrorS>(*y),
            },
            Err(e) => rest matches Some(x) && visit_expr(*x, b) == Err::<ExprS, ErrorS>(e),
        },
{
}

/// Literals, and macros other than those that write a shape, are left alone.
pub proof fn law_other_macros_are_left_alone(
    t: Text,
    name: Text,
    tokens: Seq<MacroTokenS>,
    source: Text,
    b: RankBindingsS,
)
    requires
        name != "const_shape"@ && name != "const_array"@,
    ensures
        visit_expr(ExprS::Lit(t), b) == Ok::<ExprS, ErrorS>(ExprS::Lit(t)),
        visit_expr(ExprS::Macro { name, tokens, source }, b) == Ok::<ExprS, ErrorS>(
            ExprS::Macro { name, tokens, source },
        ),
{
}

proof fn lemma_exprs(elems: Seq<ExprS>, b: RankBindingsS)
    ensures
        each_in_turn(elems, |x: ExprS| visit_expr(x, b), collect(visit_exprs(elems, b))),
{
    let results = visit_exprs(elems, b);
    let step = |x: ExprS| visit_expr(x, b);
    assert forall|i: int| 0 <= i < elems.len() implies #[trigger] results[i] == step(
        elems[i],
    ) by {}
    lemma_each_in_turn(elems, step, results);
}

pub proof fn lemma_stmts(stmts: Seq<StmtS>, b: RankBindingsS)
    ensures
        each_in_turn(stmts, |s: StmtS| visit_stmt(s, b), collect(visit_stmts(stmts, b))),
{
    let results = visit_stmts(stmts, b);
    let step = |s: StmtS| visit_stmt(s, b);
    assert forall|i: int| 0 <= i < stmts.len() implies #[trigger] results[i] == step(
        stmts[i],
    ) by {}
    lemma_each_in_turn(stmts, step, results);
}

proof fn lemma_fields(fields: Seq<FieldValueS>, b: RankBindingsS)
    ensures
        match collect(visit_fields(fields, b)) {
            Ok(to) => to.len() == fields.len() && forall|i: int|
                0 <= i < fields.len() ==> (#[trigger] to[i]).member == fields[i].member
                    && visit_expr(fields[i].expr, b) == Ok::<ExprS, ErrorS>(to[i].expr),
            Err(e) => exists|i: int|
                0 <= i < fields.len() && visit_expr((#[trigger] fields[i]).expr, b) == Err::<
                    ExprS,
                    ErrorS,
                >(e),
        },
{
    let results = visit_fields(fields, b);
    lemma_collect(results);
    match collect(results) {
        Ok(to) => {
            assert forall|i: int| 0 <= i < fields.len() implies (#[trigger] to[i]).member
                == fields[i].member && visit_expr(fields[i].expr, b) == Ok::<ExprS, ErrorS>(
                to[i].expr,
            ) by {
                assert(results[i] == visit_field(fields[i], b));
                assert(results[i] == Ok::<FieldValueS, ErrorS>(to[i]));
            }
        },
        Err(e) => {
            let i = choose|i: int|
                0 <= i < results.len() && #[trigger] results[i] == Err::<FieldValueS, ErrorS>(e);
            assert(results[i] == visit_field(fields[i], b));
            assert(visit_expr(fields[i].expr, b) == Err::<ExprS, ErrorS>(e));
        },
    }
}

// ---------------------------------------------------------------------------
// No bound name is left
// ---------------------------------------------------------------------------

pub open spec fn names_gone(v: Seq<ExprS>, b: RankBindingsS) -> Seq<bool>
    decreases v,
{
    Seq::new(v.len(), |i: int| if 0 <= i < v.len() { name_gone(v[i], b) } else { true })
}

pub open spec fn names_gone_stmts(v: Seq<StmtS>, b: RankBindingsS) -> Seq<bool>
    decreases v,
{
    Seq::new(v.len(), |i: int| if 0 <= i < v.len() { name_gone_stmt(v[i], b) } else { true })
}

pub open spec fn names_gone_pieces(v: Seq<PieceS>, b: RankBindingsS) -> Seq<bool>
    decreases v,
{
    Seq::new(v.len(), |i: int| if 0 <= i < v.len() { name_gone_piece(v[i], b) } else { true })
}

pub open spec fn names_gone_fields(v: Seq<FieldValueS>, b: RankBindingsS) -> Seq<bool>
    decreases v,
{
    Seq::new(v.len(), |i: int| if 0 <= i < v.len() { name_gone_field(v[i], b) } else { true })
}

pub open spec fn name_gone_field(f: FieldValueS, b: RankBindingsS) -> bool
    decreases f,
{
    name_gone(f.expr, b)
}

pub open spec fn name_gone_piece(p: PieceS, b: RankBindingsS) -> bool
    decreases p,
{
    match p {
        PieceS::Expr(e) => name_gone(e, b),
        _ => true,
    }
}

pub open spec fn name_gone_stmt(s: StmtS, b: RankBindingsS) -> bool
    decreases s,
{
    match s {
        StmtS::Expr { expr, .. } => name_gone(expr, b),
        StmtS::Composite(pieces) => !names_gone_pieces(pieces, b).contains(false),
    }
}

/// No path by itself in `e` is a name of an array or a length in scope.
pub open spec fn name_gone(e: ExprS, b: RankBindingsS) -> bool
    decreases e,
{
    match e {
        ExprS::Path(p) => p.segments.len() == 1 ==> !in_scope(p.segments[0].ident, b),
        ExprS::Lit(_) => true,
        ExprS::Unary { op: _, operand } => name_gone(*operand, b),
        ExprS::Array(elems) => !names_gone(elems, b).contains(false),
        ExprS::Repeat { elem, len } => name_gone(*elem, b) && name_gone(*len, b),
        ExprS::Block(stmts) => !names_gone_stmts(stmts, b).contains(false),
        ExprS::Index { base, index, position: _ } => name_gone(*base, b) && name_gone(*index, b),
        ExprS::Macro { .. } => true,
        ExprS::Struct { path: _, fields, rest } => !names_gone_fields(fields, b).contains(false)
            && match rest {
            Some(e) => name_gone(*e, b),
            None => true,
        },
        ExprS::Composite(pieces) => !names_gone_pieces(pieces, b).contains(false),
    }
}

/// No dimension of an array in scope has the name of an array or a length in scope.
pub open spec fn dims_are_fresh(b: RankBindingsS) -> bool {
    forall|a: Text, i: nat|
        b.inst_array.contains_key(a) && i < b.inst_array[a].length ==> !in_scope(
            #[trigger] dim_text(b.inst_array[a].name, i),
            b,
        )
}

/// What `e` becomes holds no bound name by itself.
#[verifier::opaque]
pub open spec fn comes_out_clear(e: ExprS, b: RankBindingsS) -> bool {
    visit_expr(e, b) matches Ok(r) ==> name_gone(r, b)
}

/// In a specialised expression no name of an array or a length in scope stands by itself.
pub proof fn law_no_bound_name_is_left(e: ExprS, b: RankBindingsS)
    requires
        dims_are_fresh(b),
    ensures
        visit_expr(e, b) matches Ok(r) ==> name_gone(r, b),
{
    lemma_comes_out_clear(e, b);
    reveal(comes_out_clear);
}

proof fn lemma_comes_out_clear(e: ExprS, b: RankBindingsS)
    requires
        dims_are_fresh(b),
    ensures
        comes_out_clear(e, b),
    decreases e,
{
    match e {
        ExprS::Macro { name, tokens, source } => {
            lemma_clear_macro(name, tokens, source, b);
        },
        ExprS::Path(p) => {
            lemma_clear_path(p, b);
        },
        ExprS::Index { base, index, position } => {
            lemma_comes_out_clear(*base, b);
            lemma_comes_out_clear(*index, b);
            lemma_clear_index(base, index, position, b);
        },
        ExprS::Lit(t) => {
            reveal(comes_out_clear);
        },
        ExprS::Unary { op, operand } => {
            lemma_comes_out_clear(*operand, b);
            lemma_clear_unary(op, operand, b);
        },
        ExprS::Array(elems) => {
            assert forall|i: int| 0 <= i < elems.len() implies comes_out_clear(
                #[trigger] elems[i],
                b,
            ) by {
                lemma_comes_out_clear(elems[i], b);
            }
            lemma_clear_array(elems, b);
        },
        ExprS::Repeat { elem, len } => {
            lemma_comes_out_clear(*elem, b);
            lemma_comes_out_clear(*len, b);
            lemma_clear_repeat(elem, len, b);
        },
        ExprS::Block(stmts) => {
            lemma_clear_stmts(stmts, b);
            lemma_clear_block(stmts, b);
        },
        ExprS::Struct { path, fields, rest } => {
            assert forall|i: int| 0 <= i < fields.len() implies comes_out_clear(
                (#[trigger] fields[i]).expr,
                b,
            ) by {
                lemma_comes_out_clear(fields[i].expr, b);
            }
            if let Some(x) = rest {
                lemma_comes_out_clear(*x, b);
            }
            lemma_clear_struct(path, fields, rest, b);
        },
        ExprS::Composite(pieces) => {
            lemma_clear_pieces(pieces, b);
            lemma_clear_composite(pieces, b);
        },
    }
}

proof fn lemma_clear_macro(name: Text, tokens: Seq<MacroTokenS>, source: Text, b: RankBindingsS)
    ensures
        comes_out_clear(ExprS::Macro { name, tokens, source }, b),
{
    reveal(comes_out_clear);
    let e = ExprS::Macro { name, tokens, source };
    if visit_expr(e, b) is Ok && (name == "const_shape"@ || name == "const_array"@) {
        let p = expand_shape(name, tokens, source, b)->Ok_0;
        law_expr_path_keeps_its_name(p, b);
        lemma_call_has_no_name(rewrite_path(p, b, true)->Ok_0, b);
    }
}

proof fn lemma_clear_path(p: PathS, b: RankBindingsS)
    ensures
        comes_out_clear(ExprS::Path(p), b),
{
    reveal(comes_out_clear);
    law_expr_path_keeps_its_name(p, b);
}

proof fn lemma_clear_index(base: Box<ExprS>, index: Box<ExprS>, position: i32, b: RankBindingsS)
    requires
        dims_are_fresh(b),
        comes_out_clear(*base, b),
        comes_out_clear(*index, b),
    ensures
        comes_out_clear(ExprS::Index { base, index, position }, b),
{
    reveal(comes_out_clear);
}

proof fn lemma_clear_unary(op: Text, operand: Box<ExprS>, b: RankBindingsS)
    requires
        comes_out_clear(*operand, b),
    ensures
        comes_out_clear(ExprS::Unary { op, operand }, b),
{
    reveal(comes_out_clear);
}

proof fn lemma_clear_repeat(elem: Box<ExprS>, len: Box<ExprS>, b: RankBindingsS)
    requires
        comes_out_clear(*elem, b),
        comes_out_clear(*len, b),
    ensures
        comes_out_clear(ExprS::Repeat { elem, len }, b),
{
    reveal(comes_out_clear);
}

proof fn lemma_clear_result(e: ExprS, r: ExprS, b: RankBindingsS)
    requires
        comes_out_clear(e, b),
        visit_expr(e, b) == Ok::<ExprS, ErrorS>(r),
    ensures
        name_gone(r, b),
{
    reveal(comes_out_clear);
}

proof fn lemma_clear_array(elems: Seq<ExprS>, b: RankBindingsS)
    requires
        forall|i: int| 0 <= i < elems.len() ==> comes_out_clear(#[trigger] elems[i], b),
    ensures
        comes_out_clear(ExprS::Array(elems), b),
{
    lemma_exprs(elems, b);
    let step = |x: ExprS| visit_expr(x, b);
    if let Ok(to) = collect(visit_exprs(elems, b)) {
        assert forall|i: int| 0 <= i < to.len() implies #[trigger] names_gone(to, b)[i] by {
            assert(step(elems[i]) == Ok::<ExprS, ErrorS>(to[i]));
            lemma_clear_result(elems[i], to[i], b);
        }
        assert(!names_gone(to, b).contains(false));
    }
    lemma_clear_list(elems, b);
}

proof fn lemma_clear_list(elems: Seq<ExprS>, b: RankBindingsS)
    requires
        collect(visit_exprs(elems, b)) matches Ok(to) ==> !names_gone(to, b).contains(false),
    ensures
        comes_out_clear(ExprS::Array(elems), b),
{
    reveal(comes_out_clear);
}

proof fn lemma_clear_block(stmts: Seq<StmtS>, b: RankBindingsS)
    requires
        collect(visit_stmts(stmts, b)) matches Ok(to) ==> !names_gone_stmts(to, b).contains(false),
    ensures
        comes_out_clear(ExprS::Block(stmts), b),
{
    reveal(comes_out_clear);
}

proof fn lemma_clear_composite(pieces: Seq<PieceS>, b: RankBindingsS)
    requires
        collect(visit_pieces(pieces, b)) matches Ok(to) ==> !names_gone_pieces(to, b).contains(
            false,
        ),
    ensures
        comes_out_clear(ExprS::Composite(pieces), b),
{
    reveal(comes_out_clear);
}

proof fn lemma_clear_struct(
    path: PathS,
    fields: Seq<FieldValueS>,
    rest: Option<Box<ExprS>>,
    b: RankBindingsS,
)
    requires
        forall|i: int| 0 <= i < fields.len() ==> comes_out_clear((#[trigger] fields[i]).expr, b),
        rest matches Some(x) ==> comes_out_clear(*x, b),
    ensures
        comes_out_clear(ExprS::Struct { path, fields, rest }, b),
{
    let e = ExprS::Struct { path, fields, rest };
    lemma_struct(path, fields, rest, b);
    lemma_fields(fields, b);
    lemma_rest(rest, b);
    if let Ok(to) = collect(visit_fields(fields, b)) {
        assert forall|i: int| 0 <= i < to.len() implies #[trigger] names_gone_fields(to, b)[i] by {
            assert(to[i].member == fields[i].member);
            lemma_clear_result(fields[i].expr, to[i].expr, b);
            assert(names_gone_fields(to, b)[i] == name_gone_field(to[i], b));
        }
        assert(!names_gone_fields(to, b).contains(false));
        if let Ok(last) = visit_rest(rest, b) {
            if let Some(x) = rest {
                lemma_clear_result(*x, *last->Some_0, b);
            }
            if let Ok(q) = rewrite_path(path, b, false) {
                lemma_gone_struct(q, to, last, b);
            }
        }
    }
    lemma_clear_if(e, b);
}

proof fn lemma_clear_if(e: ExprS, b: RankBindingsS)
    requires
        visit_expr(e, b) matches Ok(r) ==> name_gone(r, b),
    ensures
        comes_out_clear(e, b),
{
    reveal(comes_out_clear);
}

proof fn lemma_gone_struct(
    path: PathS,
    fields: Seq<FieldValueS>,
    rest: Option<Box<ExprS>>,
    b: RankBindingsS,
)
    requires
        !names_gone_fields(fields, b).contains(false),
        rest matches Some(x) ==> name_gone(*x, b),
    ensures
        name_gone(ExprS::Struct { path, fields, rest }, b),
{
}

proof fn lemma_call_has_no_name(q: PathS, b: RankBindingsS)
    requires
        q.segments.len() == 2,
    ensures
        name_gone(call_of(q), b),
{
    let pieces = seq![PieceS::Expr(ExprS::Path(q)), PieceS::Source("()"@)];
    let gone = names_gone_pieces(pieces, b);
    assert(gone[0] == name_gone_piece(pieces[0], b));
    assert(gone[1] == name_gone_piece(pieces[1], b));
    assert(name_gone(ExprS::Path(q), b));
    assert(!gone.contains(false));
}

proof fn lemma_clear_pieces(pieces: Seq<PieceS>, b: RankBindingsS)
    requires
        dims_are_fresh(b),
    ensures
        collect(visit_pieces(pieces, b)) matches Ok(to) ==> !names_gone_pieces(to, b).contains(
            false,
        ),
    decreases pieces,
{
    let results = visit_pieces(pieces, b);
    lemma_collect(results);
    if let Ok(to) = collect(results) {
        assert forall|i: int| 0 <= i < to.len() implies #[trigger] names_gone_pieces(to, b)[i] by {
            assert(results[i] == visit_piece(pieces[i], b));
            assert(results[i] == Ok::<PieceS, ErrorS>(to[i]));
            if let PieceS::Expr(x) = pieces[i] {
                lemma_comes_out_clear(x, b);
                reveal(comes_out_clear);
            }
        }
    }
}

pub proof fn lemma_clear_stmts(stmts: Seq<StmtS>, b: RankBindingsS)
    requires
        dims_are_fresh(b),
    ensures
        collect(visit_stmts(stmts, b)) matches Ok(to) ==> to.len() == stmts.len()
            && !names_gone_stmts(to, b).contains(false),
    decreases stmts,
{
    let results = visit_stmts(stmts, b);
    lemma_collect(results);
    if let Ok(to) = collect(results) {
        assert forall|i: int| 0 <= i < to.len() implies #[trigger] names_gone_stmts(to, b)[i] by {
            assert(results[i] == visit_stmt(stmts[i], b));
            assert(results[i] == Ok::<StmtS, ErrorS>(to[i]));
            match stmts[i] {
                StmtS::Expr { expr, semi } => {
                    lemma_comes_out_clear(expr, b);
                    reveal(comes_out_clear);
                },
                StmtS::Composite(pieces) => {
                    lemma_clear_pieces(pieces, b);
                },
            }
        }
    }
}

} // verus!
