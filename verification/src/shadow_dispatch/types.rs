//! Rank-instance forms of types.
use super::ranks::{suffix, suffixed, CgaInfo, CgaInfoS, RankCombo, RankComboS};
use crate::ast::{
    arg_s, args_s, exprs_s, segment_s, segments_s, stmt_s, stmts_s, type_s, types_s, ArgS,
    ArgumentsS, ExprS, PathS, SegmentS, StmtS, TypeS,
};
use crate::ast::{Expr, GenericArgument, Path, PathArguments, PathSegment, Stmt, Type};
use crate::copy::{clone_arg, clone_expr, clone_opt, clone_qself, clone_segment, clone_type};
use crate::items::views;
use crate::lists::{concat, lemma_concat_step};
use crate::print::{get_ident, path_ident, type_text};
use crate::rank_instantiation::types::{make_name_path, name_path};
use crate::text::{cat2, contains_whole_word, decimal, decimal_text, has_word, same, texts, Text};
use vstd::prelude::*;

verus! {

// ---------------------------------------------------------------------------
// Questions about a type
// ---------------------------------------------------------------------------

/// A name occurs in a type as a whole word.
pub open spec fn references(t: TypeS, name: Text) -> bool {
    has_word(type_text(t), name)
}

pub fn type_references_ident(ty: &Type, ident: &str) -> (r: bool)
    ensures
        r == references(ty@, ident@),
{
    let s = crate::print::print_type(ty);
    contains_whole_word(s.as_str(), ident)
}

/// Two types have the same source.
pub open spec fn same_source(a: TypeS, b: TypeS) -> bool {
    type_text(a) == type_text(b)
}

pub fn types_equal(a: &Type, b: &Type) -> (r: bool)
    ensures
        r == same_source(a@, b@),
{
    let x = crate::print::print_type(a);
    let y = crate::print::print_type(b);
    same(x.as_str(), y.as_str())
}

/// The first array from index `i` on that occurs in a type.
pub open spec fn first_cga(cgas: Seq<CgaInfoS>, t: TypeS, i: nat) -> Option<nat>
    decreases cgas.len() - i,
{
    if i >= cgas.len() {
        None
    } else if references(t, cgas[i as int].cga_ident) {
        Some(i)
    } else {
        first_cga(cgas, t, i + 1)
    }
}

/// The first array that occurs in a type.
pub fn find_cga(cgas: &Vec<CgaInfo>, ty: &Type) -> (r: Option<usize>)
    ensures
        match r {
            Some(i) => i < cgas@.len() && first_cga(views(cgas@), ty@, 0) == Some(i as nat),
            None => first_cga(views(cgas@), ty@, 0) is None,
        },
{
    let mut i: usize = 0;
    while i < cgas.len()
        invariant
            i <= cgas@.len(),
            first_cga(views(cgas@), ty@, 0) == first_cga(views(cgas@), ty@, i as nat),
        decreases cgas@.len() - i,
    {
        if type_references_ident(ty, cgas[i].cga_ident.as_str()) {
            return Some(i);
        }
        i = i + 1;
    }
    None
}

/// Base names of variadic-struct types that carry an `'a` lifetime parameter. Their
/// rank-instance forms have a lifetime that is not elidable in impl header positions.
pub open spec fn lifetime_bearing(base: Text) -> bool {
    base == "Shape"@ || base == "Array"@ || base == "Partition"@ || base == "PartitionMut"@
}

pub fn base_has_lifetime(base: &str) -> (r: bool)
    ensures
        r == lifetime_bearing(base@),
{
    same(base, "Shape") || same(base, "Array") || same(base, "Partition") || same(
        base,
        "PartitionMut",
    )
}

// ---------------------------------------------------------------------------
// Arguments that stand for several
// ---------------------------------------------------------------------------

/// The name that a generic argument consists of, if it is a single plain name.
pub open spec fn arg_name(a: ArgS) -> Option<Text> {
    match a {
        ArgS::Type(TypeS::Path(p)) => path_ident(p),
        ArgS::Const(ExprS::Path(p)) => path_ident(p),
        _ => None,
    }
}

/// The index of the first array of the given name from index `i` on.
pub open spec fn cga_named(cgas: Seq<CgaInfoS>, name: Text, i: nat) -> Option<nat>
    decreases cgas.len() - i,
{
    if i >= cgas.len() {
        None
    } else if cgas[i as int].cga_ident == name {
        Some(i)
    } else {
        cga_named(cgas, name, i + 1)
    }
}

/// If a generic argument is the name of an array, the index of that array.
pub open spec fn arg_cga(a: ArgS, cgas: Seq<CgaInfoS>) -> Option<nat> {
    match arg_name(a) {
        Some(name) => cga_named(cgas, name, 0),
        None => None,
    }
}

/// If a generic argument is a literal array `{[d0, d1, …]}` or, with a length of the
/// combination, `{[d; N]}`, its elements.
pub open spec fn literal_dims(a: ArgS, c: RankComboS) -> Option<Seq<ExprS>> {
    match a {
        ArgS::Const(ExprS::Block(stmts)) => if stmts.len() == 0 {
            None
        } else {
            match stmts[0] {
                StmtS::Expr { expr, semi: _ } => match expr {
                    ExprS::Array(elems) => Some(elems),
                    ExprS::Repeat { elem, len } => match *len {
                        ExprS::Path(p) => match path_ident(p) {
                            Some(l) => match c.rank_of_length(l) {
                                Some(n) => Some(Seq::new(n, |i: int| *elem)),
                                None => None,
                            },
                            None => None,
                        },
                        _ => None,
                    },
                    _ => None,
                },
                _ => None,
            }
        },
        _ => None,
    }
}

/// The first argument from index `i` on that is the name of an array.
pub open spec fn first_arg_cga(args: Seq<ArgS>, cgas: Seq<CgaInfoS>, i: nat) -> Option<nat>
    decreases args.len() - i,
{
    if i >= args.len() {
        None
    } else {
        match arg_cga(args[i as int], cgas) {
            Some(c) => Some(c),
            None => first_arg_cga(args, cgas, i + 1),
        }
    }
}

/// The rank of the first argument from index `i` on that is a literal array.
pub open spec fn first_literal(args: Seq<ArgS>, c: RankComboS, i: nat) -> Option<nat>
    decreases args.len() - i,
{
    if i >= args.len() {
        None
    } else {
        match literal_dims(args[i as int], c) {
            Some(dims) => Some(dims.len()),
            None => first_literal(args, c, i + 1),
        }
    }
}

/// A list of generic arguments names a lifetime.
pub open spec fn has_lifetime_arg(args: Seq<ArgS>) -> bool {
    exists|i: int| 0 <= i < args.len() && (#[trigger] args[i]) is Lifetime
}

/// Const arguments that are names.
pub open spec fn name_consts(names: Seq<Text>) -> Seq<ArgS> {
    Seq::new(names.len(), |i: int| ArgS::Const(ExprS::Path(name_path(names[i]))))
}

pub open spec fn expr_consts(exprs: Seq<ExprS>) -> Seq<ArgS> {
    Seq::new(exprs.len(), |i: int| ArgS::Const(exprs[i]))
}

/// Which arguments of a segment are replaced by several: the names of arrays, literal
/// arrays, or none.
pub enum Expansion {
    Named,
    Literal,
    Nothing,
}

/// How the arguments of a segment are expanded.
pub open spec fn expansion(args: Seq<ArgS>, c: RankComboS) -> Expansion {
    if first_arg_cga(args, c.cgas, 0) is Some {
        Expansion::Named
    } else if first_literal(args, c, 0) is Some {
        Expansion::Literal
    } else {
        Expansion::Nothing
    }
}

/// The rank that the arguments of a segment give to it.
pub open spec fn segment_rank(args: Seq<ArgS>, c: RankComboS) -> Option<nat> {
    match first_arg_cga(args, c.cgas, 0) {
        Some(i) => Some(c.rank_of(c.cgas[i as int].cga_ident)),
        None => first_literal(args, c, 0),
    }
}

// ---------------------------------------------------------------------------
// Rank-instance form
// ---------------------------------------------------------------------------

/// What one generic argument becomes.
pub open spec fn rank_arg(a: ArgS, c: RankComboS, e: Expansion) -> Seq<ArgS>
    decreases a,
{
    let several = match e {
        Expansion::Named => match arg_cga(a, c.cgas) {
            Some(i) => Some(name_consts(c.dim_names(c.cgas[i as int].cga_ident))),
            None => None,
        },
        Expansion::Literal => match literal_dims(a, c) {
            Some(dims) => Some(expr_consts(dims)),
            None => None,
        },
        Expansion::Nothing => None,
    };
    match several {
        Some(args) => args,
        None => match a {
            ArgS::Type(t) => seq![ArgS::Type(rank_type(t, c))],
            _ => seq![a],
        },
    }
}

pub open spec fn rank_args(v: Seq<ArgS>, c: RankComboS, e: Expansion) -> Seq<Seq<ArgS>>
    decreases v,
{
    Seq::new(v.len(), |i: int| if 0 <= i < v.len() { rank_arg(v[i], c, e) } else { arbitrary() })
}

/// One segment of a path:
/// 1. its name gets the rank of the first array among its arguments;
/// 2. arrays are replaced by their dimensions;
/// 3. `'_` goes in front for a lifetime-bearing type that names no lifetime;
/// and in any case the types among its arguments are rewritten.
pub open spec fn rank_segment(s: SegmentS, c: RankComboS) -> SegmentS
    decreases s,
{
    match s.arguments {
        ArgumentsS::AngleBracketed { turbofish, args } => {
            let done = concat(rank_args(args, c, expansion(args, c)));
            match segment_rank(args, c) {
                Some(rank) => SegmentS {
                    ident: suffixed(s.ident, rank),
                    arguments: ranked_arguments(s.ident, turbofish, args, done),
                },
                None => SegmentS {
                    ident: s.ident,
                    arguments: ArgumentsS::AngleBracketed { turbofish, args: done },
                },
            }
        },
        _ => s,
    }
}

/// The arguments `done` of a segment with a rank, with the lifetime that it needs.
pub open spec fn ranked_arguments(
    base: Text,
    turbofish: bool,
    args: Seq<ArgS>,
    done: Seq<ArgS>,
) -> ArgumentsS {
    let all = if lifetime_bearing(base) && !has_lifetime_arg(args) {
        seq![ArgS::Lifetime("_"@)] + done
    } else {
        done
    };
    if all.len() == 0 {
        ArgumentsS::Empty
    } else {
        ArgumentsS::AngleBracketed { turbofish, args: all }
    }
}

pub open spec fn rank_segments(v: Seq<SegmentS>, c: RankComboS) -> Seq<SegmentS>
    decreases v,
{
    Seq::new(v.len(), |i: int| if 0 <= i < v.len() { rank_segment(v[i], c) } else { arbitrary() })
}

pub open spec fn rank_types(v: Seq<TypeS>, c: RankComboS) -> Seq<TypeS>
    decreases v,
{
    Seq::new(v.len(), |i: int| if 0 <= i < v.len() { rank_type(v[i], c) } else { arbitrary() })
}

/// The length of an array type: a length of the combination becomes its rank.
pub open spec fn rank_len(len: ExprS, c: RankComboS) -> ExprS {
    match len {
        ExprS::Path(p) => match path_ident(p) {
            Some(l) => match c.rank_of_length(l) {
                Some(n) => ExprS::Lit(decimal_text(n) + "usize"@),
                None => len,
            },
            None => len,
        },
        _ => len,
    }
}

/// A type at the ranks of a combination: `Tile_N<E, S_0, ..., S_{N-1}>` for `Tile<E, S>`.
pub open spec fn rank_type(t: TypeS, c: RankComboS) -> TypeS
    decreases t,
{
    match t {
        TypeS::Path(p) => TypeS::Path(PathS { segments: rank_segments(p.segments, c), ..p }),
        TypeS::Reference { lifetime, mutable, elem } => TypeS::Reference {
            lifetime,
            mutable,
            elem: Box::new(rank_type(*elem, c)),
        },
        TypeS::Array { elem, len } => TypeS::Array {
            elem: Box::new(rank_type(*elem, c)),
            len: Box::new(rank_len(*len, c)),
        },
        TypeS::Tuple(elems) => TypeS::Tuple(rank_types(elems, c)),
        _ => t,
    }
}

// ---------------------------------------------------------------------------
// Rewriting
// ---------------------------------------------------------------------------

fn name_of_arg(a: &GenericArgument) -> (r: Option<&String>)
    ensures
        match r {
            Some(s) => arg_name(a@) == Some(s@),
            None => arg_name(a@) is None,
        },
{
    match a {
        GenericArgument::Type(t) => match t {
            Type::Path(p) => get_ident(p),
            _ => None,
        },
        GenericArgument::Const(e) => match e {
            Expr::Path(p) => get_ident(p),
            _ => None,
        },
        _ => None,
    }
}

/// If `arg` is a generic argument that resolves to exactly one of the CGA idents, return
/// the index of that CGA.
pub fn match_arg_to_cga(arg: &GenericArgument, cgas: &Vec<CgaInfo>) -> (r: Option<usize>)
    ensures
        match r {
            Some(i) => i < cgas@.len() && arg_cga(arg@, views(cgas@)) == Some(i as nat),
            None => arg_cga(arg@, views(cgas@)) is None,
        },
{
    let name = match name_of_arg(arg) {
        Some(name) => name,
        None => {
            return None;
        },
    };
    let mut i: usize = 0;
    while i < cgas.len()
        invariant
            i <= cgas@.len(),
            cga_named(views(cgas@), name@, 0) == cga_named(views(cgas@), name@, i as nat),
            arg_name(arg@) == Some(name@),
        decreases cgas@.len() - i,
    {
        if same(cgas[i].cga_ident.as_str(), name.as_str()) {
            return Some(i);
        }
        i = i + 1;
    }
    None
}

fn repeat_rank(len: &Expr, combo: &RankCombo) -> (r: Option<usize>)
    requires
        combo@.wf(),
    ensures
        ({
            let want = match len@ {
                ExprS::Path(p) => match path_ident(p) {
                    Some(l) => combo@.rank_of_length(l),
                    None => None,
                },
                _ => None,
            };
            match r {
                Some(n) => want == Some(n as nat),
                None => want is None,
            }
        }),
{
    match len {
        Expr::Path(p) => match get_ident(p) {
            Some(l) => combo.rank_of_length(l.as_str()),
            None => None,
        },
        _ => None,
    }
}

fn push_expr(out: &mut Vec<Expr>, e: &Expr)
    ensures
        exprs_s(final(out)@) == exprs_s(old(out)@).push(e@),
{
    let ghost prev = out@;
    out.push(clone_expr(e));
    assert(exprs_s(out@) =~= exprs_s(prev).push(e@));
}

/// If `arg` is a literal CGA `{[d0, d1, …]}`, return the dimension expressions (`d0`, `d1`,
/// …) so they can be reflowed as individual const generics. For `{[expr; N]}` where N is a
/// CGA length, these are as many copies of `expr` as its rank.
pub fn literal_cga_dims_with_combo(arg: &GenericArgument, combo: &RankCombo) -> (r: Option<Vec<Expr>>)
    requires
        combo@.wf(),
    ensures
        match r {
            Some(v) => literal_dims(arg@, combo@) == Some(exprs_s(v@)),
            None => literal_dims(arg@, combo@) is None,
        },
{
    let stmts = match arg {
        GenericArgument::Const(e) => match e {
            Expr::Block(stmts) => stmts,
            _ => {
                return None;
            },
        },
        _ => {
            return None;
        },
    };
    assert(stmts_s(stmts@).len() == stmts@.len());
    if stmts.len() == 0 {
        return None;
    }
    assert(stmts_s(stmts@)[0] == stmt_s(stmts@[0]));
    let mut out: Vec<Expr> = Vec::new();
    match &stmts[0] {
        Stmt::Expr { expr, semi: _ } => match expr {
            Expr::Array(elems) => Some(crate::copy::clone_exprs(elems)),
            Expr::Repeat { elem, len } => match repeat_rank(len, combo) {
                None => None,
                Some(n) => {
                    let mut i: usize = 0;
                    assert(exprs_s(out@) =~= Seq::new(0, |k: int| elem@));
                    while i < n
                        invariant
                            i <= n,
                            exprs_s(out@) == Seq::new(i as nat, |k: int| elem@),
                        decreases n - i,
                    {
                        push_expr(&mut out, elem);
                        assert(exprs_s(out@) =~= Seq::new((i + 1) as nat, |k: int| elem@));
                        i = i + 1;
                    }
                    Some(out)
                },
            },
            _ => None,
        },
        _ => None,
    }
}

fn find_arg_cga(args: &Vec<GenericArgument>, cgas: &Vec<CgaInfo>) -> (r: Option<usize>)
    ensures
        match r {
            Some(i) => i < cgas@.len() && first_arg_cga(args_s(args@), views(cgas@), 0) == Some(
                i as nat,
            ),
            None => first_arg_cga(args_s(args@), views(cgas@), 0) is None,
        },
{
    let mut i: usize = 0;
    assert(args_s(args@).len() == args@.len());
    while i < args.len()
        invariant
            i <= args@.len(),
            args_s(args@).len() == args@.len(),
            first_arg_cga(args_s(args@), views(cgas@), 0) == first_arg_cga(
                args_s(args@),
                views(cgas@),
                i as nat,
            ),
        decreases args@.len() - i,
    {
        assert(args_s(args@)[i as int] == arg_s(args@[i as int]));
        if let Some(c) = match_arg_to_cga(&args[i], cgas) {
            return Some(c);
        }
        i = i + 1;
    }
    None
}

fn find_literal(args: &Vec<GenericArgument>, combo: &RankCombo) -> (r: Option<usize>)
    requires
        combo@.wf(),
    ensures
        match r {
            Some(n) => first_literal(args_s(args@), combo@, 0) == Some(n as nat),
            None => first_literal(args_s(args@), combo@, 0) is None,
        },
{
    let mut i: usize = 0;
    assert(args_s(args@).len() == args@.len());
    while i < args.len()
        invariant
            i <= args@.len(),
            combo@.wf(),
            args_s(args@).len() == args@.len(),
            first_literal(args_s(args@), combo@, 0) == first_literal(
                args_s(args@),
                combo@,
                i as nat,
            ),
        decreases args@.len() - i,
    {
        assert(args_s(args@)[i as int] == arg_s(args@[i as int]));
        if let Some(dims) = literal_cga_dims_with_combo(&args[i], combo) {
            assert(exprs_s(dims@).len() == dims@.len());
            return Some(dims.len());
        }
        i = i + 1;
    }
    None
}

fn names_lifetime(args: &Vec<GenericArgument>) -> (r: bool)
    ensures
        r == has_lifetime_arg(args_s(args@)),
{
    let mut i: usize = 0;
    assert(args_s(args@).len() == args@.len());
    while i < args.len()
        invariant
            i <= args@.len(),
            args_s(args@).len() == args@.len(),
            forall|j: int| 0 <= j < i ==> !((#[trigger] args_s(args@)[j]) is Lifetime),
        decreases args@.len() - i,
    {
        assert(args_s(args@)[i as int] == arg_s(args@[i as int]));
        match &args[i] {
            GenericArgument::Lifetime(_) => {
                return true;
            },
            _ => {},
        }
        i = i + 1;
    }
    false
}

pub fn push_arg(out: &mut Vec<GenericArgument>, a: GenericArgument)
    ensures
        args_s(final(out)@) == args_s(old(out)@).push(a@),
{
    let ghost prev = out@;
    out.push(a);
    assert(args_s(out@) =~= args_s(prev).push(a@));
}

fn make_name_consts(names: &Vec<String>) -> (r: Vec<GenericArgument>)
    ensures
        args_s(r@) == name_consts(texts(names@)),
{
    let mut out: Vec<GenericArgument> = Vec::new();
    let mut i: usize = 0;
    while i < names.len()
        invariant
            i <= names@.len(),
            out@.len() == i,
            forall|j: int|
                0 <= j < i ==> arg_s(#[trigger] out@[j]) == ArgS::Const(
                    ExprS::Path(name_path(names@[j]@)),
                ),
        decreases names@.len() - i,
    {
        out.push(GenericArgument::Const(Expr::Path(make_name_path(names[i].clone()))));
        i = i + 1;
    }
    assert(args_s(out@) =~= name_consts(texts(names@)));
    out
}

fn make_expr_consts(exprs: &Vec<Expr>) -> (r: Vec<GenericArgument>)
    ensures
        args_s(r@) == expr_consts(exprs_s(exprs@)),
{
    let mut out: Vec<GenericArgument> = Vec::new();
    let mut i: usize = 0;
    while i < exprs.len()
        invariant
            i <= exprs@.len(),
            out@.len() == i,
            forall|j: int|
                0 <= j < i ==> arg_s(#[trigger] out@[j]) == ArgS::Const(exprs_s(exprs@)[j]),
        decreases exprs@.len() - i,
    {
        assert(exprs_s(exprs@)[i as int] == crate::ast::expr_s(exprs@[i as int]));
        out.push(GenericArgument::Const(clone_expr(&exprs[i])));
        i = i + 1;
    }
    assert(args_s(out@) =~= expr_consts(exprs_s(exprs@)));
    out
}

pub fn append_args(out: &mut Vec<GenericArgument>, more: &Vec<GenericArgument>)
    ensures
        args_s(final(out)@) == args_s(old(out)@) + args_s(more@),
{
    let ghost start = args_s(out@);
    let mut i: usize = 0;
    assert(args_s(more@).len() == more@.len());
    assert(start + args_s(more@).take(0) =~= start);
    while i < more.len()
        invariant
            i <= more@.len(),
            args_s(more@).len() == more@.len(),
            args_s(out@) == start + args_s(more@).take(i as int),
        decreases more@.len() - i,
    {
        assert(args_s(more@)[i as int] == arg_s(more@[i as int]));
        push_arg(out, clone_arg(&more[i]));
        assert(args_s(out@) =~= start + args_s(more@).take(i + 1));
        i = i + 1;
    }
    assert(args_s(more@).take(i as int) =~= args_s(more@));
}

/// What several arguments one argument stands for, if it does.
fn several(a: &GenericArgument, combo: &RankCombo, e: &Expansion) -> (r: Option<
    Vec<GenericArgument>,
>)
    requires
        combo@.wf(),
    ensures
        ({
            let want = match *e {
                Expansion::Named => match arg_cga(a@, combo@.cgas) {
                    Some(i) => Some(
                        name_consts(combo@.dim_names(combo@.cgas[i as int].cga_ident)),
                    ),
                    None => None,
                },
                Expansion::Literal => match literal_dims(a@, combo@) {
                    Some(dims) => Some(expr_consts(dims)),
                    None => None,
                },
                Expansion::Nothing => None,
            };
            match r {
                Some(v) => want == Some(args_s(v@)),
                None => want is None,
            }
        }),
{
    match e {
        Expansion::Named => match match_arg_to_cga(a, combo.cgas()) {
            Some(i) => {
                let names = combo.dim_names_for(combo.cgas()[i].cga_ident.as_str());
                Some(make_name_consts(&names))
            },
            None => None,
        },
        Expansion::Literal => match literal_cga_dims_with_combo(a, combo) {
            Some(dims) => Some(make_expr_consts(&dims)),
            None => None,
        },
        Expansion::Nothing => None,
    }
}

fn rewrite_args(args: &Vec<GenericArgument>, combo: &RankCombo, e: &Expansion) -> (r: Vec<
    GenericArgument,
>)
    requires
        combo@.wf(),
    ensures
        args_s(r@) == concat(rank_args(args_s(args@), combo@, *e)),
    decreases args,
{
    let ghost models = args_s(args@);
    let ghost lists = rank_args(models, combo@, *e);
    let mut out: Vec<GenericArgument> = Vec::new();
    let mut i: usize = 0;
    assert(args_s(out@) =~= concat(lists.take(0)));
    while i < args.len()
        invariant
            i <= args@.len(),
            combo@.wf(),
            models == args_s(args@),
            lists == rank_args(models, combo@, *e),
            lists.len() == args@.len(),
            args_s(out@) == concat(lists.take(i as int)),
        decreases args@.len() - i,
    {
        let a = &args[i];
        proof {
            lemma_concat_step(lists, i as int);
            assert(models[i as int] == arg_s(*a));
            assert(lists[i as int] == rank_arg(arg_s(*a), combo@, *e));
        }
        match several(a, combo, e) {
            Some(v) => {
                append_args(&mut out, &v);
            },
            None => {
                let ghost before = args_s(out@);
                match a {
                    GenericArgument::Type(t) => {
                        let done = GenericArgument::Type(rewrite_ty_for_rank(t, combo));
                        push_arg(&mut out, done);
                        assert(args_s(out@) =~= before + seq![done@]);
                    },
                    other => {
                        push_arg(&mut out, clone_arg(other));
                        assert(args_s(out@) =~= before + seq![arg_s(*a)]);
                    },
                }
            },
        }
        i = i + 1;
    }
    assert(lists.take(i as int) =~= lists);
    out
}

fn rewrite_segment(s: &PathSegment, combo: &RankCombo) -> (r: PathSegment)
    requires
        combo@.wf(),
    ensures
        r@ == rank_segment(s@, combo@),
    decreases s,
{
    match &s.arguments {
        PathArguments::AngleBracketed { turbofish, args } => {
            let rank: Option<usize>;
            let e: Expansion;
            match find_arg_cga(args, combo.cgas()) {
                Some(i) => {
                    rank = Some(combo.rank_of(combo.cgas()[i].cga_ident.as_str()));
                    e = Expansion::Named;
                },
                None => {
                    rank = find_literal(args, combo);
                    e = if rank.is_some() { Expansion::Literal } else { Expansion::Nothing };
                },
            }
            let done = rewrite_args(args, combo, &e);
            match rank {
                Some(n) => PathSegment {
                    ident: suffix(s.ident.as_str(), n),
                    arguments: finish_arguments(s.ident.as_str(), *turbofish, args, done),
                },
                None => PathSegment {
                    ident: s.ident.clone(),
                    arguments: PathArguments::AngleBracketed { turbofish: *turbofish, args: done },
                },
            }
        },
        _ => clone_segment(s),
    }
}

fn finish_arguments(
    base: &str,
    turbofish: bool,
    args: &Vec<GenericArgument>,
    done: Vec<GenericArgument>,
) -> (r: PathArguments)
    ensures
        r@ == ranked_arguments(base@, turbofish, args_s(args@), args_s(done@)),
{
    let all = if base_has_lifetime(base) && !names_lifetime(args) {
        let mut all: Vec<GenericArgument> = Vec::new();
        assert(args_s(all@) =~= seq![]);
        push_arg(&mut all, GenericArgument::Lifetime("_".to_owned()));
        append_args(&mut all, &done);
        assert(args_s(all@) =~= seq![ArgS::Lifetime("_"@)] + args_s(done@));
        all
    } else {
        done
    };
    assert(args_s(all@).len() == all@.len());
    if all.len() == 0 {
        PathArguments::Empty
    } else {
        PathArguments::AngleBracketed { turbofish, args: all }
    }
}

fn rewrite_segments(v: &Vec<PathSegment>, combo: &RankCombo) -> (r: Vec<PathSegment>)
    requires
        combo@.wf(),
    ensures
        segments_s(r@) == rank_segments(segments_s(v@), combo@),
    decreases v,
{
    let mut out: Vec<PathSegment> = Vec::new();
    let mut i: usize = 0;
    assert(rank_segments(segments_s(v@), combo@).len() == v@.len());
    while i < v.len()
        invariant
            i <= v@.len(),
            combo@.wf(),
            out@.len() == i,
            forall|j: int|
                0 <= j < i ==> segment_s(#[trigger] out@[j]) == rank_segments(segments_s(v@), combo@)[j],
        decreases v@.len() - i,
    {
        assert(segments_s(v@)[i as int] == segment_s(v@[i as int]));
        out.push(rewrite_segment(&v[i], combo));
        i = i + 1;
    }
    assert(segments_s(out@) =~= rank_segments(segments_s(v@), combo@));
    out
}

fn rewrite_tys(v: &Vec<Type>, combo: &RankCombo) -> (r: Vec<Type>)
    requires
        combo@.wf(),
    ensures
        types_s(r@) == rank_types(types_s(v@), combo@),
    decreases v,
{
    let mut out: Vec<Type> = Vec::new();
    let mut i: usize = 0;
    assert(rank_types(types_s(v@), combo@).len() == v@.len());
    while i < v.len()
        invariant
            i <= v@.len(),
            combo@.wf(),
            out@.len() == i,
            forall|j: int|
                0 <= j < i ==> type_s(#[trigger] out@[j]) == rank_types(types_s(v@), combo@)[j],
        decreases v@.len() - i,
    {
        assert(types_s(v@)[i as int] == type_s(v@[i as int]));
        out.push(rewrite_ty_for_rank(&v[i], combo));
        i = i + 1;
    }
    assert(types_s(out@) =~= rank_types(types_s(v@), combo@));
    out
}

fn rewrite_len(len: &Expr, combo: &RankCombo) -> (r: Expr)
    requires
        combo@.wf(),
    ensures
        r@ == rank_len(len@, combo@),
{
    match repeat_rank(len, combo) {
        Some(n) => {
            let d = decimal(n);
            Expr::Lit(cat2(d.as_str(), "usize"))
        },
        None => clone_expr(len),
    }
}

/// Rewrite a type referencing CGAs to use rank-instance `Tile_N<E, S_0, ..., S_{N-1}>` form.
///
/// Handles nested paths and references. For each path segment, if it has generic args that
/// reference a CGA, we:
/// 1. Suffix the path segment ident with `_N` (where N is the CGA's rank).
/// 2. Replace the CGA generic arg with the scalar dim arg references.
/// 3. Prepend `'_` for known lifetime-bearing variadic types (Shape, Array, ...) only when
///    the type doesn't already provide a lifetime arg.
///
/// Whether or not the outer segment is itself a CGA-bearing variadic type, we always recurse
/// into its generic args so nested CGAs (e.g. `Option<Tile<bool, S>>`) get rewritten too.
pub fn rewrite_ty_for_rank(ty: &Type, combo: &RankCombo) -> (r: Type)
    requires
        combo@.wf(),
    ensures
        r@ == rank_type(ty@, combo@),
    decreases ty,
{
    match ty {
        Type::Path(p) => Type::Path(rewrite_path(p, combo)),
        Type::Reference { lifetime, mutable, elem } => Type::Reference {
            lifetime: clone_opt(lifetime),
            mutable: *mutable,
            elem: Box::new(rewrite_ty_for_rank(elem, combo)),
        },
        Type::Array { elem, len } => Type::Array {
            elem: Box::new(rewrite_ty_for_rank(elem, combo)),
            len: Box::new(rewrite_len(len, combo)),
        },
        Type::Tuple(elems) => Type::Tuple(rewrite_tys(elems, combo)),
        _ => clone_type(ty),
    }
}

fn rewrite_path(p: &Path, combo: &RankCombo) -> (r: Path)
    requires
        combo@.wf(),
    ensures
        r@ == (PathS { segments: rank_segments(p@.segments, combo@), ..p@ }),
    decreases p,
{
    Path {
        qself: clone_qself(&p.qself),
        leading_colon: p.leading_colon,
        segments: rewrite_segments(&p.segments, combo),
    }
}

/// Literal-CGA-only type rewrite: walks a type and rewrites any `Tile<E, {[…]}>`-style
/// segment to its concrete `Tile_K<E, …>` form, leaving CGA-name references (e.g.
/// `Tile<E, S>`) untouched. Used by the wrapper emitter where the wrapper is generic over
/// CGAs and only literals can be resolved.
pub fn rewrite_literal_cgas_only(ty: &Type) -> (r: Type)
    ensures
        r@ == rank_type(ty@, RankComboS::none()),
{
    let combo = RankCombo::none();
    rewrite_ty_for_rank(ty, &combo)
}

} // verus!
