use cutile_macro::ast::{
    Expr, FieldValue, GenericArgument, MacroToken, Path, PathArguments, PathSegment, Piece, Stmt,
    Type,
};
use cutile_macro::error::Error;
use cutile_macro::items::{
    Field, FieldStyle, FnArg, GenericParam, Generics, ImplItem, ImplItemFn, ItemFn, ItemImpl,
    ItemStruct, Pat, Signature,
};
use cutile_macro::print::{print_expr, print_path, print_type};
use cutile_macro::rank_instantiation::bodies::visit_expr_mut;
use cutile_macro::rank_instantiation::lengths::VariadicLengthIterator;
use cutile_macro::rank_instantiation::signatures::rewrite_generics_for_rank;
use cutile_macro::rank_instantiation::types::{
    instantiate_cga, rewrite_path_for_rank, rewrite_type_for_rank, PathContext,
};
use cutile_macro::rank_instantiation::{
    cgas_from_generics, concrete_name, instantiate_function_for_rank, instantiate_impl_for_rank,
    instantiate_struct_for_rank, rank_suffix, variadic_impl, variadic_struct, CGAParameter,
    RankBindings, RankInstantiator, SingleMetaList, VarCGAParameter,
};

fn s(t: &str) -> String {
    t.to_string()
}

fn seg(ident: &str, args: Vec<GenericArgument>) -> PathSegment {
    let arguments = if args.is_empty() {
        PathArguments::Empty
    } else {
        PathArguments::AngleBracketed { turbofish: false, args }
    };
    PathSegment { ident: s(ident), arguments }
}

fn path(segments: Vec<PathSegment>) -> Path {
    Path { qself: None, leading_colon: false, segments }
}

fn ty(ident: &str, args: Vec<GenericArgument>) -> Type {
    Type::Path(path(vec![seg(ident, args)]))
}

fn name(ident: &str) -> Type {
    ty(ident, vec![])
}

fn arg(ident: &str) -> GenericArgument {
    GenericArgument::Type(name(ident))
}

fn lit(t: &str) -> Expr {
    Expr::Lit(s(t))
}

fn var(t: &str) -> Expr {
    Expr::Path(path(vec![seg(t, vec![])]))
}

fn block(e: Expr) -> GenericArgument {
    GenericArgument::Const(Expr::Block(vec![Stmt::Expr { expr: e, semi: false }]))
}

fn array_ty(elem: &str, len: Expr) -> Type {
    Type::Array { elem: Box::new(name(elem)), len: Box::new(len) }
}

fn const_array(ident: &str, len: Expr) -> GenericParam {
    GenericParam::Const { ident: s(ident), ty: array_ty("i32", len), rest: s("") }
}

fn type_param(ident: &str) -> GenericParam {
    GenericParam::Type { ident: s(ident), rest: s("") }
}

fn generics(params: Vec<GenericParam>) -> Generics {
    Generics { params, where_clause: None }
}

fn known(array: &str, length: u32) -> CGAParameter {
    CGAParameter { name: s(array), element_type: s("i32"), length }
}

fn variable(array: &str, length: &str) -> VarCGAParameter {
    VarCGAParameter { name: s(array), length_var: s(length), element_type: s("i32") }
}

/// `S` of length 2, and nothing else.
fn s2() -> RankBindings {
    RankBindings::from_generics(&vec![known("S", 2)])
}

/// `N` bound to `n`, and `S` of length `N`.
fn bound(n: i32) -> RankBindings {
    let mut meta = SingleMetaList::new();
    meta.set_int("N", n);
    let cgas = vec![variable("S", "N")];
    let mut it = VariadicLengthIterator::new(&meta, &cgas).unwrap();
    let mut last = it.next().unwrap();
    while let Some(item) = it.next() {
        last = item;
    }
    RankBindings::from_variadic(&last, &cgas).unwrap()
}

fn fault(e: Error) -> (String, String) {
    match e {
        Error::Syn(d) => (d.at, d.message),
    }
}

fn param_texts(g: &Generics) -> Vec<String> {
    g.params.iter().map(|p| p.print()).collect()
}

fn sig(ident: &str, params: Vec<GenericParam>, inputs: Vec<FnArg>, output: Option<Type>) -> Signature {
    Signature {
        qualifiers: s(""),
        is_unsafe: false,
        ident: s(ident),
        generics: generics(params),
        inputs,
        output,
    }
}

fn typed(ident: &str, t: Type) -> FnArg {
    FnArg::Typed { pat: Pat { ident: Some(s(ident)), source: s(ident) }, ty: t }
}

#[test]
fn suffix_joins_ranks() {
    assert_eq!(rank_suffix(&[2]), "2");
    assert_eq!(rank_suffix(&[2, 3]), "2_3");
    assert_eq!(rank_suffix(&[]), "");
    assert_eq!(concrete_name("Tile", &[2]), "Tile_2");
    assert_eq!(concrete_name("Tile", &[2, 10]), "Tile_2_10");
}

#[test]
fn concrete_names_differ() {
    let mut names = vec![];
    for a in 0..12u32 {
        for b in 0..12u32 {
            names.push(concrete_name("T", &[a, b]));
        }
    }
    let n = names.len();
    names.sort();
    names.dedup();
    assert_eq!(names.len(), n);
}

#[test]
fn one_variable_runs_from_zero_to_its_value() {
    let mut meta = SingleMetaList::new();
    meta.set_int("N", 4);
    let cgas = vec![variable("S", "N"), variable("D", "N")];
    let mut it = VariadicLengthIterator::new(&meta, &cgas).unwrap();
    let mut seen = vec![];
    while let Some(item) = it.next() {
        seen.push((item.vec_of_cga_lengths(), item.vec_of_unique_lengths()));
    }
    let want: Vec<(Vec<u32>, Vec<u32>)> = (0..5u32).map(|n| (vec![n, n], vec![n])).collect();
    assert_eq!(seen, want);
    assert!(it.next().is_none());
}

#[test]
fn independent_variables_give_every_combination_once() {
    let mut meta = SingleMetaList::new();
    meta.set_int("N", 1);
    meta.set_int("M", 2);
    let cgas = vec![variable("S", "N"), variable("R", "M")];
    let mut it = VariadicLengthIterator::new(&meta, &cgas).unwrap();
    let mut seen = vec![];
    while let Some(item) = it.next() {
        // `M` comes before `N`.
        assert_eq!(
            item.vec_of_unique_lengths(),
            vec![item.vec_of_cga_lengths()[1], item.vec_of_cga_lengths()[0]]
        );
        seen.push(item.vec_of_cga_lengths());
    }
    assert_eq!(
        seen,
        vec![vec![0, 0], vec![0, 1], vec![0, 2], vec![1, 0], vec![1, 1], vec![1, 2]]
    );
}

#[test]
fn listed_variables_count_too() {
    let mut meta = SingleMetaList::new();
    meta.set_int("N", 1);
    meta.set_int("M", 1);
    meta.set_string_arr("variadic_length_vars", vec![s("N"), s("M")]);
    let mut it = VariadicLengthIterator::new(&meta, &vec![variable("S", "N")]).unwrap();
    let mut n = 0;
    while it.next().is_some() {
        n += 1;
    }
    assert_eq!(n, 4);
}

#[test]
fn a_value_of_minus_one_leaves_no_length() {
    let mut meta = SingleMetaList::new();
    meta.set_int("N", -1);
    let mut it = VariadicLengthIterator::new(&meta, &vec![variable("S", "N")]).unwrap();
    assert!(it.next().is_none());
}

#[test]
fn length_errors() {
    let mut meta = SingleMetaList::new();
    meta.set_string_arr("variadic_length_vars", vec![s("N")]);
    let e = VariadicLengthIterator::new(&meta, &vec![]).err().unwrap();
    assert_eq!(fault(e), (s(""), s("Missing attribute value for 'N'")));

    let mut meta = SingleMetaList::new();
    meta.set_int("N", 1);
    meta.set_string_arr("variadic_length_vars", vec![s("N"), s("N")]);
    let e = VariadicLengthIterator::new(&meta, &vec![]).err().unwrap();
    assert_eq!(fault(e), (s(""), s("Duplicate variadic_length_var 'N'")));

    let meta = SingleMetaList::new();
    let e = VariadicLengthIterator::new(&meta, &vec![variable("S", "M")]).err().unwrap();
    assert_eq!(fault(e), (s(""), s("Missing attribute value for 'M'")));
}

#[test]
fn bindings_check_the_length_variable() {
    let mut meta = SingleMetaList::new();
    meta.set_int("N", 0);
    let mut it = VariadicLengthIterator::new(&meta, &vec![variable("S", "N")]).unwrap();
    let item = it.next().unwrap();
    let e = RankBindings::from_variadic(&item, &vec![variable("S", "M")]).err().unwrap();
    assert_eq!(
        fault(e),
        (s(""), s("CGA length var name mismatch: expected 'M', got 'N'"))
    );
}

#[test]
fn bindings_know_lengths_and_arrays() {
    let b = bound(3);
    assert_eq!(b.length("N"), Some(3));
    assert_eq!(b.length("M"), None);
    assert_eq!(b.array("S").unwrap().length, 3);
    assert!(b.array("N").is_none());
    let more = b.instantiate_var_cgas(&vec![variable("R", "N")]).unwrap();
    assert_eq!(more.array("R").unwrap().length, 3);
    let e = b.instantiate_var_cgas(&vec![variable("R", "M")]).err().unwrap();
    assert_eq!(
        fault(e),
        (s(""), s("instantiate_var_cgas: Missing inst_u32 entry for 'M'"))
    );
    let more = b.instantiate_new_var_cgas(&vec![5], &vec![variable("R", "M")]).unwrap();
    assert_eq!(more.length("M"), Some(5));
    assert_eq!(more.array("R").unwrap().length, 5);
    let e = b.instantiate_new_var_cgas(&vec![5], &vec![variable("R", "N")]).err().unwrap();
    assert_eq!(
        fault(e),
        (s(""), s("instantiate_new_var_cgas: inst_u32 already contains entry for 'N'"))
    );
    assert!(RankBindings::new().array("S").is_none());
}

#[test]
fn arrays_are_found_among_generics() {
    let g = generics(vec![
        GenericParam::Lifetime { ident: s("a"), rest: s("") },
        type_param("E"),
        const_array("D", var("N")),
        GenericParam::Const { ident: s("K"), ty: name("i32"), rest: s("") },
    ]);
    let found = cgas_from_generics(&g);
    assert_eq!(found.len(), 1);
    assert_eq!(found[0].name, "D");
    assert_eq!(found[0].length_var, "N");
    assert_eq!(found[0].element_type, "i32");
}

#[test]
fn generics_expand_in_place() {
    let g = generics(vec![type_param("E"), const_array("S", lit("2")), type_param("F")]);
    let r = rewrite_generics_for_rank(&g, &s2()).unwrap();
    assert_eq!(param_texts(&r), vec!["E", "const S_0 : i32", "const S_1 : i32", "F"]);
}

#[test]
fn generics_errors() {
    let g = generics(vec![const_array("T", lit("2"))]);
    let e = rewrite_generics_for_rank(&g, &s2()).err().unwrap();
    assert_eq!(fault(e), (s("T"), s("Missing inst_array entry for 'T'")));

    let b = RankBindings::from_generics(&vec![CGAParameter {
        name: s("T"),
        element_type: s("u8"),
        length: 1,
    }]);
    let e = rewrite_generics_for_rank(&g, &b).err().unwrap();
    assert_eq!(fault(e), (s("T"), s("Expected element_type 'i32', got 'u8'")));

    // A name that is no name, and one that does not even split into tokens.
    let g = generics(vec![const_array("1", lit("1"))]);
    let b = RankBindings::from_generics(&vec![known("1", 1)]);
    let (at, m) = fault(rewrite_generics_for_rank(&g, &b).err().unwrap());
    assert_eq!(at, "1");
    assert!(m.starts_with("Failed to parse generic param 'const 1_0: i32': "), "{m}");

    let g = generics(vec![const_array("(", lit("1"))]);
    let b = RankBindings::from_generics(&vec![known("(", 1)]);
    let e = rewrite_generics_for_rank(&g, &b).err().unwrap();
    assert_eq!(fault(e), (s("("), s("Failed to parse generic param 'const (_0: i32'")));
}

#[test]
fn types_get_their_rank() {
    let b = s2();
    let t = ty("Tile", vec![arg("E"), arg("S")]);
    assert_eq!(print_type(&rewrite_type_for_rank(&t, &b).unwrap()), "Tile_2 < E , S_0 , S_1 >");
    let t = Type::Reference {
        lifetime: Some(s("a")),
        mutable: true,
        elem: Box::new(ty("Shape", vec![arg("S")])),
    };
    assert_eq!(
        print_type(&rewrite_type_for_rank(&t, &b).unwrap()),
        "& 'a mut Shape_2 < S_0 , S_1 >"
    );
    let t = Type::Tuple(vec![name("f32"), ty("Shape", vec![arg("S")])]);
    assert_eq!(
        print_type(&rewrite_type_for_rank(&t, &b).unwrap()),
        "(f32 , Shape_2 < S_0 , S_1 >)"
    );
    // Types without arrays stay.
    let t = ty("Vec", vec![arg("f32")]);
    assert_eq!(print_type(&rewrite_type_for_rank(&t, &b).unwrap()), "Vec < f32 >");
    let t = Type::Verbatim(s("dyn Fn"));
    assert_eq!(print_type(&rewrite_type_for_rank(&t, &b).unwrap()), "dyn Fn");
}

#[test]
fn literal_arrays_get_their_rank() {
    let b = bound(3);
    let t = ty("Tensor", vec![arg("E"), block(Expr::Array(vec![lit("1"), lit("2")]))]);
    assert_eq!(print_type(&rewrite_type_for_rank(&t, &b).unwrap()), "Tensor_2 < E , 1 , 2 >");
    let minus = Expr::Unary { op: s("-"), operand: Box::new(lit("1")) };
    let t = ty(
        "Tensor",
        vec![arg("E"), block(Expr::Repeat { elem: Box::new(minus), len: Box::new(var("N")) })],
    );
    assert_eq!(
        print_type(&rewrite_type_for_rank(&t, &b).unwrap()),
        "Tensor_3 < E , - 1 , - 1 , - 1 >"
    );
    let t = ty(
        "Tensor",
        vec![block(Expr::Repeat { elem: Box::new(lit("7")), len: Box::new(lit("2")) })],
    );
    assert_eq!(print_type(&rewrite_type_for_rank(&t, &b).unwrap()), "Tensor_2 < 7 , 7 >");
}

#[test]
fn option_is_looked_into() {
    let t = ty("Option", vec![GenericArgument::Type(ty("Tile", vec![arg("bool"), arg("S")]))]);
    assert_eq!(
        print_type(&rewrite_type_for_rank(&t, &s2()).unwrap()),
        "Option < Tile_2 < bool , S_0 , S_1 > >"
    );
    assert_eq!(print_type(&rewrite_type_for_rank(&name("Option"), &s2()).unwrap()), "Option");
}

#[test]
fn nested_types_are_rewritten() {
    let none = RankBindings::new();
    let show = |t: &Type, b: &RankBindings| print_type(&rewrite_type_for_rank(t, b).unwrap());
    let literal = || {
        GenericArgument::Type(ty(
            "Tile",
            vec![arg("f32"), block(Expr::Array(vec![lit("2"), lit("4")]))],
        ))
    };
    assert_eq!(show(&ty("Vec", vec![literal()]), &none), "Vec < Tile_2 < f32 , 2 , 4 > >");
    let named = || GenericArgument::Type(ty("Tile", vec![arg("E"), arg("S")]));
    assert_eq!(
        show(&ty("Result", vec![named(), arg("Error")]), &s2()),
        "Result < Tile_2 < E , S_0 , S_1 > , Error >"
    );
    // At every depth, and beside an array of the type itself.
    let inner = GenericArgument::Type(ty("Vec", vec![literal()]));
    assert_eq!(
        show(&ty("Pair", vec![inner, arg("S")]), &s2()),
        "Pair_2 < Vec < Tile_2 < f32 , 2 , 4 > > , S_0 , S_1 >"
    );
    let GenericArgument::Type(tile) = named() else { panic!() };
    assert_eq!(show(&Type::Slice(Box::new(tile)), &s2()), "[Tile_2 < E , S_0 , S_1 >]");
    let GenericArgument::Type(tile) = named() else { panic!() };
    let reference =
        Type::Reference { lifetime: None, mutable: false, elem: Box::new(tile) };
    assert_eq!(
        show(&ty("Vec", vec![GenericArgument::Type(reference)]), &s2()),
        "Vec < & Tile_2 < E , S_0 , S_1 > >"
    );
    // An error inside is an error of the whole.
    let bad = ty("Option", vec![arg("S")]);
    let e = rewrite_type_for_rank(&ty("Vec", vec![GenericArgument::Type(bad)]), &s2());
    assert_eq!(
        fault(e.err().unwrap()),
        (s("S"), s("Unexpected use of rewrite_path_for_rank for S"))
    );
}

#[test]
fn lower_case_names_and_negative_dimensions() {
    let t = ty("Tile", vec![arg("f32"), arg("S")]);
    assert_eq!(
        print_type(&rewrite_type_for_rank(&t, &s2()).unwrap()),
        "Tile_2 < f32 , S_0 , S_1 >"
    );
    let minus = Expr::Unary { op: s("-"), operand: Box::new(lit("1")) };
    let t = ty("Tensor", vec![arg("usize"), block(Expr::Array(vec![minus, lit("7")]))]);
    assert_eq!(
        print_type(&rewrite_type_for_rank(&t, &s2()).unwrap()),
        "Tensor_2 < usize , - 1 , 7 >"
    );
}

#[test]
fn array_lengths_are_replaced() {
    let b = bound(4);
    let t = array_ty("i32", var("N"));
    assert_eq!(print_type(&rewrite_type_for_rank(&t, &b).unwrap()), "[i32 ; 4]");
    let t = array_ty("i32", var("M"));
    assert_eq!(print_type(&rewrite_type_for_rank(&t, &b).unwrap()), "[i32 ; M]");
}

#[test]
fn type_errors() {
    let b = s2();
    let e = rewrite_type_for_rank(&name("S"), &b).err().unwrap();
    assert_eq!(fault(e), (s("S"), s("Unexpected use of rewrite_path_for_rank for S")));
    let t = Type::Path(path(vec![PathSegment {
        ident: s("Fn"),
        arguments: PathArguments::Parenthesized(s("(i32)")),
    }]));
    let e = rewrite_type_for_rank(&t, &b).err().unwrap();
    assert_eq!(fault(e), (s("Fn"), s("Unexpected Path arguments.")));
    let e = rewrite_type_for_rank(&Type::Path(path(vec![])), &b).err().unwrap();
    assert_eq!(
        fault(e),
        (s(""), s("Expected at least one path segment in rewrite_type_for_rank"))
    );
    let t = ty("T", vec![GenericArgument::Type(Type::Path(path(vec![])))]);
    let e = rewrite_type_for_rank(&t, &b).err().unwrap();
    assert_eq!(fault(e), (s(""), s("Expected at least one path segment")));
}

#[test]
fn argument_errors() {
    let b = s2();
    let two = GenericArgument::Const(Expr::Block(vec![]));
    let e = rewrite_type_for_rank(&ty("T", vec![two]), &b).err().unwrap();
    assert_eq!(
        fault(e),
        (s("{ }"), s("Expected exactly 1 statement in block expression, got 0"))
    );
    let e = rewrite_type_for_rank(&ty("T", vec![block(lit("1"))]), &b).err().unwrap();
    assert_eq!(fault(e), (s("{ 1 }"), s("Unexpected block expression.")));
    let composite =
        GenericArgument::Const(Expr::Block(vec![Stmt::Composite(vec![Piece::Source(s("x"))])]));
    let e = rewrite_type_for_rank(&ty("T", vec![composite]), &b).err().unwrap();
    assert_eq!(fault(e), (s("{ x }"), s("Unexpected block expression.")));
    let repeat = |len: Expr| {
        ty("T", vec![block(Expr::Repeat { elem: Box::new(lit("1")), len: Box::new(len) })])
    };
    let e = rewrite_type_for_rank(&repeat(var("M")), &b).err().unwrap();
    assert_eq!(fault(e), (s("M"), s("Expected instance for generic argument M")));
    let e = rewrite_type_for_rank(&repeat(lit("2u8")), &b).err().unwrap();
    assert_eq!(
        fault(e),
        (
            s("2u8"),
            s("Failed to parse repeat length as u32: invalid digit found in string")
        )
    );
    let e = rewrite_type_for_rank(&repeat(Expr::Array(vec![])), &b).err().unwrap();
    assert_eq!(fault(e), (s("< { [1 ; []] } >"), s("Unexpected repeat expression.")));
    // What does not read as arguments.
    let odd = ty("T", vec![GenericArgument::Verbatim(s("="))]);
    let (at, m) = fault(rewrite_type_for_rank(&odd, &b).err().unwrap());
    assert_eq!(at, "T");
    assert!(m.starts_with("Failed to parse angle bracketed args '<=>': "), "{m}");
    let odd = ty("T", vec![GenericArgument::Verbatim(s("\""))]);
    let e = rewrite_type_for_rank(&odd, &b).err().unwrap();
    assert_eq!(fault(e), (s("T"), s("Failed to parse angle bracketed args '<\">'")));
}

#[test]
fn large_and_signed_repeat_lengths() {
    let repeat = |t: &str| {
        ty("T", vec![block(Expr::Repeat { elem: Box::new(lit("1")), len: Box::new(lit(t)) })])
    };
    let b = s2();
    assert_eq!(print_type(&rewrite_type_for_rank(&repeat("+1"), &b).unwrap()), "T_1 < 1 >");
    let e = rewrite_type_for_rank(&repeat("4294967296"), &b).err().unwrap();
    assert_eq!(
        fault(e).1,
        "Failed to parse repeat length as u32: number too large to fit in target type"
    );
}

#[test]
fn expression_paths_keep_their_last_name() {
    let b = s2();
    let p = path(vec![seg("iota", vec![arg("i32"), arg("S")])]);
    let r = rewrite_path_for_rank(&p, &b, PathContext::ExprPath).unwrap();
    assert_eq!(print_path(&r, true), "iota :: < i32 , S_0 , S_1 >");
    let p = path(vec![seg("Tile", vec![arg("E"), arg("S")]), seg("new", vec![])]);
    let r = rewrite_path_for_rank(&p, &b, PathContext::ExprPath).unwrap();
    assert_eq!(print_path(&r, true), "Tile_2 :: < E , S_0 , S_1 > :: new");
    let r = rewrite_path_for_rank(
        &path(vec![seg("Tile", vec![arg("S")])]),
        &b,
        PathContext::Type,
    )
    .unwrap();
    assert_eq!(print_path(&r, false), "Tile_2 < S_0 , S_1 >");
}

#[test]
fn arrays_as_paths() {
    let b = s2();
    let r = instantiate_cga(&path(vec![seg("S", vec![])]), &b).unwrap();
    assert_eq!(r, vec!["S_0", "S_1"]);
    let e = instantiate_cga(&path(vec![seg("T", vec![])]), &b).err().unwrap();
    assert_eq!(fault(e), (s("T"), s("T is not a const generic array.")));
    let e = instantiate_cga(&path(vec![]), &b).err().unwrap();
    assert_eq!(
        fault(e),
        (s(""), s("Expected at least one path segment in instantiate_cga"))
    );
}

#[test]
fn expressions_are_rewritten() {
    let b = bound(2);
    let show = |e: &Expr| print_expr(&visit_expr_mut(e, &b).unwrap());
    // A length variable, and an array, by value.
    assert_eq!(show(&var("N")), "2u32");
    assert_eq!(show(&var("S")), "2u32");
    assert_eq!(show(&var("x")), "x");
    // A dimension of an array.
    let index = |base: &str, i: i32| Expr::Index {
        base: Box::new(var(base)),
        index: Box::new(lit(&i.to_string())),
        position: i,
    };
    assert_eq!(show(&index("S", 0)), "S_0");
    assert_eq!(show(&index("S", 1)), "S_1");
    assert_eq!(show(&index("x", 5)), "x [5]");
    let e = visit_expr_mut(&index("S", 2), &b).err().unwrap();
    assert_eq!(fault(e), (s("2"), s("Index 2 out of bounds for CGA `S` of length 2")));
    let e = visit_expr_mut(&index("S", -1), &b).err().unwrap();
    assert_eq!(fault(e), (s("-1"), s("Index -1 out of bounds for CGA `S` of length 2")));
    // A struct literal is a type.
    let shape = Expr::Struct {
        path: path(vec![seg("Shape", vec![block(Expr::Array(vec![lit("1"), lit("2")]))])]),
        fields: vec![FieldValue { member: s("dims"), expr: var("N") }],
        rest: None,
    };
    assert_eq!(show(&shape), "Shape_2 :: < 1 , 2 > { dims : 2u32 , }");
    // Everything inside a larger expression.
    let call = Expr::Composite(vec![
        Piece::Source(s("f (")),
        Piece::Expr(var("N")),
        Piece::Source(s(") as")),
        Piece::Type(ty("Tile", vec![arg("S")])),
        Piece::Path(path(vec![seg("iota", vec![arg("S")])])),
    ]);
    assert_eq!(show(&call), "f ( 2u32 ) as Tile_2 < S_0 , S_1 > iota :: < S_0 , S_1 >");
    let list = Expr::Array(vec![
        var("N"),
        Expr::Unary { op: s("-"), operand: Box::new(var("N")) },
        Expr::Repeat { elem: Box::new(var("N")), len: Box::new(var("N")) },
        Expr::Block(vec![Stmt::Expr { expr: var("N"), semi: true }]),
    ]);
    assert_eq!(show(&list), "[2u32 , - 2u32 , [2u32 ; 2u32] , { 2u32 ; }]");
}

fn mac(kind: &str, tokens: Vec<MacroToken>) -> Expr {
    Expr::Macro { name: s(kind), tokens, source: format!("{kind} ! (..)") }
}

#[test]
fn shape_macros_are_expanded() {
    let b = s2();
    let show = |e: &Expr| print_expr(&visit_expr_mut(e, &b).unwrap());
    let two = || {
        vec![MacroToken::Literal(s("3")), MacroToken::Comma, MacroToken::Literal(s("4"))]
    };
    assert_eq!(show(&mac("const_shape", two())), "Shape_2 :: < 3 , 4 > :: const_new ()");
    assert_eq!(show(&mac("const_array", two())), "Array_2 :: < 3 , 4 > :: const_new ()");
    assert_eq!(
        show(&mac(
            "const_shape",
            vec![MacroToken::Ident(s("S")), MacroToken::Comma, MacroToken::Ident(s("K"))]
        )),
        "Shape_3 :: < S_0 , S_1 , K > :: const_new ()"
    );
    assert_eq!(show(&mac("const_shape", vec![])), "Shape_0 :: < > :: const_new ()");
    // Any other macro stays.
    assert_eq!(show(&mac("vec", two())), "vec ! (..)");
}

#[test]
fn shape_macro_errors() {
    let b = s2();
    let e = visit_expr_mut(&mac("const_shape", vec![MacroToken::Other(s("Punct('-')"))]), &b)
        .err()
        .unwrap();
    assert_eq!(
        fault(e),
        (s("const_shape ! (..)"), s("Unexpected token in const_shape!: Punct('-')"))
    );
    let e = visit_expr_mut(&mac("const_array", vec![MacroToken::Literal(s("]"))]), &b)
        .err()
        .unwrap();
    let (at, m) = fault(e);
    assert_eq!(at, "const_array ! (..)");
    assert!(m.starts_with("Failed to parse 'Array::<{[]]}>::const_new()': "), "{m}");
}

fn my_fn() -> ItemFn {
    ItemFn {
        attrs: vec![],
        vis: s("pub"),
        sig: sig(
            "my_fn",
            vec![const_array("S", lit("2"))],
            vec![typed("x", ty("Tile", vec![arg("f32"), arg("S")]))],
            Some(ty("Shape", vec![arg("S")])),
        ),
        body: vec![Stmt::Expr { expr: var("S"), semi: false }],
    }
}

#[test]
fn a_function_of_one_rank() {
    let r = instantiate_function_for_rank(&my_fn(), &vec![known("S", 2)]).unwrap();
    assert_eq!(
        r.sig.print(),
        " fn my_fn < const S_0 : i32 , const S_1 : i32 >(x : Tile_2 < f32 , S_0 , S_1 >) -> Shape_2 < S_0 , S_1 >"
    );
    assert_eq!(r.vis, "pub");
    assert_eq!(r.body.len(), 1);
    let e = instantiate_function_for_rank(&my_fn(), &vec![]).err().unwrap();
    assert_eq!(fault(e), (s("S"), s("Missing inst_array entry for 'S'")));
}

fn my_struct() -> ItemStruct {
    ItemStruct {
        attrs: vec![],
        vis: s("pub"),
        ident: s("View"),
        generics: generics(vec![
            GenericParam::Lifetime { ident: s("a"), rest: s("") },
            const_array("D", var("N")),
        ]),
        style: FieldStyle::Named,
        fields: vec![Field {
            prefix: s("pub"),
            ident: Some(s("dims")),
            ty: Type::Reference {
                lifetime: Some(s("a")),
                mutable: false,
                elem: Box::new(Type::Slice(Box::new(name("i32")))),
            },
        }],
    }
}

#[test]
fn a_struct_of_one_rank() {
    let mut item = my_struct();
    item.generics = generics(vec![const_array("D", lit("2"))]);
    item.fields[0].ty = ty("Shape", vec![arg("D")]);
    let r = instantiate_struct_for_rank(&item, &vec![known("D", 2)]).unwrap();
    assert_eq!(r.ident, "View");
    assert_eq!(param_texts(&r.generics), vec!["const D_0 : i32", "const D_1 : i32"]);
    assert_eq!(print_type(&r.fields[0].ty), "Shape_2 < D_0 , D_1 >");
    // The rewriter alone leaves the generics to its caller.
    let b = RankBindings::from_generics(&vec![known("D", 2)]);
    let r = RankInstantiator::new(b).rewrite_struct(&item).unwrap();
    assert_eq!(param_texts(&r.generics), vec!["const D : [i32 ; 2]"]);
}

#[test]
fn structs_of_all_ranks() {
    let mut meta = SingleMetaList::new();
    meta.set_int("N", 2);
    meta.set_string("constructor", "new");
    let all = variadic_struct(&meta, my_struct()).unwrap();
    let names: Vec<&str> = all.iter().map(|x| x.0.ident.as_str()).collect();
    assert_eq!(names, vec!["View_0", "View_1", "View_2"]);
    assert_eq!(param_texts(&all[1].0.generics), vec!["'a", "const D_0 : i32"]);
    let source = all[1].1.clone().unwrap();
    assert_eq!(
        source,
        "impl<'a, const D_0: i32> View_1<'a, D_0> { pub fn new_0(dims: &'a [i32; 0]) -> Self { View_1 { dims: dims } }\npub fn const_new() -> Self { View_1 { dims: &[] } }\npub fn new_1(dims: &'a [i32; 1]) -> Self { View_1 { dims: dims } } }"
    );
    let counts: Vec<usize> = all
        .iter()
        .map(|x| syn::parse_str::<syn::ItemImpl>(x.1.as_ref().unwrap()).unwrap().items.len())
        .collect();
    assert_eq!(counts, vec![2, 3, 4]);
}

#[test]
fn structs_without_constructors() {
    let mut meta = SingleMetaList::new();
    meta.set_int("N", 1);
    let all = variadic_struct(&meta, my_struct()).unwrap();
    assert!(all.iter().all(|x| x.1.is_none()));
    // Asked for, but with nothing to hold dimensions.
    meta.set_string("constructor", "new");
    let mut item = my_struct();
    item.fields[0].ident = Some(s("data"));
    let all = variadic_struct(&meta, item).unwrap();
    assert!(all.iter().all(|x| x.1.is_none()));
    let mut item = my_struct();
    item.style = FieldStyle::Unnamed;
    let all = variadic_struct(&meta, item).unwrap();
    assert!(all.iter().all(|x| x.1.is_none()));
}

#[test]
fn struct_errors() {
    let meta = SingleMetaList::new();
    let e = variadic_struct(&meta, my_struct()).err().unwrap();
    assert_eq!(fault(e), (s(""), s("Missing attribute value for 'N'")));
    let mut meta = SingleMetaList::new();
    meta.set_int("N", 0);
    meta.set_string("constructor", "1");
    let (at, m) = fault(variadic_struct(&meta, my_struct()).err().unwrap());
    assert_eq!(at, "View");
    assert!(m.starts_with("Failed to parse constructor impl: "), "{m}");
    meta.set_string("constructor", "(");
    let e = variadic_struct(&meta, my_struct()).err().unwrap();
    assert_eq!(fault(e), (s("View"), s("Failed to parse constructor impl")));
}

fn method(ident: &str, params: Vec<GenericParam>, t: Type, variadic: bool) -> ImplItem {
    ImplItem::Fn(ImplItemFn {
        attrs: vec![],
        vis: s("pub"),
        variadic,
        sig: sig(ident, params, vec![FnArg::Receiver(s("& self")), typed("x", t)], None),
        body: vec![],
    })
}

fn my_impl(items: Vec<ImplItem>) -> ItemImpl {
    ItemImpl {
        source: s("impl .."),
        attrs: vec![],
        qualifiers: s(""),
        generics: generics(vec![type_param("E"), const_array("D", var("N"))]),
        trait_path: Some(path(vec![seg(
            "Load",
            vec![arg("E"), arg("D"), GenericArgument::Type(ty("Tile", vec![arg("E"), arg("D")]))],
        )])),
        self_ty: ty("Tile", vec![arg("E"), arg("D")]),
        items,
    }
}

#[test]
fn impls_of_all_ranks() {
    let mut meta = SingleMetaList::new();
    meta.set_int("N", 2);
    let items = vec![
        ImplItem::Type { head: s("type Out ="), ty: ty("Shape", vec![arg("D")]), tail: s(";") },
        ImplItem::Const(s("const K : i32 = 0 ;")),
        method("shape", vec![], ty("Shape", vec![arg("D")]), false),
        method("many", vec![], ty("Shape", vec![arg("D")]), true),
        method("more", vec![const_array("R", var("N"))], ty("Shape", vec![arg("R")]), false),
    ];
    let all = variadic_impl(&meta, my_impl(items)).unwrap();
    assert_eq!(all.len(), 3);
    let r = &all[2];
    assert_eq!(print_type(&r.self_ty), "Tile_2 < E , D_0 , D_1 >");
    assert_eq!(param_texts(&r.generics), vec!["E", "const D_0 : i32", "const D_1 : i32"]);
    assert_eq!(
        print_path(r.trait_path.as_ref().unwrap(), false),
        "Load < E , D_0 , D_1 , Tile_2 < E , D_0 , D_1 > >"
    );
    // The method that spans several ranks is gone.
    assert_eq!(r.items.len(), 4);
    match &r.items[0] {
        ImplItem::Type { ty, .. } => assert_eq!(print_type(ty), "Shape_2 < D_0 , D_1 >"),
        _ => panic!(),
    }
    match &r.items[3] {
        ImplItem::Fn(f) => assert_eq!(
            f.sig.print(),
            " fn more < const R_0 : i32 , const R_1 : i32 >(& self , x : Shape_2 < R_0 , R_1 >)"
        ),
        _ => panic!(),
    }
}

#[test]
fn impl_errors() {
    let mut meta = SingleMetaList::new();
    meta.set_int("N", 0);
    let e = variadic_impl(&meta, my_impl(vec![ImplItem::Verbatim(s("m ! {}"))])).err().unwrap();
    assert_eq!(fault(e), (s("m ! {}"), s("Unsupported impl item.")));
    let e = variadic_impl(
        &meta,
        my_impl(vec![method("more", vec![const_array("R", var("M"))], name("i32"), false)]),
    )
    .err()
    .unwrap();
    assert_eq!(
        fault(e),
        (s(""), s("instantiate_var_cgas: Missing inst_u32 entry for 'M'"))
    );
    let mut item = my_impl(vec![]);
    item.trait_path = Some(path(vec![]));
    let e = variadic_impl(&meta, item).err().unwrap();
    assert_eq!(fault(e), (s(""), s("Expected at least one path segment in trait path")));
}

#[test]
fn an_impl_of_one_rank() {
    let mut item = my_impl(vec![method("shape", vec![], ty("Shape", vec![arg("D")]), false)]);
    item.generics = generics(vec![const_array("D", lit("1"))]);
    item.trait_path = None;
    let r = instantiate_impl_for_rank(&item, &vec![known("D", 1)]).unwrap();
    assert_eq!(print_type(&r.self_ty), "Tile_1 < E , D_0 >");
    assert_eq!(r.items.len(), 1);
}

#[test]
fn names_may_start_with_an_underscore() {
    let b = RankBindings::from_generics(&vec![known("_S", 2)]);
    let g = generics(vec![const_array("_S", lit("2"))]);
    assert_eq!(
        param_texts(&rewrite_generics_for_rank(&g, &b).unwrap()),
        vec!["const _S_0 : i32", "const _S_1 : i32"]
    );
    let t = ty("_Tile", vec![arg("_E"), arg("_S")]);
    assert_eq!(
        print_type(&rewrite_type_for_rank(&t, &b).unwrap()),
        "_Tile_2 < _E , _S_0 , _S_1 >"
    );
}

#[test]
fn every_copy_has_constructors_that_parse() {
    for (ident, array) in [("Shape", "S"), ("_Shape", "_S"), ("fn", "x")] {
        let mut meta = SingleMetaList::new();
        meta.set_int("N", 3);
        meta.set_string("constructor", "new");
        let dims = Type::Reference {
            lifetime: Some(s("a")),
            mutable: false,
            elem: Box::new(Type::Slice(Box::new(name("i32")))),
        };
        let item = ItemStruct {
            attrs: vec![],
            vis: s("pub"),
            ident: s(ident),
            generics: generics(vec![const_array(array, var("N"))]),
            style: FieldStyle::Named,
            fields: vec![Field { prefix: s("pub"), ident: Some(s("dims")), ty: dims }],
        };
        let copies = variadic_struct(&meta, item).unwrap();
        assert_eq!(copies.len(), 4);
        for (n, (copy, constructors)) in copies.iter().enumerate() {
            assert_eq!(copy.ident, format!("{ident}_{n}"));
            let parsed = syn::parse_str::<syn::ItemImpl>(constructors.as_ref().unwrap()).unwrap();
            assert_eq!(parsed.items.len(), n + 2);
        }
    }
}
