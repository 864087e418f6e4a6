use cutile_macro::ast::{
    Expr, GenericArgument, Path, PathArguments, PathSegment, Stmt, Type,
};
use cutile_macro::error::Error;
use cutile_macro::items::{
    Attribute, FnArg, GenericParam, Generics, ImplItem, ImplItemFn, ItemFn, ItemImpl, ItemTrait,
    Pat, Signature, TraitItem,
};
use cutile_macro::print::print_type;
use cutile_macro::shadow_dispatch::lifetimes::{
    bind_anon_lifetimes_to, bind_outer_reference_lifetime, replace_lifetimes_with,
    type_uses_lifetime,
};
use cutile_macro::shadow_dispatch::op_spec::RankPolyOpSpec;
use cutile_macro::shadow_dispatch::ranks::{
    find_cgas, group_cgas_by_length, CgaInfo, RankCombo, RankSpace,
};
use cutile_macro::shadow_dispatch::types::{
    rewrite_literal_cgas_only, rewrite_ty_for_rank, type_references_ident, types_equal,
};
use cutile_macro::shadow_dispatch::variadic_traits::filter_cuda_tile_attrs;
use cutile_macro::shadow_dispatch::{
    desugar_variadic_trait_decl, desugar_variadic_trait_impl, emit_shadow_dispatch, MAX_RANK,
};

fn s(t: &str) -> String {
    t.to_string()
}

fn seg(ident: &str, args: Vec<GenericArgument>) -> PathSegment {
    let arguments = if args.is_empty() {
        PathArguments::Empty
    } else {
        PathArguments::AngleBracketed { turbofish: false, args }
    };
    PathSegment { ident: s(ident), arguments }
}

fn path(segments: Vec<PathSegment>) -> Path {
    Path { qself: None, leading_colon: false, segments }
}

fn ty(ident: &str, args: Vec<GenericArgument>) -> Type {
    Type::Path(path(vec![seg(ident, args)]))
}

fn name(ident: &str) -> Type {
    ty(ident, vec![])
}

fn arg(ident: &str) -> GenericArgument {
    GenericArgument::Type(name(ident))
}

fn tile(elem: &str, shape: &str) -> Type {
    ty("Tile", vec![arg(elem), arg(shape)])
}

fn lit(t: &str) -> Expr {
    Expr::Lit(s(t))
}

fn var(t: &str) -> Expr {
    Expr::Path(path(vec![seg(t, vec![])]))
}

fn block(e: Expr) -> GenericArgument {
    GenericArgument::Const(Expr::Block(vec![Stmt::Expr { expr: e, semi: false }]))
}

fn reference(lifetime: Option<&str>, mutable: bool, t: Type) -> Type {
    Type::Reference { lifetime: lifetime.map(s), mutable, elem: Box::new(t) }
}

fn array_ty(elem: Type, len: Expr) -> Type {
    Type::Array { elem: Box::new(elem), len: Box::new(len) }
}

fn cga(ident: &str, len: &str) -> GenericParam {
    GenericParam::Const { ident: s(ident), ty: array_ty(name("i32"), var(len)), rest: s("") }
}

fn type_param(ident: &str) -> GenericParam {
    GenericParam::Type { ident: s(ident), rest: s("") }
}

fn bounded(ident: &str, rest: &str) -> GenericParam {
    GenericParam::Type { ident: s(ident), rest: s(rest) }
}

fn generics(params: Vec<GenericParam>) -> Generics {
    Generics { params, where_clause: None }
}

fn typed(ident: &str, t: Type) -> FnArg {
    FnArg::Typed { pat: Pat { ident: Some(s(ident)), source: s(ident) }, ty: t }
}

fn op(ident: &str, params: Vec<GenericParam>, inputs: Vec<FnArg>, output: Option<Type>) -> ItemFn {
    ItemFn {
        attrs: vec![],
        vis: s("pub"),
        sig: Signature {
            qualifiers: s(""),
            is_unsafe: false,
            ident: s(ident),
            generics: generics(params),
            inputs,
            output,
        },
        body: vec![],
    }
}

fn addf() -> ItemFn {
    op(
        "addf",
        vec![bounded("E", " : ElementType"), cga("S", "N"), bounded("R", " : rounding :: Mode")],
        vec![typed("lhs", tile("E", "S")), typed("rhs", tile("E", "S")), typed("rounding", name("R"))],
        Some(tile("E", "S")),
    )
}

fn reshape() -> ItemFn {
    op(
        "reshape",
        vec![type_param("E"), cga("S", "N"), cga("R", "M")],
        vec![typed("source", tile("E", "S")), typed("shape", ty("Shape", vec![arg("R")]))],
        Some(tile("E", "R")),
    )
}

fn fault(e: Error) -> (String, String) {
    match e {
        Error::Syn(d) => (d.at, d.message),
    }
}

fn items(source: &str) -> Vec<syn::Item> {
    syn::parse_file(source).unwrap().items
}

fn impls(source: &str) -> Vec<syn::ItemImpl> {
    items(source)
        .into_iter()
        .filter_map(|x| match x {
            syn::Item::Impl(i) => Some(i),
            _ => None,
        })
        .collect()
}

fn info(cga_ident: &str, length_ident: &str) -> CgaInfo {
    CgaInfo { cga_ident: s(cga_ident), length_ident: s(length_ident) }
}

/// `S` and `R` at the given ranks.
fn combo(rank_s: usize, rank_r: usize) -> RankCombo {
    let space = RankSpace::new(&vec![info("S", "N"), info("R", "M")], 6);
    space
        .iter()
        .into_iter()
        .find(|c| c.rank_of("S") == rank_s && c.rank_of("R") == rank_r)
        .unwrap()
}

#[test]
fn arrays_of_i32_are_found() {
    let g = generics(vec![
        type_param("E"),
        cga("S", "N"),
        GenericParam::Const {
            ident: s("B"),
            ty: array_ty(name("u8"), var("N")),
            rest: s(""),
        },
        GenericParam::Const {
            ident: s("L"),
            ty: array_ty(name("i32"), lit("2")),
            rest: s(""),
        },
        GenericParam::Const { ident: s("K"), ty: name("i32"), rest: s("") },
    ]);
    let found = find_cgas(&g).unwrap();
    assert_eq!(found.len(), 1);
    assert_eq!((found[0].cga_ident.as_str(), found[0].length_ident.as_str()), ("S", "N"));
    let odd = Expr::Path(path(vec![seg("a", vec![]), seg("N", vec![])]));
    let g = generics(vec![GenericParam::Const {
        ident: s("S"),
        ty: array_ty(name("i32"), odd),
        rest: s(""),
    }]);
    let e = find_cgas(&g).err().unwrap();
    assert_eq!(fault(e), (s("[i32 ; a :: N]"), s("CGA length must be a simple ident")));
}

#[test]
fn arrays_are_grouped_by_length() {
    let groups = group_cgas_by_length(&vec![info("S", "N"), info("R", "M"), info("T", "N")]);
    assert_eq!(groups.len(), 2);
    assert_eq!(groups[0].length_ident, "N");
    assert_eq!(groups[0].cgas, vec!["S", "T"]);
    assert_eq!(groups[1].length_ident, "M");
    assert_eq!(groups[1].cgas, vec!["R"]);
}

#[test]
fn rank_combinations_are_a_product() {
    assert_eq!(MAX_RANK, 6);
    let one = RankSpace::new(&vec![info("S", "N"), info("R", "N")], MAX_RANK).iter();
    assert_eq!(one.len(), 7);
    for (i, c) in one.iter().enumerate() {
        assert_eq!((c.rank_of("S"), c.rank_of("R")), (i, i));
        assert_eq!(c.rank_of_length("N"), Some(i));
        assert_eq!(c.rank_of_length("M"), None);
    }
    let two = RankSpace::new(&vec![info("S", "N"), info("R", "M")], MAX_RANK).iter();
    let mut seen: Vec<(usize, usize)> =
        two.iter().map(|c| (c.rank_of("S"), c.rank_of("R"))).collect();
    assert_eq!(seen[0], (0, 0));
    assert_eq!(seen[1], (1, 0));
    assert_eq!(seen[7], (0, 1));
    seen.sort();
    seen.dedup();
    assert_eq!(seen.len(), 49);
    assert!(RankSpace::new(&vec![], MAX_RANK).iter().is_empty());
}

#[test]
fn dimensions_stand_in_declaration_order() {
    let arrays = vec![info("S", "N"), info("R", "M"), info("T", "N")];
    let all = RankSpace::new(&arrays, 2).iter();
    let c = all.iter().find(|c| c.rank_of("S") == 1 && c.rank_of("R") == 2).unwrap();
    assert_eq!(
        c.dim_params_tokens(),
        vec!["const S_0: i32", "const R_0: i32", "const R_1: i32", "const T_0: i32"]
    );
    assert_eq!(c.dim_names_for("R"), vec!["R_0", "R_1"]);
    assert_eq!(c.dim_names_for("r#R"), vec!["R_0"]);
    let table = c.dim_names_per_cga();
    assert_eq!(table.get("R").unwrap().0, vec!["R_0", "R_1"]);
    assert_eq!(table.get("T").unwrap().0, vec!["T_0"]);
}

#[test]
fn types_take_rank_instance_form() {
    let c = combo(2, 0);
    let show = |t: Type| print_type(&rewrite_ty_for_rank(&t, &c));
    assert_eq!(show(tile("E", "S")), "Tile_2 < E , S_0 , S_1 >");
    assert_eq!(show(tile("E", "R")), "Tile_0 < E >");
    assert_eq!(show(ty("Shape", vec![arg("S")])), "Shape_2 < '_ , S_0 , S_1 >");
    assert_eq!(show(ty("Shape", vec![arg("R")])), "Shape_0 < '_ >");
    assert_eq!(
        show(ty("Shape", vec![GenericArgument::Lifetime(s("a")), arg("S")])),
        "Shape_2 < 'a , S_0 , S_1 >"
    );
    assert_eq!(show(ty("Token", vec![arg("R")])), "Token_0");
    assert_eq!(
        show(ty("Option", vec![GenericArgument::Type(tile("bool", "S"))])),
        "Option < Tile_2 < bool , S_0 , S_1 > >"
    );
    assert_eq!(
        show(reference(None, true, tile("E", "S"))),
        "& mut Tile_2 < E , S_0 , S_1 >"
    );
    assert_eq!(show(array_ty(name("i32"), var("N"))), "[i32 ; 2usize]");
    assert_eq!(show(array_ty(name("i32"), var("K"))), "[i32 ; K]");
    assert_eq!(
        show(Type::Tuple(vec![tile("E", "S"), name("f32")])),
        "(Tile_2 < E , S_0 , S_1 > , f32)"
    );
    // Literal arrays.
    assert_eq!(
        show(ty("Tile", vec![arg("E"), block(Expr::Array(vec![lit("128"), lit("64")]))])),
        "Tile_2 < E , 128 , 64 >"
    );
    assert_eq!(
        show(ty(
            "Tile",
            vec![
                arg("E"),
                block(Expr::Repeat { elem: Box::new(lit("1")), len: Box::new(var("N")) })
            ]
        )),
        "Tile_2 < E , 1 , 1 >"
    );
    // Every segment of a path.
    let t = Type::Path(path(vec![seg("Tile", vec![arg("E"), arg("S")]), seg("Out", vec![])]));
    assert_eq!(show(t), "Tile_2 < E , S_0 , S_1 > :: Out");
    // Nothing to do.
    assert_eq!(show(ty("Vec", vec![arg("f32")])), "Vec < f32 >");
    assert_eq!(show(Type::Verbatim(s("dyn T"))), "dyn T");
}

#[test]
fn literal_arrays_alone() {
    let t = ty("PointerTile", vec![arg("P"), block(Expr::Array(vec![]))]);
    assert_eq!(print_type(&rewrite_literal_cgas_only(&t)), "PointerTile_0 < P >");
    let t = ty("Shape", vec![block(Expr::Array(vec![lit("1")]))]);
    assert_eq!(print_type(&rewrite_literal_cgas_only(&t)), "Shape_1 < '_ , 1 >");
    assert_eq!(print_type(&rewrite_literal_cgas_only(&tile("E", "S"))), "Tile < E , S >");
    let t = array_ty(name("i32"), var("N"));
    assert_eq!(print_type(&rewrite_literal_cgas_only(&t)), "[i32 ; N]");
}

#[test]
fn questions_about_types() {
    assert!(type_references_ident(&tile("E", "S"), "S"));
    assert!(!type_references_ident(&tile("E", "S"), "Ti"));
    assert!(types_equal(&tile("E", "S"), &tile("E", "S")));
    assert!(!types_equal(&tile("E", "S"), &tile("E", "R")));
    assert!(type_uses_lifetime(&reference(None, false, name("T"))));
    assert!(type_uses_lifetime(&ty("Shape", vec![arg("S")])));
    assert!(type_uses_lifetime(&ty("X", vec![GenericArgument::Lifetime(s("a"))])));
    assert!(type_uses_lifetime(&Type::Tuple(vec![name("A"), ty("Array", vec![])])));
    assert!(type_uses_lifetime(&array_ty(ty("PartitionMut", vec![]), lit("1"))));
    assert!(type_uses_lifetime(&ty("Option", vec![arg("Partition")])));
    assert!(!type_uses_lifetime(&tile("E", "S")));
}

#[test]
fn lifetimes_are_bound_and_replaced() {
    let t = Type::Tuple(vec![
        reference(None, false, name("T")),
        reference(Some("_"), false, name("T")),
        reference(Some("a"), true, ty("Shape", vec![GenericArgument::Lifetime(s("_"))])),
    ]);
    let once = bind_anon_lifetimes_to(&t, "r");
    assert_eq!(print_type(&once), "(& 'r T , & 'r T , & 'a mut Shape < 'r >)");
    assert_eq!(print_type(&bind_anon_lifetimes_to(&once, "r")), print_type(&once));
    let dead = vec![s("a")];
    let once = replace_lifetimes_with(&once, &dead, "b");
    assert_eq!(print_type(&once), "(& 'r T , & 'r T , & 'b mut Shape < 'r >)");
    assert!(!type_references_ident(&once, "a"));
    assert_eq!(print_type(&replace_lifetimes_with(&once, &dead, "b")), print_type(&once));
    let r = reference(None, false, reference(None, false, name("T")));
    assert_eq!(print_type(&bind_outer_reference_lifetime(&r, "a")), "& 'a & T");
    assert_eq!(print_type(&bind_outer_reference_lifetime(&name("T"), "a")), "T");
}

#[test]
fn same_shape_operations_return_self() {
    let text = emit_shadow_dispatch(&addf(), None, None).unwrap();
    assert!(
        text.starts_with(
            "#[allow(non_camel_case_types)] pub trait Addf < R : rounding :: Mode > { fn addf(self, rhs: Self, rounding: R) -> Self; }\n"
        ),
        "{text}"
    );
    assert!(
        text.contains(
            "impl < E : ElementType , R : rounding :: Mode , const S_0: i32 , const S_1: i32 > Addf < R > for Tile_2 < E , S_0 , S_1 > { fn addf(self, rhs: Self, rounding: R) -> Self { let _ = (rhs, rounding); ::std::unreachable!() } }"
        ),
        "{text}"
    );
    assert!(
        text.ends_with(
            "pub fn addf < __T , R : rounding :: Mode >(lhs: __T, rhs: __T, rounding: R) -> __T where __T: Addf < R > { lhs.addf(rhs, rounding) }"
        ),
        "{text}"
    );
    assert_eq!(items(&text).len(), 9);
    assert_eq!(impls(&text).len(), 7);
}

#[test]
fn bound_operations_have_an_output_type() {
    let text = emit_shadow_dispatch(&reshape(), None, None).unwrap();
    assert!(
        text.starts_with(
            "#[allow(non_camel_case_types)] pub trait Reshape < Sh0 > { type Out; fn reshape(self, shape: Sh0) -> Self::Out; }\n"
        ),
        "{text}"
    );
    assert!(
        text.contains(
            "impl < E , const S_0: i32 , const R_0: i32 , const R_1: i32 > Reshape < Shape_2 < '_ , R_0 , R_1 > > for Tile_1 < E , S_0 > { type Out = Tile_2 < E , R_0 , R_1 >; fn reshape(self, shape: Shape_2 < '_ , R_0 , R_1 >) -> Self::Out { let _ = (shape); ::std::unreachable!() } }"
        ),
        "{text}"
    );
    assert!(
        text.ends_with(
            "pub fn reshape < __T , Sh0 >(source: __T, shape: Sh0) -> < __T as Reshape < Sh0 > >::Out where __T: Reshape < Sh0 > { source.reshape(shape) }"
        ),
        "{text}"
    );
    assert_eq!(impls(&text).len(), 49);
}

#[test]
fn free_operations_take_their_output_as_a_generic() {
    let permute = op(
        "permute",
        vec![type_param("E"), cga("S", "N"), cga("R", "N")],
        vec![typed("source", tile("E", "S"))],
        Some(tile("E", "R")),
    );
    let text = emit_shadow_dispatch(&permute, None, None).unwrap();
    assert!(
        text.starts_with(
            "#[allow(non_camel_case_types)] pub trait Permute < Out > { fn permute(self) -> Out; }\n"
        ),
        "{text}"
    );
    assert!(
        text.contains(
            "Permute < Tile_1 < E , R_0 > > for Tile_1 < E , S_0 > { fn permute(self) -> Tile_1 < E , R_0 > { let _ = (); ::std::unreachable!() } }"
        ),
        "{text}"
    );
    assert!(
        text.ends_with(
            "pub fn permute < __T , Out >(source: __T) -> Out where __T: Permute < Out > { source.permute() }"
        ),
        "{text}"
    );
    assert_eq!(impls(&text).len(), 7);
    // A free element type, with or without an array beside it.
    let exti = |ret: Type| {
        op(
            "exti",
            vec![type_param("E"), type_param("F"), cga("S", "N")],
            vec![typed("source", tile("E", "S"))],
            Some(ret),
        )
    };
    for ret in [tile("F", "S"), name("F")] {
        let spec = RankPolyOpSpec::parse(&exti(ret), None, None).unwrap();
        assert!(spec.return_is_free());
        assert!(!spec.is_same_shape());
    }
    let spec = RankPolyOpSpec::parse(&exti(tile("bool", "S")), None, None).unwrap();
    assert!(!spec.return_is_free());
}

#[test]
fn operations_without_a_result() {
    let mut store = op(
        "store",
        vec![type_param("E"), cga("S", "N")],
        vec![
            typed("to", reference(None, true, ty("Tensor", vec![arg("E"), arg("S")]))),
            typed("value", tile("E", "S")),
            typed("idx", array_ty(name("i32"), var("N"))),
            typed("p", ty("PointerTile", vec![arg("i32"), block(Expr::Array(vec![]))])),
        ],
        None,
    );
    store.sig.is_unsafe = true;
    store.sig.generics.where_clause = Some(vec![s("E : Copy")]);
    let text = emit_shadow_dispatch(&store, Some(s("put")), Some(s("Put"))).unwrap();
    assert!(
        text.starts_with(
            "#[allow(non_camel_case_types)] pub trait Put < Sh0 , __td_arg0 > where E : Copy { unsafe fn put(self, value: Sh0, idx: __td_arg0, p: PointerTile_0 < i32 >) -> (); }\n"
        ),
        "{text}"
    );
    assert!(
        text.contains(
            "Put < Tile_1 < E , S_0 > , [i32 ; 1usize] > for & mut Tensor_1 < E , S_0 > where E : Copy { unsafe fn put(self, value: Tile_1 < E , S_0 >, idx: [i32 ; 1usize], p: PointerTile_0 < i32 >) -> () {"
        ),
        "{text}"
    );
    assert!(
        text.ends_with(
            "pub unsafe fn store < '__td_recv , __T , Sh0 , __td_arg0 >(to: & '__td_recv mut __T, value: Sh0, idx: __td_arg0, p: PointerTile_0 < i32 >) -> () where & '__td_recv mut __T: Put < Sh0 , __td_arg0 >, E : Copy { unsafe { to.put(value, idx, p) } }"
        ),
        "{text}"
    );
    assert_eq!(items(&text).len(), 9);
}

#[test]
fn dead_lifetimes_become_trait_lifetimes() {
    let shape = op(
        "shape_of",
        vec![
            GenericParam::Lifetime { ident: s("s"), rest: s("") },
            type_param("E"),
            cga("S", "N"),
        ],
        vec![typed("flag", name("bool")), typed("t", tile("E", "S"))],
        Some(ty("Shape", vec![GenericArgument::Lifetime(s("s")), arg("S")])),
    );
    let text = emit_shadow_dispatch(&shape, None, None).unwrap();
    assert!(
        text.starts_with(
            "#[allow(non_camel_case_types)] pub trait ShapeOf < '__td_lt0 > { type Out; fn shape_of(self, flag: bool) -> Self::Out; }\n"
        ),
        "{text}"
    );
    assert!(
        text.contains(
            "impl < '__td_lt0 , E , const S_0: i32 > ShapeOf < '__td_lt0 > for Tile_1 < E , S_0 > { type Out = Shape_1 < '__td_lt0 , S_0 >; "
        ),
        "{text}"
    );
    assert!(
        text.ends_with(
            "pub fn shape_of < '__td_lt0 , __T >(flag: bool, t: __T) -> < __T as ShapeOf < '__td_lt0 > >::Out where __T: ShapeOf < '__td_lt0 > { t.shape_of(flag) }"
        ),
        "{text}"
    );
    assert_eq!(items(&text).len(), 9);
}

#[test]
fn trait_generics_and_arguments_agree_in_number() {
    for item in [addf(), reshape()] {
        let text = emit_shadow_dispatch(&item, None, None).unwrap();
        let declared = items(&text)
            .iter()
            .find_map(|x| match x {
                syn::Item::Trait(t) => Some(t.generics.params.len()),
                _ => None,
            })
            .unwrap();
        for i in impls(&text) {
            let p = i.trait_.unwrap().1;
            match &p.segments.last().unwrap().arguments {
                syn::PathArguments::AngleBracketed(a) => assert_eq!(a.args.len(), declared),
                _ => panic!(),
            }
        }
    }
}

#[test]
fn operation_errors() {
    let e = emit_shadow_dispatch(&op("f", vec![], vec![], None), None, None).err().unwrap();
    assert_eq!(
        fault(e),
        (
            s("f"),
            s("shadow_dispatch: no `const X: [i32; N]` generic found (is this op rank-polymorphic?)")
        )
    );
    let mut item = addf();
    item.sig.inputs.insert(0, FnArg::Receiver(s("& self")));
    let e = emit_shadow_dispatch(&item, None, None).err().unwrap();
    assert_eq!(
        fault(e),
        (s("& self"), s("shadow_dispatch: free fns only (no `self` receiver)"))
    );
    let mut item = addf();
    item.sig.inputs.push(FnArg::Typed {
        pat: Pat { ident: None, source: s("(a , b)") },
        ty: name("i32"),
    });
    let e = emit_shadow_dispatch(&item, None, None).err().unwrap();
    assert_eq!(
        fault(e),
        (s("(a , b)"), s("shadow_dispatch: unsupported argument pattern"))
    );
    let item = op("f", vec![cga("S", "N")], vec![typed("x", name("i32"))], None);
    let e = emit_shadow_dispatch(&item, None, None).err().unwrap();
    assert_eq!(fault(e), (s("f"), s("shadow_dispatch: no shape-bearing argument found")));
}

fn attr(root: &str, source: &str) -> Attribute {
    Attribute { root: Some(s(root)), source: s(source) }
}

fn broadcast(ret: Type) -> ItemTrait {
    let mut params = generics(vec![type_param("E"), cga("D", "N")]);
    params.where_clause = Some(vec![s("Self : ElementType")]);
    ItemTrait {
        attrs: vec![
            attr("cuda_tile", "#[cuda_tile :: variadic_trait ()]"),
            attr("doc", "#[doc = \"d\"]"),
        ],
        vis: s("pub"),
        ident: s("BroadcastScalar"),
        generics: params,
        supertraits: s(""),
        items: vec![TraitItem::Fn {
            attrs: vec![],
            sig: Signature {
                qualifiers: s(""),
                is_unsafe: false,
                ident: s("broadcast"),
                generics: generics(vec![]),
                inputs: vec![FnArg::Receiver(s("self")), typed("shape", ty("Shape", vec![arg("D")]))],
                output: Some(ret),
            },
            body: s(";"),
        }],
    }
}

#[test]
fn a_variadic_trait_becomes_a_shadow_trait() {
    let text = desugar_variadic_trait_decl(&broadcast(tile("E", "D"))).unwrap();
    let got = syn::parse_str::<syn::ItemTrait>(&text).unwrap();
    let want = syn::parse_str::<syn::ItemTrait>(
        "#[doc = \"d\"] #[allow(non_camel_case_types)] pub trait BroadcastScalar<E, Sh0> where Self: ElementType { type Out; fn broadcast(self, shape: Sh0) -> Self::Out; }",
    )
    .unwrap();
    assert_eq!(got, want);
}

#[test]
fn a_free_array_makes_the_output_a_generic() {
    let mut item = broadcast(tile("E", "R"));
    item.generics.params.push(cga("R", "M"));
    item.supertraits = s("Copy");
    item.items.push(TraitItem::Verbatim(s("const K : i32 ;")));
    let text = desugar_variadic_trait_decl(&item).unwrap();
    let got = syn::parse_str::<syn::ItemTrait>(&text).unwrap();
    let want = syn::parse_str::<syn::ItemTrait>(
        "#[doc = \"d\"] #[allow(non_camel_case_types)] pub trait BroadcastScalar<E, Sh0, Out>: Copy where Self: ElementType { fn broadcast(self, shape: Sh0) -> Out; const K: i32; }",
    )
    .unwrap();
    assert_eq!(got, want);
}

#[test]
fn trait_errors() {
    let mut item = broadcast(name("i32"));
    item.generics.params.pop();
    let e = desugar_variadic_trait_decl(&item).err().unwrap();
    assert_eq!(
        fault(e),
        (
            s("BroadcastScalar"),
            s("variadic_trait: no `const X: [i32; N]` generic found (is this trait rank-polymorphic?)")
        )
    );
}

fn broadcast_impl(ret: Type) -> ItemImpl {
    ItemImpl {
        source: s("impl BroadcastScalar"),
        attrs: vec![attr("cuda_tile", "#[cuda_tile :: variadic_trait_impl ()]")],
        qualifiers: s(""),
        generics: generics(vec![bounded("E", " : ElementType"), cga("D", "N")]),
        trait_path: Some(path(vec![seg("BroadcastScalar", vec![arg("E"), arg("D")])])),
        self_ty: name("E"),
        items: vec![
            ImplItem::Fn(ImplItemFn {
                attrs: vec![attr("cuda_tile", "#[cuda_tile :: op ()]"), attr("inline", "#[inline]")],
                vis: s(""),
                variadic: false,
                sig: Signature {
                    qualifiers: s(""),
                    is_unsafe: false,
                    ident: s("broadcast"),
                    generics: generics(vec![]),
                    inputs: vec![
                        FnArg::Receiver(s("self")),
                        typed("shape", ty("Shape", vec![arg("D")])),
                    ],
                    output: Some(ret),
                },
                body: vec![],
            }),
            ImplItem::Const(s("const K : i32 = 0 ;")),
        ],
    }
}

#[test]
fn a_variadic_trait_impl_becomes_one_per_rank() {
    let text = desugar_variadic_trait_impl(&broadcast_impl(tile("E", "D"))).unwrap();
    let all = impls(&text);
    assert_eq!(all.len(), 7);
    let want = syn::parse_str::<syn::ItemImpl>(
        "impl<'__td_recv, E: ElementType, const D_0: i32, const D_1: i32> BroadcastScalar<E, Shape_2<'__td_recv, D_0, D_1>> for E { type Out = Tile_2<E, D_0, D_1>; #[inline] fn broadcast(self, shape: Shape_2<'__td_recv, D_0, D_1>) -> Tile_2<E, D_0, D_1> { let _ = (shape); ::std::unreachable!() } const K: i32 = 0; }",
    )
    .unwrap();
    assert_eq!(all[2], want);
}

#[test]
fn a_free_array_is_bound_by_the_trait_reference() {
    let mut item = broadcast_impl(tile("E", "R"));
    item.generics.params.push(cga("R", "M"));
    item.trait_path =
        Some(path(vec![seg("BroadcastScalar", vec![arg("E"), arg("D"), arg("R")])]));
    let text = desugar_variadic_trait_impl(&item).unwrap();
    assert_eq!(impls(&text).len(), 49);
    assert!(
        text.contains(
            "BroadcastScalar < E , Shape_1 < '__td_recv , D_0 > , Tile_0 < E > > for E { #[inline]"
        ),
        "{text}"
    );
}

#[test]
fn a_lifetime_is_declared_only_where_it_is_used() {
    let mut item = broadcast_impl(tile("E", "D"));
    match &mut item.items[0] {
        ImplItem::Fn(f) => f.sig.inputs[1] = typed("shape", tile("i32", "D")),
        _ => panic!(),
    }
    let text = desugar_variadic_trait_impl(&item).unwrap();
    assert!(!text.contains("__td_recv"), "{text}");
}

#[test]
fn trait_impl_errors() {
    let mut item = broadcast_impl(tile("E", "D"));
    item.generics.params.pop();
    let e = desugar_variadic_trait_impl(&item).err().unwrap();
    assert_eq!(
        fault(e),
        (
            s("impl BroadcastScalar"),
            s("variadic_trait_impl: no `const X: [i32; N]` generic found")
        )
    );
    let mut item = broadcast_impl(tile("E", "D"));
    item.trait_path = None;
    let e = desugar_variadic_trait_impl(&item).err().unwrap();
    assert_eq!(
        fault(e).1,
        "variadic_trait_impl: expected a trait impl (e.g. `impl T for X`)"
    );
    let mut item = broadcast_impl(name("E"));
    item.generics.params.push(cga("R", "M"));
    let e = desugar_variadic_trait_impl(&item).err().unwrap();
    assert!(fault(e).1.starts_with(
        "variadic_trait_impl: free CGAs detected but no method has a return type that uses them"
    ));
}

#[test]
fn own_attributes_are_dropped() {
    let kept = filter_cuda_tile_attrs(&vec![
        attr("cuda_tile", "#[cuda_tile :: x]"),
        attr("doc", "#[doc]"),
        Attribute { root: None, source: s("#[]") },
    ]);
    assert_eq!(kept, vec!["#[doc]", "#[]"]);
}

#[test]
fn trait_references_fit_the_shadow_trait() {
    let decl = desugar_variadic_trait_decl(&broadcast(tile("E", "D"))).unwrap();
    let declared = syn::parse_str::<syn::ItemTrait>(&decl).unwrap().generics.params.len();
    let text = desugar_variadic_trait_impl(&broadcast_impl(tile("E", "D"))).unwrap();
    for i in impls(&text) {
        match &i.trait_.unwrap().1.segments.last().unwrap().arguments {
            syn::PathArguments::AngleBracketed(a) => assert_eq!(a.args.len(), declared),
            _ => panic!(),
        }
    }
}

#[test]
fn literal_arrays_are_rewritten_once() {
    let inner = ty("Tile", vec![arg("E"), block(Expr::Array(vec![lit("1"), lit("2")]))]);
    let t = ty("Shape", vec![GenericArgument::Type(inner), block(Expr::Array(vec![lit("3")]))]);
    let once = rewrite_literal_cgas_only(&t);
    assert_eq!(print_type(&once), "Shape_1 < '_ , Tile_2 < E , 1 , 2 > , 3 >");
    assert_eq!(print_type(&rewrite_literal_cgas_only(&once)), print_type(&once));
}

#[test]
fn groups_come_in_order_of_appearance() {
    let arrays = vec![info("A", "Z"), info("B", "M"), info("C", "Z"), info("D", "A")];
    let lengths: Vec<String> =
        group_cgas_by_length(&arrays).into_iter().map(|g| g.length_ident).collect();
    assert_eq!(lengths, vec!["Z", "M", "A"]);
}

#[test]
fn no_arrays_give_no_combination_at_any_rank() {
    assert!(RankSpace::new(&vec![], usize::MAX).iter().is_empty());
}
