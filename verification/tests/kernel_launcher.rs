use cutile_macro::ast::{Expr, GenericArgument, Path, PathArguments, PathSegment, Stmt, Type};
use cutile_macro::error::Error;
use cutile_macro::kernel_launcher_generator::combinators::{kernel_arg_alias, zippable};
use cutile_macro::kernel_launcher_generator::generics::SupportedGenericType;
use cutile_macro::kernel_launcher_generator::launcher::{
    entry_fault, is_partition_name, KernelEntry, KernelNaming,
};
use cutile_macro::kernel_launcher_generator::{
    generate_kernel_launcher, generate_launcher_arg_types, infer_shape_params_from_tensor_type,
    join_as_cons_tuple, to_tuple_string, zip_and_then_flatten, zip_cons, KernelInputInfo,
    RequiredGenerics,
};
use cutile_macro::kernel_params::{KernelParam, KernelParamType};

fn s(t: &str) -> String {
    t.to_string()
}

fn strings(v: &[&str]) -> Vec<String> {
    v.iter().map(|x| x.to_string()).collect()
}

fn path(ident: &str) -> Path {
    Path {
        qself: None,
        leading_colon: false,
        segments: vec![PathSegment { ident: s(ident), arguments: PathArguments::Empty }],
    }
}

fn arg(ident: &str) -> GenericArgument {
    GenericArgument::Type(Type::Path(path(ident)))
}

fn var(ident: &str) -> Expr {
    Expr::Path(path(ident))
}

fn lit(t: &str) -> Expr {
    Expr::Lit(s(t))
}

fn block(stmts: Vec<Expr>) -> GenericArgument {
    let stmts = stmts.into_iter().map(|expr| Stmt::Expr { expr, semi: false }).collect();
    GenericArgument::Const(Expr::Block(stmts))
}

fn i32_ty() -> Type {
    Type::Path(path("i32"))
}

fn array_ty() -> Type {
    Type::Array { elem: Box::new(i32_ty()), len: Box::new(lit("2")) }
}

fn kernel_generics() -> Vec<(String, Option<Type>)> {
    vec![(s("T"), None), (s("N"), Some(i32_ty())), (s("S"), Some(array_ty()))]
}

fn tensor(name: &str, mutable: bool, generic_args: Vec<GenericArgument>) -> KernelParam {
    KernelParam {
        name: s(name),
        ty: KernelParamType::Reference {
            source: if mutable { s("& mut Tensor") } else { s("& Tensor") },
            mutable,
            ident: Some(s("Tensor")),
            generic_args,
        },
    }
}

fn scalar(name: &str, ty: &str, is_integer: bool) -> KernelParam {
    KernelParam {
        name: s(name),
        ty: KernelParamType::Path { source: s(ty), name: s(ty), is_integer },
    }
}

fn pointer(name: &str, target: Option<(bool, String)>) -> KernelParam {
    KernelParam { name: s(name), ty: KernelParamType::Ptr { source: s("* mut T"), target } }
}

fn entry(is_unsafe: bool, params: Vec<KernelParam>) -> KernelEntry {
    KernelEntry { is_unsafe, params, generics: kernel_generics() }
}

fn launch(
    item: KernelEntry,
) -> Result<(RequiredGenerics, (String, String), String, KernelInputInfo), Error> {
    let naming = KernelNaming { apply_name: s("add_apply"), public_name: s("add") };
    generate_kernel_launcher(item, "my_module", "add", "add_entry", "Add", "AddArgs", &naming)
}

fn fault(e: Error) -> (String, String) {
    match e {
        Error::Syn(d) => (d.at, d.message),
    }
}

fn refused(item: KernelEntry) -> (String, String) {
    fault(launch(item).err().unwrap())
}

#[test]
fn nested_tuples() {
    assert_eq!(join_as_cons_tuple(&strings(&[])), "()");
    assert_eq!(join_as_cons_tuple(&strings(&["a"])), "a");
    assert_eq!(join_as_cons_tuple(&strings(&["a", "b"])), "(a, b)");
    assert_eq!(join_as_cons_tuple(&strings(&["a", "b", "c"])), "(a, (b, c))");
}

#[test]
fn flat_tuples() {
    assert_eq!(to_tuple_string(&strings(&["x", "y", "z"])), "(x, y, z,)");
    assert_eq!(to_tuple_string(&strings(&["x"])), "(x,)");
    assert_eq!(to_tuple_string(&strings(&[])), "()");
}

#[test]
fn zips_bind_from_the_last() {
    assert_eq!(zippable("x", true), "value(x)");
    assert_eq!(zippable("x", false), "x");
    assert_eq!(
        zip_cons(&strings(&["a", "b", "c"]), "input", false),
        vec!["let input = c;", "let input = zip!(b, input);", "let input = zip!(a, input);"]
    );
    assert_eq!(
        zip_cons(&strings(&["a", "b"]), "v", true),
        vec!["let v = value(b);", "let v = zip!(value(a), v);"]
    );
    assert!(zip_cons(&strings(&[]), "v", true).is_empty());
}

#[test]
fn zips_are_flattened() {
    assert_eq!(
        zip_and_then_flatten(&strings(&["a", "b", "c"]), "input", false),
        vec![
            "let input = c;",
            "let input = zip!(b, input);",
            "let input = zip!(a, input);",
            "let input = input.then(|(a, (b, c))| { value((a, b, c,)) });",
        ]
    );
    assert_eq!(zip_and_then_flatten(&strings(&[]), "v", false), vec!["let v = value(());"]);
    for n in 1..6 {
        let names: Vec<String> = (0..n).map(|i| format!("x{i}")).collect();
        let stmts = zip_and_then_flatten(&names, "v", true);
        assert_eq!(stmts.len(), n + 1);
        for stmt in stmts {
            syn::parse_str::<syn::Stmt>(&stmt).unwrap();
        }
    }
}

#[test]
fn alias_names() {
    assert_eq!(kernel_arg_alias("AddLauncher", 12), "AddLauncherArg12");
    assert_eq!(
        generate_launcher_arg_types(&strings(&["T", "N"]), &strings(&["A", "B"]), "Foo", "FooArgs"),
        (s("FooArgs < T , N >"), s("type FooArgs < T , N > = (A, B,);"))
    );
    assert_eq!(
        generate_launcher_arg_types(&strings(&[]), &strings(&[]), "Foo", "FooArgs"),
        (s("FooArgs"), s("type FooArgs = ();"))
    );
}

#[test]
fn generics_are_classified() {
    let g = RequiredGenerics::new(kernel_generics());
    assert!(!g.is_empty());
    assert!(RequiredGenerics::new(vec![]).is_empty());
    assert_eq!(g.get_ty("T"), SupportedGenericType::TypeParam);
    assert_eq!(g.get_ty("N"), SupportedGenericType::ConstScalar);
    assert_eq!(g.get_ty("S"), SupportedGenericType::ConstArray);
    assert_eq!(g.get_ty("f32"), SupportedGenericType::Unknown);
    assert!(g.is_required("T"));
    assert!(g.is_required("f32"));
    assert!(g.get_generic_args().is_empty());
    assert_eq!(
        g.to_expr_str(),
        "panic!(\"Failed to infer value for generic parameter T\")"
    );
}

#[test]
fn generics_are_inferred_from_a_tensor() {
    let mut g = RequiredGenerics::new(kernel_generics());
    let args = vec![arg("T"), arg("S")];
    assert!(infer_shape_params_from_tensor_type("x", &args, &mut g, false).is_ok());
    assert!(!g.is_required("T"));
    assert!(!g.is_required("S"));
    assert!(g.is_required("N"));
    assert_eq!(g.get_generic_args(), vec!["T"]);
    assert_eq!(g.get_required_generics(), vec!["T: Send + DType"]);
    assert_eq!(
        g.to_expr_str(),
        "panic!(\"Failed to infer value for generic parameter N\")"
    );
    let args = vec![arg("f32"), block(vec![Expr::Array(vec![lit("128"), var("N")])])];
    assert!(infer_shape_params_from_tensor_type("y", &args, &mut g, true).is_ok());
    assert_eq!(
        g.to_expr_str(),
        "vec![vec![x.dtype().as_str().to_string()],vec![KernelOutputStored::partition_shape_as_i32(&y)[1].to_string()],x.shape().iter().map(|x| x.to_string()).collect::<Vec<String>>()].concat()"
    );
    syn::parse_str::<syn::Expr>(&g.to_expr_str()).unwrap();
}

#[test]
fn partitions_and_tensors_give_different_shapes() {
    let mut g = RequiredGenerics::new(vec![(s("S"), Some(array_ty()))]);
    let args = vec![arg("f32"), arg("S")];
    assert!(infer_shape_params_from_tensor_type("x", &args, &mut g, true).is_ok());
    assert_eq!(
        g.to_expr_str(),
        "vec![KernelOutputStored::partition_shape_as_i32(&x).iter().map(|x| x.to_string()).collect::<Vec<String>>()].concat()"
    );
    let mut g = RequiredGenerics::new(vec![(s("N"), Some(i32_ty()))]);
    let args = vec![
        arg("f32"),
        block(vec![Expr::Array(vec![
            var("N"),
            Expr::Unary { op: s("-"), operand: Box::new(lit("1")) },
            var("M"),
        ])]),
    ];
    assert!(infer_shape_params_from_tensor_type("x", &args, &mut g, false).is_ok());
    assert_eq!(g.to_expr_str(), "vec![vec![x.shape()[0].to_string()]].concat()");
}

fn inference_fault(arg: GenericArgument) -> (String, String) {
    let mut g = RequiredGenerics::new(kernel_generics());
    fault(infer_shape_params_from_tensor_type("x", &vec![arg], &mut g, false).err().unwrap())
}

#[test]
fn inference_errors() {
    assert_eq!(
        inference_fault(arg("N")),
        (s("N"), s("Unexpected constant scalar type in tensor generic argument."))
    );
    assert_eq!(
        inference_fault(block(vec![Expr::Array(vec![var("T")])])),
        (s("T"), s("Unexpected type param in array type expression."))
    );
    assert_eq!(
        inference_fault(block(vec![Expr::Array(vec![var("S")])])),
        (s("S"), s("Unexpected const generic array param in array type expression."))
    );
    assert_eq!(
        inference_fault(block(vec![Expr::Array(vec![Expr::Array(vec![])])])),
        (s("[]"), s("Unsupported array element in tensor shape expression."))
    );
    assert_eq!(
        inference_fault(block(vec![])),
        (s("{ }"), s("Expected exactly 1 statement in block expression, got 0."))
    );
    assert_eq!(
        inference_fault(block(vec![var("x"), var("y")])).1,
        "Expected exactly 1 statement in block expression, got 2."
    );
    assert_eq!(
        inference_fault(block(vec![Expr::Repeat {
            elem: Box::new(lit("1")),
            len: Box::new(lit("2")),
        }])),
        (s("[1 ; 2]"), s("Repeat expressions in tensor shape are not yet supported."))
    );
    assert_eq!(
        inference_fault(block(vec![var("x")])),
        (s("{ x }"), s("Unexpected block expression in tensor const generic argument."))
    );
    assert_eq!(
        inference_fault(GenericArgument::Const(Expr::Block(vec![Stmt::Composite(vec![])]))).1,
        "Unexpected block expression: expected an expression statement."
    );
}

#[test]
fn parameter_errors() {
    let odd = |ident: Option<&str>, generic_args: Vec<GenericArgument>| {
        entry(
            false,
            vec![KernelParam {
                name: s("x"),
                ty: KernelParamType::Reference {
                    source: s("& X"),
                    mutable: false,
                    ident: ident.map(s),
                    generic_args,
                },
            }],
        )
    };
    assert_eq!(
        refused(odd(None, vec![])),
        (s("& X"), s("Expected a named type identifier for tensor parameter."))
    );
    assert_eq!(
        refused(odd(Some("X"), vec![])),
        (s("& X"), s("Expected Tensor type, got X."))
    );
    for args in [vec![], vec![GenericArgument::Lifetime(s("a"))]] {
        assert_eq!(
            refused(odd(Some("Tensor"), args)),
            (s("& X"), s("Expected generic argument type path for tensor element type."))
        );
    }
    assert_eq!(
        refused(odd(Some("Tensor"), vec![arg("T"), arg("N")])).1,
        "Unexpected constant scalar type in tensor generic argument."
    );
    assert_eq!(
        refused(entry(false, vec![pointer("p", Some((true, s("T"))))])).1,
        "Pointers can only be used in unsafe kernel entry points."
    );
    assert_eq!(
        refused(entry(true, vec![pointer("p", None)])).1,
        "Unexpected pointer type: * mut T"
    );
    assert_eq!(
        refused(entry(true, vec![pointer("p", Some((false, s("T"))))])).1,
        "Pointers must be * mut."
    );
    assert_eq!(
        refused(entry(
            false,
            vec![KernelParam { name: s("x"), ty: KernelParamType::Other { source: s("()") } }]
        )),
        (s("()"), s("Unable to generate launcher: unsupported parameter type."))
    );
}

#[test]
fn a_faulty_kernel_is_refused_before_its_names_matter() {
    let faulty = || {
        entry(
            false,
            vec![scalar("x", "MyPartition", false), pointer("p", Some((true, s("T"))))],
        )
    };
    let want = (s("* mut T"), s("Pointers can only be used in unsafe kernel entry points."));
    assert_eq!(fault(entry_fault(&faulty()).unwrap()), want);
    assert_eq!(refused(faulty()), want);
    assert!(entry_fault(&saxpy()).is_none());
}

fn saxpy() -> KernelEntry {
    entry(
        false,
        vec![
            tensor("out", true, vec![arg("T"), arg("S")]),
            tensor("x", false, vec![arg("T"), block(vec![Expr::Array(vec![var("N")])])]),
            scalar("n", "i32", true),
            scalar("a", "f32", false),
        ],
    )
}

#[test]
fn a_launcher_is_generated() {
    let (generics, (stored, returned), source, info) = launch(saxpy()).unwrap();
    assert_eq!(generics.get_generic_args(), vec!["T"]);
    assert_eq!(
        stored,
        "(<_P0 as KernelOutput<T>>::Stored, <_K0 as KernelInput<T>>::Stored, i32, f32,)"
    );
    assert_eq!(
        returned,
        "(<_P0 as KernelOutput<T>>::Returned, <_K0 as KernelInput<T>>::Returned, i32, f32,)"
    );
    assert_eq!(info.type_param_names, vec!["_K0"]);
    assert_eq!(info.element_type_names, vec!["T"]);
    assert_eq!(info.param_kernel_input_idx, vec![None, Some(0), None, None]);
    assert_eq!(info.ko_type_param_names, vec!["_P0"]);
    assert_eq!(info.ko_element_type_names, vec!["T"]);
    assert_eq!(info.param_kernel_output_idx, vec![Some(0), None, None, None]);
    assert_eq!(
        info.recovered_tuple_str,
        "(<_P0 as KernelOutput<T>>::recover(out), <_K0 as KernelInput<T>>::recover(x), n, a,)"
    );
    let file = syn::parse_file(&source).unwrap();
    assert_eq!(file.items.len(), 4);
    // The struct's impls.
    assert!(source.starts_with(
        "impl < T: Send + DType , _K0: KernelInput<T> , _P0: KernelOutput<T> , DI: DeviceOp<Output=(<_P0 as KernelOutput<T>>::Stored, <_K0 as KernelInput<T>>::Stored, i32, f32,)> > DeviceOp for Add < T , _K0 , _P0 , DI > { type Output = (<_P0 as KernelOutput<T>>::Returned, <_K0 as KernelInput<T>>::Returned, i32, f32,); unsafe fn execute("
    ), "{source}");
    for part in [
        "let module_name = \"my_module\"; let function_name = \"add\"; let function_entry = \"add_entry\"; let input = self.input.take().unwrap(); let (out, x, n, a,): ",
        "if self.function_generics.is_some() { self.function_generics.take().unwrap() } else { vec![vec![x.dtype().as_str().to_string()],vec![x.shape()[0].to_string()],KernelOutputStored::partition_shape_as_i32(&out).iter().map(|x| x.to_string()).collect::<Vec<String>>()].concat() };",
        "let stride_args: Vec<(String, Vec<i32>)> = vec![(\"out\".to_string(), KernelOutputStored::strides_hint(&out)),(\"x\".to_string(), x.spec().stride_one.iter().map(|&is_one| if is_one { 1 } else { -1 }).collect::<Vec<i32>>())];",
        "let spec_args = vec![(\"out\".to_string(), KernelOutputStored::spec(&out).clone()),(\"x\".to_string(), x.spec().clone())];",
        "vec![(\"n\".to_string(), cutile_compiler::specialization::DivHint::from_value(n as i32))];",
        "let ValidParamType::Tensor(tensor_validator) = &validator.params[0usize] else",
        "\"{} partition shape mismatch. Expected {:?}, got {:?}\", \"out\", valid_shape, given_shape",
        "\"{} partition shape mismatch. Expected {:?}, got {:?}\", \"x\", valid_shape_mixed, given_shape",
        "KernelOutputStored::push_kernel_args(&out, &mut kernel_launch); KernelInputStored::push_kernel_args(&x, &mut kernel_launch); kernel_launch.push_arg(n); kernel_launch.push_arg(a);",
        "self.infer_launch_grid(&[KernelOutputStored::grid(&out)?])?;",
        "return Ok((<_P0 as KernelOutput<T>>::recover(out), <_K0 as KernelInput<T>>::recover(x), n, a,)); } }",
        "GraphNode for Add < T , _K0 , _P0 , DI > {}\n",
    ] {
        assert!(source.contains(part), "{part}\n{source}");
    }
    // The function that takes a tuple.
    assert!(source.contains(
        "\npub fn add_apply < T: Send + DType >(input: (tensor::Partition<tensor::Tensor<T>>, Arc<tensor::Tensor<T>>, i32, f32,)) -> Add < T , Arc<tensor::Tensor<T>> , tensor::Partition<tensor::Tensor<T>> , impl DeviceOp<Output=(tensor::Partition<tensor::Tensor<T>>, Arc<tensor::Tensor<T>>, i32, f32,)> > { return Add::launch(value(input)); }\n"
    ), "{source}");
    // The public launcher.
    assert!(source.ends_with(
        "pub fn add < T: Send + DType , _A0 , _Q0 , _A1 , _S1 , _A2 , _A3 >(arg0: _A0, arg1: _A1, arg2: _A2, arg3: _A3) -> Add < T , _S1 , _Q0 , impl DeviceOp<Output=(<_Q0 as KernelOutput<T>>::Stored, <_S1 as KernelInput<T>>::Stored, i32, f32,)> > where _A0: IntoDeviceOp<_Q0> , _Q0: KernelOutput<T> , _A1: IntoDeviceOp<_S1> , _S1: KernelInput<T> , _A2: IntoDeviceOp<i32> , _A3: IntoDeviceOp<f32> { let _di0 = arg0.into_op().map(KernelOutput::prepare); let _di1 = arg1.into_op().map(KernelInput::prepare); let _di2 = arg2.into_op(); let _di3 = arg3.into_op(); let input = _di3; let input = zip!(_di2, input); let input = zip!(_di1, input); let input = zip!(_di0, input); let input = input.then(|(_di0, (_di1, (_di2, _di3)))| { value((_di0, _di1, _di2, _di3,)) }); return Add::launch(input); }"
    ), "{source}");
}

#[test]
fn unsafe_kernels_take_pointers() {
    let item = entry(true, vec![pointer("p", Some((true, s("T"))))]);
    let (generics, (stored, _), source, info) = launch(item).unwrap();
    assert_eq!(stored, "(DevicePointer<T>,)");
    assert_eq!(generics.get_generic_args(), vec!["T"]);
    assert!(!generics.is_required("T"));
    assert_eq!(info.recovered_tuple_str, "(p,)");
    assert!(source.contains("unsafe { kernel_launch.push_device_ptr(p.cu_deviceptr()); }"));
    assert!(source.contains("pub unsafe fn add_apply"));
    assert!(source.contains("pub unsafe fn add <"));
    assert!(source.contains("panic!(\"Failed to infer value for generic parameter N\")"));
    syn::parse_file(&source).unwrap();
}

#[test]
fn a_kernel_without_parameters() {
    let item = KernelEntry { is_unsafe: false, params: vec![], generics: vec![] };
    let (_, (stored, returned), source, _) = launch(item).unwrap();
    assert_eq!((stored, returned), (s("()"), s("()")));
    assert!(source.contains("let function_generics: Vec<String> = vec![];"));
    assert!(source.contains("let input = value(()); return Add::launch(input);"));
    syn::parse_file(&source).unwrap();
}

#[test]
fn scalar_types_are_inferred_once() {
    let item = entry(
        false,
        vec![tensor("x", false, vec![arg("T"), arg("S")]), scalar("a", "T", false)],
    );
    let (generics, _, _, _) = launch(item).unwrap();
    assert_eq!(generics.get_generic_args(), vec!["T"]);
    assert!(generics.to_expr_str().contains("parameter N"));
    let item = KernelEntry {
        is_unsafe: false,
        params: vec![scalar("a", "T", false)],
        generics: vec![(s("T"), None)],
    };
    let (generics, _, _, _) = launch(item).unwrap();
    assert_eq!(
        generics.to_expr_str(),
        "vec![vec![T::DTYPE.as_str().to_string()]].concat()"
    );
}

#[test]
fn names_are_quoted() {
    let naming = KernelNaming { apply_name: s("k_apply"), public_name: s("k") };
    let item = KernelEntry { is_unsafe: false, params: vec![], generics: vec![] };
    let (_, _, source, _) =
        generate_kernel_launcher(item, "a\"b\\c", "k", "k", "K", "KArgs", &naming).unwrap();
    assert!(source.contains("let module_name = \"a\\\"b\\\\c\";"), "{source}");
}

#[test]
fn metadata_is_aligned_with_the_parameters() {
    let item = entry(
        false,
        vec![
            scalar("n", "i32", true),
            tensor("a", false, vec![arg("T"), arg("S")]),
            tensor("o", true, vec![arg("f16"), arg("S")]),
            tensor("b", false, vec![arg("f32"), arg("S")]),
            tensor("q", true, vec![arg("T"), arg("S")]),
        ],
    );
    let (_, _, source, info) = launch(item).unwrap();
    assert_eq!(info.type_param_names, vec!["_K0", "_K1"]);
    assert_eq!(info.element_type_names, vec!["T", "f32"]);
    assert_eq!(info.ko_type_param_names, vec!["_P0", "_P1"]);
    assert_eq!(info.ko_element_type_names, vec!["f16", "T"]);
    assert_eq!(info.param_kernel_input_idx, vec![None, Some(0), None, Some(1), None]);
    assert_eq!(info.param_kernel_output_idx, vec![None, None, Some(0), None, Some(1)]);
    syn::parse_file(&source).unwrap();
}

#[test]
fn names_that_pass_for_partitions() {
    for name in ["Partition", "MyPartitionOf", "xPartition"] {
        assert!(is_partition_name(name), "{name}");
    }
    for name in ["", "partition", "Part", "i32", "Partitio"] {
        assert!(!is_partition_name(name), "{name}");
    }
}
