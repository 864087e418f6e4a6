use cutile_macro::error::Error;
use cutile_macro::kernel_params::{KernelParam, KernelParamType};
use cutile_macro::validate_dsl_syntax::validate_entry_point_parameters;

fn s(t: &str) -> String {
    t.to_string()
}

fn param(name: &str, ty: KernelParamType) -> KernelParam {
    KernelParam { name: s(name), ty }
}

fn reference(source: &str, mutable: bool, ident: Option<&str>) -> KernelParamType {
    KernelParamType::Reference {
        source: s(source),
        mutable,
        ident: ident.map(s),
        generic_args: vec![],
    }
}

fn scalar(name: &str) -> KernelParamType {
    KernelParamType::Path { source: s(name), name: s(name), is_integer: false }
}

fn refused(params: Vec<KernelParam>) -> (String, String) {
    match validate_entry_point_parameters(&params, true).err().unwrap() {
        Error::Syn(d) => (d.at, d.message),
    }
}

fn accepted() -> Vec<KernelParam> {
    vec![
        param("a", reference("& Tensor", false, Some("Tensor"))),
        param("b", reference("& mut Tensor", true, Some("Tensor"))),
        param("c", scalar("f32")),
        param("d", KernelParamType::Ptr { source: s("* mut T"), target: Some((true, s("T"))) }),
    ]
}

#[test]
fn supported_parameters_are_accepted() {
    assert!(validate_entry_point_parameters(&accepted(), true).is_ok());
    let mut safe = accepted();
    safe.pop();
    assert!(validate_entry_point_parameters(&safe, false).is_ok());
    assert!(validate_entry_point_parameters(&vec![], false).is_ok());
}

#[test]
fn a_reference_must_be_to_a_tensor() {
    assert_eq!(
        refused(vec![param("x", reference("& [f32]", false, None))]),
        (s("& [f32]"), s("Not a supported parameter type."))
    );
    assert_eq!(
        refused(vec![param("x", reference("& Tile", false, Some("Tile")))]),
        (s("& Tile"), s("References to Tile as parameters are not supported."))
    );
}

#[test]
fn a_tensor_cannot_be_moved() {
    assert_eq!(
        refused(vec![param("x", scalar("Tensor"))]),
        (
            s("Tensor"),
            s("Tensors cannot be moved into kernel functions. Use &mut Tensor for partitioned tensors or &Tensor for tensor references.")
        )
    );
}

#[test]
fn a_pointer_must_be_supported() {
    assert_eq!(
        refused(vec![param(
            "x",
            KernelParamType::Ptr { source: s("* mut [T]"), target: None }
        )]),
        (s("* mut [T]"), s("* mut [T] is not a supported pointer type."))
    );
}

#[test]
fn a_pointer_needs_an_unsafe_kernel() {
    for target in [None, Some((true, s("f32"))), Some((false, s("f32")))] {
        let params =
            vec![param("p", KernelParamType::Ptr { source: s("* mut f32"), target })];
        match validate_entry_point_parameters(&params, false).err().unwrap() {
            Error::Syn(d) => assert_eq!(
                (d.at, d.message),
                (s("* mut f32"), s("Pointers can only be used in unsafe kernel entry points."))
            ),
        }
    }
}

#[test]
fn a_pointer_must_be_mut() {
    assert_eq!(
        refused(vec![param(
            "p",
            KernelParamType::Ptr { source: s("* const f32"), target: Some((false, s("f32"))) }
        )]),
        (s("* const f32"), s("Pointers must be * mut."))
    );
}

#[test]
fn other_types_are_refused() {
    assert_eq!(
        refused(vec![param("x", KernelParamType::Other { source: s("(i32 , i32)") })]),
        (s("(i32 , i32)"), s("(i32 , i32) is not a supported parameter type."))
    );
}

#[test]
fn one_fault_anywhere_refuses_all() {
    for at in 0..=4 {
        let mut params = accepted();
        params.insert(at, param("x", KernelParamType::Other { source: s("fn ()") }));
        assert_eq!(refused(params).0, "fn ()");
    }
    // The first fault is the one that is told.
    let mut params = accepted();
    params.push(param("x", scalar("Tensor")));
    params.push(param("y", KernelParamType::Other { source: s("fn ()") }));
    assert_eq!(refused(params).0, "Tensor");
}
