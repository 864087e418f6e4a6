//! The launcher of a kernel.
use super::combinators::{flatten_stmts, to_tuple_string, tuple_text, zip_and_then_flatten};
use super::generics::{
    args_are_named, launcher_param_texts, names_of, types_of, RequiredGenerics, RequiredGenericsS,
};
use super::tensors::{get_tensor_code, tensor_step, TensorLaunchCode, TensorLaunchCodeS};
use crate::ast::Type;
use crate::copy::clone_type;
use crate::error::{error_at, Error, ErrorS, SpannedError};
use crate::grammar::{quote_string, string_literal};
use crate::items::{generics_text, opt_type, print_generics, views};
use crate::kernel_params::{KernelParam, KernelParamS, KernelParamType, KernelParamTypeS};
use crate::print::{angle_text, print_angle};
use crate::text::{
    append_all, cat2, cat3, cat4, cat5, cat6, cat7, decimal, decimal_text, fill, filled, join,
    join_text, lemma_texts_push, opt_text, same, slots_s, texts, Text,
};
use vstd::prelude::*;

verus! {

// ---------------------------------------------------------------------------
// Parameters
// ---------------------------------------------------------------------------

/// What a launcher makes of a parameter: a tensor that is read, a tensor that is written, or
/// a value of some type.
#[derive(Debug)]
pub enum ArgClass {
    Input { elem: String },
    Output { elem: String },
    Plain { ty: String },
}

pub enum ArgClassS {
    Input { elem: Text },
    Output { elem: Text },
    Plain { ty: Text },
}

impl View for ArgClass {
    type V = ArgClassS;

    open spec fn view(&self) -> ArgClassS {
        match *self {
            ArgClass::Input { elem } => ArgClassS::Input { elem: elem@ },
            ArgClass::Output { elem } => ArgClassS::Output { elem: elem@ },
            ArgClass::Plain { ty } => ArgClassS::Plain { ty: ty@ },
        }
    }
}

/// The launcher code of a parameter.
#[derive(Debug)]
pub struct ParamCode {
    pub class: ArgClass,
    pub stride: Option<String>,
    pub spec: Option<String>,
    pub scalar_hint: Option<String>,
    pub builder: String,
    pub grid: Option<String>,
    pub validator: Option<String>,
}

pub struct ParamCodeS {
    pub class: ArgClassS,
    pub stride: Option<Text>,
    pub spec: Option<Text>,
    pub scalar_hint: Option<Text>,
    pub builder: Text,
    pub grid: Option<Text>,
    pub validator: Option<Text>,
}

impl View for ParamCode {
    type V = ParamCodeS;

    open spec fn view(&self) -> ParamCodeS {
        ParamCodeS {
            class: self.class@,
            stride: opt_text(self.stride),
            spec: opt_text(self.spec),
            scalar_hint: opt_text(self.scalar_hint),
            builder: self.builder@,
            grid: opt_text(self.grid),
            validator: opt_text(self.validator),
        }
    }
}

/// The generics after a parameter, and its code.
pub struct ParamStepS {
    pub generics: RequiredGenericsS,
    pub code: Result<ParamCodeS, ErrorS>,
}

pub open spec fn tensor_param(mutable: bool, t: TensorLaunchCodeS) -> ParamCodeS {
    ParamCodeS {
        class: if mutable {
            ArgClassS::Output { elem: t.element_type_name }
        } else {
            ArgClassS::Input { elem: t.element_type_name }
        },
        stride: Some(t.stride_expr_str),
        spec: Some(t.spec_expr_str),
        scalar_hint: None,
        builder: t.builder_statement,
        grid: t.launch_grid_expr_str,
        validator: Some(t.validator_statement),
    }
}

pub open spec fn plain_param(ty: Text, scalar_hint: Option<Text>, builder: Text) -> ParamCodeS {
    ParamCodeS {
        class: ArgClassS::Plain { ty },
        stride: None,
        spec: None,
        scalar_hint,
        builder,
        grid: None,
        validator: None,
    }
}

/// A type that nothing has been inferred for is inferred from its `DType`.
pub open spec fn infer_scalar(s: RequiredGenericsS, name: Text) -> RequiredGenericsS {
    if s.is_required(name) {
        s.require_type(name).infer(name, "vec!["@ + name + "::DTYPE.as_str().to_string()]"@)
    } else {
        s
    }
}

/// The divisibility hint of an integer scalar, computed at launch time.
pub open spec fn div_hint(var: Text) -> Text {
    "(\""@ + var + "\".to_string(), cutile_compiler::specialization::DivHint::from_value("@ + var
        + " as i32))"@
}

/// The parameter of index `i`. References must be to tensors; pointers need an unsafe kernel
/// and must be `*mut`; otherwise only named types are supported.
pub open spec fn param_step(s: RequiredGenericsS, i: nat, p: KernelParamS, is_unsafe: bool) -> ParamStepS {
    match p.ty {
        KernelParamTypeS::Reference { source, mutable, ident, generic_args } => {
            let t = tensor_step(s, i, p.name, source, mutable, ident, generic_args);
            ParamStepS {
                generics: t.generics,
                code: match t.code {
                    Err(e) => Err(e),
                    Ok(c) => Ok(tensor_param(mutable, c)),
                },
            }
        },
        KernelParamTypeS::Path { source: _, name, is_integer } => ParamStepS {
            generics: infer_scalar(s, name),
            code: Ok(
                plain_param(
                    name,
                    if is_integer { Some(div_hint(p.name)) } else { None },
                    "kernel_launch.push_arg("@ + p.name + ");"@,
                ),
            ),
        },
        KernelParamTypeS::Ptr { source, target } => if !is_unsafe {
            ParamStepS {
                generics: s,
                code: Err(
                    error_at(
                        source,
                        "Pointers can only be used in unsafe kernel entry points."@,
                    ),
                ),
            }
        } else {
            match target {
                None => ParamStepS {
                    generics: s,
                    code: Err(error_at(source, "Unexpected pointer type: "@ + source)),
                },
                Some((mutable, name)) => if !mutable {
                    ParamStepS {
                        generics: s,
                        code: Err(error_at(source, "Pointers must be * mut."@)),
                    }
                } else {
                    ParamStepS {
                        generics: infer_scalar(s, name),
                        code: Ok(
                            plain_param(
                                "DevicePointer<"@ + name + ">"@,
                                None,
                                "unsafe { kernel_launch.push_device_ptr("@ + p.name
                                    + ".cu_deviceptr()); }"@,
                            ),
                        ),
                    }
                },
            }
        },
        KernelParamTypeS::Other { source } => ParamStepS {
            generics: s,
            code: Err(
                error_at(source, "Unable to generate launcher: unsupported parameter type."@),
            ),
        },
    }
}

/// The generics after all parameters, and their code.
pub struct ParamsCodeS {
    pub generics: RequiredGenericsS,
    pub codes: Seq<ParamCodeS>,
}

/// The parameters from index `i` on, behind the code `done` of those before.
pub open spec fn params_code(
    s: RequiredGenericsS,
    params: Seq<KernelParamS>,
    is_unsafe: bool,
    done: Seq<ParamCodeS>,
    i: nat,
) -> Result<ParamsCodeS, ErrorS>
    decreases params.len() - i,
{
    if i >= params.len() {
        Ok(ParamsCodeS { generics: s, codes: done })
    } else {
        let step = param_step(s, i, params[i as int], is_unsafe);
        match step.code {
            Err(e) => Err(e),
            Ok(c) => params_code(step.generics, params, is_unsafe, done.push(c), i + 1),
        }
    }
}

/// Every path that inference looks at has a segment.
pub open spec fn param_is_named(p: KernelParamS) -> bool {
    p.ty matches KernelParamTypeS::Reference { generic_args, .. } ==> args_are_named(generic_args)
}

pub open spec fn params_are_named(params: Seq<KernelParamS>) -> bool {
    forall|i: int| 0 <= i < params.len() ==> param_is_named(#[trigger] params[i])
}

/// `needle` stands in `t` at index `i`.
pub open spec fn stands_at(t: Text, needle: Text, i: int) -> bool {
    0 <= i && i + needle.len() <= t.len() && t.subrange(i, i + needle.len()) == needle
}

/// A type name with `Partition` in it. It would pass for a partitioned tensor.
pub open spec fn looks_partitioned(name: Text) -> bool {
    exists|i: int| stands_at(name, "Partition"@, i)
}

/// No value that is not a tensor has a type that looks like a partitioned tensor.
pub open spec fn param_is_plain(p: KernelParamS) -> bool {
    match p.ty {
        KernelParamTypeS::Path { name, .. } => !looks_partitioned(name),
        KernelParamTypeS::Ptr { target: Some(t), .. } => !looks_partitioned(t.1),
        _ => true,
    }
}

pub open spec fn params_are_plain(params: Seq<KernelParamS>) -> bool {
    forall|i: int| 0 <= i < params.len() ==> param_is_plain(#[trigger] params[i])
}

/// Whether a type name has `Partition` in it.
pub fn is_partition_name(name: &str) -> (r: bool)
    ensures
        r == looks_partitioned(name@),
{
    let n: usize = name.unicode_len();
    let needle = "Partition";
    proof {
        reveal_strlit("Partition");
    }
    if n < 9 {
        return false;
    }
    let last: usize = n - 9;
    let mut i: usize = 0;
    while i <= last
        invariant
            i <= last + 1,
            last + 9 == n,
            n == name@.len(),
            needle@ == "Partition"@,
            needle@.len() == 9,
            forall|j: int| 0 <= j < i ==> !stands_at(name@, "Partition"@, j),
        decreases last + 1 - i,
    {
        if same(name.substring_char(i, i + 9), needle) {
            assert(stands_at(name@, "Partition"@, i as int));
            return true;
        }
        i = i + 1;
    }
    false
}

fn make_tensor_param(mutable: bool, t: TensorLaunchCode) -> (r: ParamCode)
    ensures
        r@ == tensor_param(mutable, t@),
{
    ParamCode {
        class: if mutable {
            ArgClass::Output { elem: t.element_type_name }
        } else {
            ArgClass::Input { elem: t.element_type_name }
        },
        stride: Some(t.stride_expr_str),
        spec: Some(t.spec_expr_str),
        scalar_hint: None,
        builder: t.builder_statement,
        grid: t.launch_grid_expr_str,
        validator: Some(t.validator_statement),
    }
}

fn make_plain_param(ty: String, scalar_hint: Option<String>, builder: String) -> (r: ParamCode)
    ensures
        r@ == plain_param(ty@, opt_text(scalar_hint), builder@),
{
    ParamCode {
        class: ArgClass::Plain { ty },
        stride: None,
        spec: None,
        scalar_hint,
        builder,
        grid: None,
        validator: None,
    }
}

fn infer_scalar_type(required_generics: &mut RequiredGenerics, name: &str)
    ensures
        final(required_generics)@ == infer_scalar(old(required_generics)@, name@),
{
    if required_generics.is_required(name) {
        required_generics.require_type(name);
        let e = cat3("vec![", name, "::DTYPE.as_str().to_string()]");
        required_generics.infer(name, e);
    }
}

fn code_param(required_generics: &mut RequiredGenerics, i: usize, p: &KernelParam, is_unsafe: bool) -> (r:
    Result<ParamCode, Error>)
    requires
        param_is_named(p@),
    ensures
        ({
            let step = param_step(old(required_generics)@, i as nat, p@, is_unsafe);
            &&& final(required_generics)@ == step.generics
            &&& crate::error::agrees(r, step.code)
        }),
{
    match &p.ty {
        KernelParamType::Reference { source, mutable, ident, generic_args } => {
            match get_tensor_code(
                i,
                p.name.as_str(),
                source,
                *mutable,
                ident,
                generic_args,
                required_generics,
            ) {
                Ok(t) => Ok(make_tensor_param(*mutable, t)),
                Err(e) => Err(e),
            }
        },
        KernelParamType::Path { source: _, name, is_integer } => {
            infer_scalar_type(required_generics, name.as_str());
            let hint = if *is_integer {
                Some(
                    cat5(
                        "(\"",
                        p.name.as_str(),
                        "\".to_string(), cutile_compiler::specialization::DivHint::from_value(",
                        p.name.as_str(),
                        " as i32))",
                    ),
                )
            } else {
                None
            };
            let builder = cat3("kernel_launch.push_arg(", p.name.as_str(), ");");
            Ok(make_plain_param(name.clone(), hint, builder))
        },
        KernelParamType::Ptr { source, target } => {
            if !is_unsafe {
                return source.err("Pointers can only be used in unsafe kernel entry points.");
            }
            match target {
                None => {
                    let m = cat2("Unexpected pointer type: ", source.as_str());
                    source.err(m.as_str())
                },
                Some(t) => {
                    if !t.0 {
                        return source.err("Pointers must be * mut.");
                    }
                    infer_scalar_type(required_generics, t.1.as_str());
                    let ty = cat3("DevicePointer<", t.1.as_str(), ">");
                    let builder = cat3(
                        "unsafe { kernel_launch.push_device_ptr(",
                        p.name.as_str(),
                        ".cu_deviceptr()); }",
                    );
                    Ok(make_plain_param(ty, None, builder))
                },
            }
        },
        KernelParamType::Other { source } => source.err(
            "Unable to generate launcher: unsupported parameter type.",
        ),
    }
}

fn code_params(required_generics: &mut RequiredGenerics, params: &Vec<KernelParam>, is_unsafe: bool) -> (r:
    Result<Vec<ParamCode>, Error>)
    requires
        params_are_named(views(params@)),
    ensures
        match params_code(old(required_generics)@, views(params@), is_unsafe, seq![], 0) {
            Ok(c) => r matches Ok(v) && final(required_generics)@ == c.generics && views(v@)
                == c.codes && v@.len() == params@.len(),
            Err(x) => r matches Err(e) && e@ == x,
        },
{
    let ghost models = views(params@);
    let ghost whole = params_code(required_generics@, models, is_unsafe, seq![], 0);
    let mut codes: Vec<ParamCode> = Vec::new();
    let mut i: usize = 0;
    assert(views(codes@) =~= seq![]);
    while i < params.len()
        invariant
            i <= params@.len(),
            models == views(params@),
            params_are_named(models),
            codes@.len() == i,
            whole == params_code(old(required_generics)@, models, is_unsafe, seq![], 0),
            whole == params_code(
                required_generics@,
                models,
                is_unsafe,
                views(codes@),
                i as nat,
            ),
        decreases params@.len() - i,
    {
        assert(models[i as int] == params@[i as int]@);
        let ghost step = param_step(required_generics@, i as nat, models[i as int], is_unsafe);
        match code_param(required_generics, i, &params[i], is_unsafe) {
            Ok(c) => {
                let ghost prev = codes@;
                codes.push(c);
                assert(views(codes@) =~= views(prev).push(c@));
                assert(step.code == Ok::<ParamCodeS, ErrorS>(c@));
            },
            Err(e) => {
                return Err(e);
            },
        }
        i = i + 1;
    }
    Ok(codes)
}

// ---------------------------------------------------------------------------
// Arguments
// ---------------------------------------------------------------------------

/// How many of the first `k` arguments are tensors that are read.
pub open spec fn input_count(codes: Seq<ParamCodeS>, k: nat) -> nat
    decreases k,
{
    if k == 0 {
        0
    } else {
        input_count(codes, (k - 1) as nat) + if codes[k - 1].class is Input { 1nat } else { 0nat }
    }
}

/// How many of the first `k` arguments are tensors that are written.
pub open spec fn output_count(codes: Seq<ParamCodeS>, k: nat) -> nat
    decreases k,
{
    if k == 0 {
        0
    } else {
        output_count(codes, (k - 1) as nat) + if codes[k - 1].class is Output { 1nat } else { 0nat }
    }
}

/// An argument of a launcher: the tensors that are read, and those that are written, are
/// numbered in order.
#[derive(Debug)]
pub enum LaunchArg {
    Input { index: usize, elem: String },
    Output { index: usize, elem: String },
    Plain { ty: String },
}

pub enum LaunchArgS {
    Input { index: nat, elem: Text },
    Output { index: nat, elem: Text },
    Plain { ty: Text },
}

impl View for LaunchArg {
    type V = LaunchArgS;

    open spec fn view(&self) -> LaunchArgS {
        match *self {
            LaunchArg::Input { index, elem } => LaunchArgS::Input {
                index: index as nat,
                elem: elem@,
            },
            LaunchArg::Output { index, elem } => LaunchArgS::Output {
                index: index as nat,
                elem: elem@,
            },
            LaunchArg::Plain { ty } => LaunchArgS::Plain { ty: ty@ },
        }
    }
}

pub open spec fn launch_arg(codes: Seq<ParamCodeS>, i: int) -> LaunchArgS {
    match codes[i].class {
        ArgClassS::Input { elem } => LaunchArgS::Input {
            index: input_count(codes, i as nat),
            elem,
        },
        ArgClassS::Output { elem } => LaunchArgS::Output {
            index: output_count(codes, i as nat),
            elem,
        },
        ArgClassS::Plain { ty } => LaunchArgS::Plain { ty },
    }
}

pub open spec fn launch_args(codes: Seq<ParamCodeS>) -> Seq<LaunchArgS> {
    Seq::new(codes.len(), |i: int| launch_arg(codes, i))
}

fn number_args(codes: &Vec<ParamCode>) -> (r: Vec<LaunchArg>)
    ensures
        views(r@) == launch_args(views(codes@)),
        r@.len() == codes@.len(),
{
    let ghost models = views(codes@);
    let mut out: Vec<LaunchArg> = Vec::new();
    let mut inputs: usize = 0;
    let mut outputs: usize = 0;
    let mut i: usize = 0;
    while i < codes.len()
        invariant
            i <= codes@.len(),
            models == views(codes@),
            inputs <= i,
            outputs <= i,
            inputs == input_count(models, i as nat),
            outputs == output_count(models, i as nat),
            out@.len() == i,
            forall|j: int| 0 <= j < i ==> (#[trigger] out@[j])@ == launch_arg(models, j),
        decreases codes@.len() - i,
    {
        assert(models[i as int] == codes@[i as int]@);
        match &codes[i].class {
            ArgClass::Input { elem } => {
                out.push(LaunchArg::Input { index: inputs, elem: elem.clone() });
                inputs = inputs + 1;
            },
            ArgClass::Output { elem } => {
                out.push(LaunchArg::Output { index: outputs, elem: elem.clone() });
                outputs = outputs + 1;
            },
            ArgClass::Plain { ty } => {
                out.push(LaunchArg::Plain { ty: ty.clone() });
            },
        }
        i = i + 1;
    }
    assert(views(out@) =~= launch_args(models));
    out
}

/// A letter and a number, such as `_K0`.
pub open spec fn numbered(letter: Text, i: nat) -> Text {
    letter + decimal_text(i)
}

fn number(letter: &str, i: usize) -> (r: String)
    ensures
        r@ == numbered(letter@, i as nat),
{
    let d = decimal(i);
    cat2(letter, d.as_str())
}

/// `<ty as trait_name<elem>>::member`.
pub open spec fn projection(ty: Text, trait_name: Text, elem: Text, member: Text) -> Text {
    "<"@ + ty + " as "@ + trait_name + "<"@ + elem + ">>::"@ + member
}

fn project(ty: &str, trait_name: &str, elem: &str, member: &str) -> (r: String)
    ensures
        r@ == projection(ty@, trait_name@, elem@, member@),
{
    let head = cat6("<", ty, " as ", trait_name, "<", elem);
    cat3(head.as_str(), ">>::", member)
}

/// The type that a launcher takes for an argument.
pub open spec fn concrete_type(a: LaunchArgS) -> Text {
    match a {
        LaunchArgS::Input { elem, .. } => "Arc<tensor::Tensor<"@ + elem + ">>"@,
        LaunchArgS::Output { elem, .. } => "tensor::Partition<tensor::Tensor<"@ + elem + ">>"@,
        LaunchArgS::Plain { ty } => ty,
    }
}

/// A member of the trait that a tensor argument goes through, for the type parameter of the
/// launcher struct; any other argument keeps its type.
pub open spec fn member_type(a: LaunchArgS, member: Text) -> Text {
    match a {
        LaunchArgS::Input { index, elem } => projection(
            numbered("_K"@, index),
            "KernelInput"@,
            elem,
            member,
        ),
        LaunchArgS::Output { index, elem } => projection(
            numbered("_P"@, index),
            "KernelOutput"@,
            elem,
            member,
        ),
        LaunchArgS::Plain { ty } => ty,
    }
}

/// The same for the type parameters of the public launcher.
pub open spec fn stored_type(a: LaunchArgS, i: nat) -> Text {
    match a {
        LaunchArgS::Input { elem, .. } => projection(
            numbered("_S"@, i),
            "KernelInput"@,
            elem,
            "Stored"@,
        ),
        LaunchArgS::Output { elem, .. } => projection(
            numbered("_Q"@, i),
            "KernelOutput"@,
            elem,
            "Stored"@,
        ),
        LaunchArgS::Plain { ty } => ty,
    }
}

/// An argument as it is returned: a tensor is recovered in the form in which it came.
pub open spec fn recovered(a: LaunchArgS, name: Text) -> Text {
    match a {
        LaunchArgS::Plain { .. } => name,
        _ => member_type(a, "recover"@) + "("@ + name + ")"@,
    }
}

/// The number of a tensor that is read.
pub open spec fn input_index(a: LaunchArgS) -> Option<nat> {
    match a {
        LaunchArgS::Input { index, .. } => Some(index),
        _ => None,
    }
}

/// The number of a tensor that is written.
pub open spec fn output_index(a: LaunchArgS) -> Option<nat> {
    match a {
        LaunchArgS::Output { index, .. } => Some(index),
        _ => None,
    }
}

fn print_concrete(a: &LaunchArg) -> (r: String)
    ensures
        r@ == concrete_type(a@),
{
    match a {
        LaunchArg::Input { index: _, elem } => cat3("Arc<tensor::Tensor<", elem.as_str(), ">>"),
        LaunchArg::Output { index: _, elem } => cat3(
            "tensor::Partition<tensor::Tensor<",
            elem.as_str(),
            ">>",
        ),
        LaunchArg::Plain { ty } => ty.clone(),
    }
}

fn print_member(a: &LaunchArg, member: &str) -> (r: String)
    ensures
        r@ == member_type(a@, member@),
{
    match a {
        LaunchArg::Input { index, elem } => {
            let k = number("_K", *index);
            project(k.as_str(), "KernelInput", elem.as_str(), member)
        },
        LaunchArg::Output { index, elem } => {
            let k = number("_P", *index);
            project(k.as_str(), "KernelOutput", elem.as_str(), member)
        },
        LaunchArg::Plain { ty } => ty.clone(),
    }
}

fn print_stored(a: &LaunchArg, i: usize) -> (r: String)
    ensures
        r@ == stored_type(a@, i as nat),
{
    match a {
        LaunchArg::Input { index: _, elem } => {
            let k = number("_S", i);
            project(k.as_str(), "KernelInput", elem.as_str(), "Stored")
        },
        LaunchArg::Output { index: _, elem } => {
            let k = number("_Q", i);
            project(k.as_str(), "KernelOutput", elem.as_str(), "Stored")
        },
        LaunchArg::Plain { ty } => ty.clone(),
    }
}

fn print_recovered(a: &LaunchArg, name: &str) -> (r: String)
    ensures
        r@ == recovered(a@, name@),
{
    match a {
        LaunchArg::Plain { .. } => name.to_owned(),
        _ => {
            let m = print_member(a, "recover");
            cat4(m.as_str(), "(", name, ")")
        },
    }
}

/// The type parameter of the launcher struct for a tensor that is read.
pub open spec fn input_param(a: LaunchArgS) -> Option<Text> {
    match a {
        LaunchArgS::Input { index, .. } => Some(numbered("_K"@, index)),
        _ => None,
    }
}

pub open spec fn input_params(args: Seq<LaunchArgS>) -> Seq<Text> {
    filled(Seq::new(args.len(), |i: int| input_param(args[i])), args.len())
}

fn make_input_param(a: &LaunchArg) -> (r: Option<String>)
    ensures
        opt_text(r) == input_param(a@),
{
    match a {
        LaunchArg::Input { index, elem: _ } => Some(number("_K", *index)),
        _ => None,
    }
}

fn make_input_params(args: &Vec<LaunchArg>) -> (r: Vec<String>)
    ensures
        texts(r@) == input_params(views(args@)),
{
    let mut slots: Vec<Option<String>> = Vec::new();
    let mut i: usize = 0;
    while i < args.len()
        invariant
            i <= args@.len(),
            slots@.len() == i,
            forall|j: int| 0 <= j < i ==> opt_text(#[trigger] slots@[j]) == input_param(args@[j]@),
        decreases args@.len() - i,
    {
        slots.push(make_input_param(&args[i]));
        i = i + 1;
    }
    assert(slots_s(slots@) =~= Seq::new(
        views(args@).len(),
        |i: int| input_param(views(args@)[i]),
    ));
    fill(&slots)
}

/// The type parameter of the launcher struct for a tensor that is written.
pub open spec fn output_param(a: LaunchArgS) -> Option<Text> {
    match a {
        LaunchArgS::Output { index, .. } => Some(numbered("_P"@, index)),
        _ => None,
    }
}

pub open spec fn output_params(args: Seq<LaunchArgS>) -> Seq<Text> {
    filled(Seq::new(args.len(), |i: int| output_param(args[i])), args.len())
}

fn make_output_param(a: &LaunchArg) -> (r: Option<String>)
    ensures
        opt_text(r) == output_param(a@),
{
    match a {
        LaunchArg::Output { index, elem: _ } => Some(number("_P", *index)),
        _ => None,
    }
}

fn make_output_params(args: &Vec<LaunchArg>) -> (r: Vec<String>)
    ensures
        texts(r@) == output_params(views(args@)),
{
    let mut slots: Vec<Option<String>> = Vec::new();
    let mut i: usize = 0;
    while i < args.len()
        invariant
            i <= args@.len(),
            slots@.len() == i,
            forall|j: int| 0 <= j < i ==> opt_text(#[trigger] slots@[j]) == output_param(args@[j]@),
        decreases args@.len() - i,
    {
        slots.push(make_output_param(&args[i]));
        i = i + 1;
    }
    assert(slots_s(slots@) =~= Seq::new(
        views(args@).len(),
        |i: int| output_param(views(args@)[i]),
    ));
    fill(&slots)
}

/// The element type of a tensor that is read.
pub open spec fn input_elem(a: LaunchArgS) -> Option<Text> {
    match a {
        LaunchArgS::Input { elem, .. } => Some(elem),
        _ => None,
    }
}

pub open spec fn input_elems(args: Seq<LaunchArgS>) -> Seq<Text> {
    filled(Seq::new(args.len(), |i: int| input_elem(args[i])), args.len())
}

fn make_input_elem(a: &LaunchArg) -> (r: Option<String>)
    ensures
        opt_text(r) == input_elem(a@),
{
    match a {
        LaunchArg::Input { index: _, elem } => Some(elem.clone()),
        _ => None,
    }
}

fn make_input_elems(args: &Vec<LaunchArg>) -> (r: Vec<String>)
    ensures
        texts(r@) == input_elems(views(args@)),
{
    let mut slots: Vec<Option<String>> = Vec::new();
    let mut i: usize = 0;
    while i < args.len()
        invariant
            i <= args@.len(),
            slots@.len() == i,
            forall|j: int| 0 <= j < i ==> opt_text(#[trigger] slots@[j]) == input_elem(args@[j]@),
        decreases args@.len() - i,
    {
        slots.push(make_input_elem(&args[i]));
        i = i + 1;
    }
    assert(slots_s(slots@) =~= Seq::new(
        views(args@).len(),
        |i: int| input_elem(views(args@)[i]),
    ));
    fill(&slots)
}

/// The element type of a tensor that is written.
pub open spec fn output_elem(a: LaunchArgS) -> Option<Text> {
    match a {
        LaunchArgS::Output { elem, .. } => Some(elem),
        _ => None,
    }
}

pub open spec fn output_elems(args: Seq<LaunchArgS>) -> Seq<Text> {
    filled(Seq::new(args.len(), |i: int| output_elem(args[i])), args.len())
}

fn make_output_elem(a: &LaunchArg) -> (r: Option<String>)
    ensures
        opt_text(r) == output_elem(a@),
{
    match a {
        LaunchArg::Output { index: _, elem } => Some(elem.clone()),
        _ => None,
    }
}

fn make_output_elems(args: &Vec<LaunchArg>) -> (r: Vec<String>)
    ensures
        texts(r@) == output_elems(views(args@)),
{
    let mut slots: Vec<Option<String>> = Vec::new();
    let mut i: usize = 0;
    while i < args.len()
        invariant
            i <= args@.len(),
            slots@.len() == i,
            forall|j: int| 0 <= j < i ==> opt_text(#[trigger] slots@[j]) == output_elem(args@[j]@),
        decreases args@.len() - i,
    {
        slots.push(make_output_elem(&args[i]));
        i = i + 1;
    }
    assert(slots_s(slots@) =~= Seq::new(
        views(args@).len(),
        |i: int| output_elem(views(args@)[i]),
    ));
    fill(&slots)
}

/// The bound on the type parameter for a tensor that is read.
pub open spec fn input_bound(a: LaunchArgS) -> Option<Text> {
    match a {
        LaunchArgS::Input { index, elem } => Some(
            numbered("_K"@, index) + ": KernelInput<"@ + elem + ">"@,
        ),
        _ => None,
    }
}

pub open spec fn input_bounds(args: Seq<LaunchArgS>) -> Seq<Text> {
    filled(Seq::new(args.len(), |i: int| input_bound(args[i])), args.len())
}

fn make_input_bound(a: &LaunchArg) -> (r: Option<String>)
    ensures
        opt_text(r) == input_bound(a@),
{
    match a {
        LaunchArg::Input { index, elem } => {
            let k = number("_K", *index);
            Some(cat4(k.as_str(), ": KernelInput<", elem.as_str(), ">"))
        },
        _ => None,
    }
}

fn make_input_bounds(args: &Vec<LaunchArg>) -> (r: Vec<String>)
    ensures
        texts(r@) == input_bounds(views(args@)),
{
    let mut slots: Vec<Option<String>> = Vec::new();
    let mut i: usize = 0;
    while i < args.len()
        invariant
            i <= args@.len(),
            slots@.len() == i,
            forall|j: int| 0 <= j < i ==> opt_text(#[trigger] slots@[j]) == input_bound(args@[j]@),
        decreases args@.len() - i,
    {
        slots.push(make_input_bound(&args[i]));
        i = i + 1;
    }
    assert(slots_s(slots@) =~= Seq::new(
        views(args@).len(),
        |i: int| input_bound(views(args@)[i]),
    ));
    fill(&slots)
}

/// The bound on the type parameter for a tensor that is written.
pub open spec fn output_bound(a: LaunchArgS) -> Option<Text> {
    match a {
        LaunchArgS::Output { index, elem } => Some(
            numbered("_P"@, index) + ": KernelOutput<"@ + elem + ">"@,
        ),
        _ => None,
    }
}

pub open spec fn output_bounds(args: Seq<LaunchArgS>) -> Seq<Text> {
    filled(Seq::new(args.len(), |i: int| output_bound(args[i])), args.len())
}

fn make_output_bound(a: &LaunchArg) -> (r: Option<String>)
    ensures
        opt_text(r) == output_bound(a@),
{
    match a {
        LaunchArg::Output { index, elem } => {
            let k = number("_P", *index);
            Some(cat4(k.as_str(), ": KernelOutput<", elem.as_str(), ">"))
        },
        _ => None,
    }
}

fn make_output_bounds(args: &Vec<LaunchArg>) -> (r: Vec<String>)
    ensures
        texts(r@) == output_bounds(views(args@)),
{
    let mut slots: Vec<Option<String>> = Vec::new();
    let mut i: usize = 0;
    while i < args.len()
        invariant
            i <= args@.len(),
            slots@.len() == i,
            forall|j: int| 0 <= j < i ==> opt_text(#[trigger] slots@[j]) == output_bound(args@[j]@),
        decreases args@.len() - i,
    {
        slots.push(make_output_bound(&args[i]));
        i = i + 1;
    }
    assert(slots_s(slots@) =~= Seq::new(
        views(args@).len(),
        |i: int| output_bound(views(args@)[i]),
    ));
    fill(&slots)
}

/// The type of a tensor that is read.
pub open spec fn input_type(a: LaunchArgS) -> Option<Text> {
    match a {
        LaunchArgS::Input { .. } => Some(concrete_type(a)),
        _ => None,
    }
}

pub open spec fn input_types(args: Seq<LaunchArgS>) -> Seq<Text> {
    filled(Seq::new(args.len(), |i: int| input_type(args[i])), args.len())
}

fn make_input_type(a: &LaunchArg) -> (r: Option<String>)
    ensures
        opt_text(r) == input_type(a@),
{
    match a {
        LaunchArg::Input { .. } => Some(print_concrete(a)),
        _ => None,
    }
}

fn make_input_types(args: &Vec<LaunchArg>) -> (r: Vec<String>)
    ensures
        texts(r@) == input_types(views(args@)),
{
    let mut slots: Vec<Option<String>> = Vec::new();
    let mut i: usize = 0;
    while i < args.len()
        invariant
            i <= args@.len(),
            slots@.len() == i,
            forall|j: int| 0 <= j < i ==> opt_text(#[trigger] slots@[j]) == input_type(args@[j]@),
        decreases args@.len() - i,
    {
        slots.push(make_input_type(&args[i]));
        i = i + 1;
    }
    assert(slots_s(slots@) =~= Seq::new(
        views(args@).len(),
        |i: int| input_type(views(args@)[i]),
    ));
    fill(&slots)
}

/// The type of a tensor that is written.
pub open spec fn output_type(a: LaunchArgS) -> Option<Text> {
    match a {
        LaunchArgS::Output { .. } => Some(concrete_type(a)),
        _ => None,
    }
}

pub open spec fn output_types(args: Seq<LaunchArgS>) -> Seq<Text> {
    filled(Seq::new(args.len(), |i: int| output_type(args[i])), args.len())
}

fn make_output_type(a: &LaunchArg) -> (r: Option<String>)
    ensures
        opt_text(r) == output_type(a@),
{
    match a {
        LaunchArg::Output { .. } => Some(print_concrete(a)),
        _ => None,
    }
}

fn make_output_types(args: &Vec<LaunchArg>) -> (r: Vec<String>)
    ensures
        texts(r@) == output_types(views(args@)),
{
    let mut slots: Vec<Option<String>> = Vec::new();
    let mut i: usize = 0;
    while i < args.len()
        invariant
            i <= args@.len(),
            slots@.len() == i,
            forall|j: int| 0 <= j < i ==> opt_text(#[trigger] slots@[j]) == output_type(args@[j]@),
        decreases args@.len() - i,
    {
        slots.push(make_output_type(&args[i]));
        i = i + 1;
    }
    assert(slots_s(slots@) =~= Seq::new(
        views(args@).len(),
        |i: int| output_type(views(args@)[i]),
    ));
    fill(&slots)
}

/// The type parameter of the public launcher for what a tensor that is read is stored as.
pub open spec fn input_slot(a: LaunchArgS, i: nat) -> Option<Text> {
    match a {
        LaunchArgS::Input { .. } => Some(numbered("_S"@, i)),
        _ => None,
    }
}

pub open spec fn input_slots(args: Seq<LaunchArgS>) -> Seq<Text> {
    filled(Seq::new(args.len(), |i: int| input_slot(args[i], i as nat)), args.len())
}

fn make_input_slot(a: &LaunchArg, i: usize) -> (r: Option<String>)
    ensures
        opt_text(r) == input_slot(a@, i as nat),
{
    match a {
        LaunchArg::Input { .. } => Some(number("_S", i)),
        _ => None,
    }
}

fn make_input_slots(args: &Vec<LaunchArg>) -> (r: Vec<String>)
    ensures
        texts(r@) == input_slots(views(args@)),
{
    let mut slots: Vec<Option<String>> = Vec::new();
    let mut i: usize = 0;
    while i < args.len()
        invariant
            i <= args@.len(),
            slots@.len() == i,
            forall|j: int| 0 <= j < i ==> opt_text(#[trigger] slots@[j]) == input_slot(args@[j]@, j as nat),
        decreases args@.len() - i,
    {
        slots.push(make_input_slot(&args[i], i));
        i = i + 1;
    }
    assert(slots_s(slots@) =~= Seq::new(
        views(args@).len(),
        |i: int| input_slot(views(args@)[i], i as nat),
    ));
    fill(&slots)
}

/// The type parameter of the public launcher for what a tensor that is written is stored as.
pub open spec fn output_slot(a: LaunchArgS, i: nat) -> Option<Text> {
    match a {
        LaunchArgS::Output { .. } => Some(numbered("_Q"@, i)),
        _ => None,
    }
}

pub open spec fn output_slots(args: Seq<LaunchArgS>) -> Seq<Text> {
    filled(Seq::new(args.len(), |i: int| output_slot(args[i], i as nat)), args.len())
}

fn make_output_slot(a: &LaunchArg, i: usize) -> (r: Option<String>)
    ensures
        opt_text(r) == output_slot(a@, i as nat),
{
    match a {
        LaunchArg::Output { .. } => Some(number("_Q", i)),
        _ => None,
    }
}

fn make_output_slots(args: &Vec<LaunchArg>) -> (r: Vec<String>)
    ensures
        texts(r@) == output_slots(views(args@)),
{
    let mut slots: Vec<Option<String>> = Vec::new();
    let mut i: usize = 0;
    while i < args.len()
        invariant
            i <= args@.len(),
            slots@.len() == i,
            forall|j: int| 0 <= j < i ==> opt_text(#[trigger] slots@[j]) == output_slot(args@[j]@, j as nat),
        decreases args@.len() - i,
    {
        slots.push(make_output_slot(&args[i], i));
        i = i + 1;
    }
    assert(slots_s(slots@) =~= Seq::new(
        views(args@).len(),
        |i: int| output_slot(views(args@)[i], i as nat),
    ));
    fill(&slots)
}

// ---------------------------------------------------------------------------
// Code of all parameters
// ---------------------------------------------------------------------------

/// The stride expressions of all tensors.
pub open spec fn stride_exprs(codes: Seq<ParamCodeS>) -> Seq<Text> {
    filled(Seq::new(codes.len(), |i: int| codes[i].stride), codes.len())
}

fn make_stride_exprs(codes: &Vec<ParamCode>) -> (r: Vec<String>)
    ensures
        texts(r@) == stride_exprs(views(codes@)),
{
    let mut slots: Vec<Option<String>> = Vec::new();
    let mut i: usize = 0;
    while i < codes.len()
        invariant
            i <= codes@.len(),
            slots@.len() == i,
            forall|j: int| 0 <= j < i ==> opt_text(#[trigger] slots@[j]) == codes@[j]@.stride,
        decreases codes@.len() - i,
    {
        slots.push(crate::copy::clone_opt(&codes[i].stride));
        i = i + 1;
    }
    assert(slots_s(slots@) =~= Seq::new(views(codes@).len(), |i: int| views(codes@)[i].stride));
    fill(&slots)
}

/// The specialization expressions of all tensors.
pub open spec fn spec_exprs(codes: Seq<ParamCodeS>) -> Seq<Text> {
    filled(Seq::new(codes.len(), |i: int| codes[i].spec), codes.len())
}

fn make_spec_exprs(codes: &Vec<ParamCode>) -> (r: Vec<String>)
    ensures
        texts(r@) == spec_exprs(views(codes@)),
{
    let mut slots: Vec<Option<String>> = Vec::new();
    let mut i: usize = 0;
    while i < codes.len()
        invariant
            i <= codes@.len(),
            slots@.len() == i,
            forall|j: int| 0 <= j < i ==> opt_text(#[trigger] slots@[j]) == codes@[j]@.spec,
        decreases codes@.len() - i,
    {
        slots.push(crate::copy::clone_opt(&codes[i].spec));
        i = i + 1;
    }
    assert(slots_s(slots@) =~= Seq::new(views(codes@).len(), |i: int| views(codes@)[i].spec));
    fill(&slots)
}

/// The divisibility hints of all integer scalars.
pub open spec fn scalar_hint_exprs(codes: Seq<ParamCodeS>) -> Seq<Text> {
    filled(Seq::new(codes.len(), |i: int| codes[i].scalar_hint), codes.len())
}

fn make_scalar_hint_exprs(codes: &Vec<ParamCode>) -> (r: Vec<String>)
    ensures
        texts(r@) == scalar_hint_exprs(views(codes@)),
{
    let mut slots: Vec<Option<String>> = Vec::new();
    let mut i: usize = 0;
    while i < codes.len()
        invariant
            i <= codes@.len(),
            slots@.len() == i,
            forall|j: int| 0 <= j < i ==> opt_text(#[trigger] slots@[j]) == codes@[j]@.scalar_hint,
        decreases codes@.len() - i,
    {
        slots.push(crate::copy::clone_opt(&codes[i].scalar_hint));
        i = i + 1;
    }
    assert(slots_s(slots@) =~= Seq::new(views(codes@).len(), |i: int| views(codes@)[i].scalar_hint));
    fill(&slots)
}

/// The launch grids of all partitioned tensors.
pub open spec fn grid_exprs(codes: Seq<ParamCodeS>) -> Seq<Text> {
    filled(Seq::new(codes.len(), |i: int| codes[i].grid), codes.len())
}

fn make_grid_exprs(codes: &Vec<ParamCode>) -> (r: Vec<String>)
    ensures
        texts(r@) == grid_exprs(views(codes@)),
{
    let mut slots: Vec<Option<String>> = Vec::new();
    let mut i: usize = 0;
    while i < codes.len()
        invariant
            i <= codes@.len(),
            slots@.len() == i,
            forall|j: int| 0 <= j < i ==> opt_text(#[trigger] slots@[j]) == codes@[j]@.grid,
        decreases codes@.len() - i,
    {
        slots.push(crate::copy::clone_opt(&codes[i].grid));
        i = i + 1;
    }
    assert(slots_s(slots@) =~= Seq::new(views(codes@).len(), |i: int| views(codes@)[i].grid));
    fill(&slots)
}

/// The shape checks of all tensors.
pub open spec fn validator_exprs(codes: Seq<ParamCodeS>) -> Seq<Text> {
    filled(Seq::new(codes.len(), |i: int| codes[i].validator), codes.len())
}

fn make_validator_exprs(codes: &Vec<ParamCode>) -> (r: Vec<String>)
    ensures
        texts(r@) == validator_exprs(views(codes@)),
{
    let mut slots: Vec<Option<String>> = Vec::new();
    let mut i: usize = 0;
    while i < codes.len()
        invariant
            i <= codes@.len(),
            slots@.len() == i,
            forall|j: int| 0 <= j < i ==> opt_text(#[trigger] slots@[j]) == codes@[j]@.validator,
        decreases codes@.len() - i,
    {
        slots.push(crate::copy::clone_opt(&codes[i].validator));
        i = i + 1;
    }
    assert(slots_s(slots@) =~= Seq::new(views(codes@).len(), |i: int| views(codes@)[i].validator));
    fill(&slots)
}

pub open spec fn builder_stmts(codes: Seq<ParamCodeS>) -> Seq<Text> {
    Seq::new(codes.len(), |i: int| codes[i].builder)
}

fn make_builder_stmts(codes: &Vec<ParamCode>) -> (r: Vec<String>)
    ensures
        texts(r@) == builder_stmts(views(codes@)),
{
    let mut out: Vec<String> = Vec::new();
    let mut i: usize = 0;
    while i < codes.len()
        invariant
            i <= codes@.len(),
            out@.len() == i,
            forall|j: int| 0 <= j < i ==> (#[trigger] out@[j])@ == codes@[j]@.builder,
        decreases codes@.len() - i,
    {
        out.push(codes[i].builder.clone());
        i = i + 1;
    }
    assert(texts(out@) =~= builder_stmts(views(codes@)));
    out
}

pub open spec fn param_names(params: Seq<KernelParamS>) -> Seq<Text> {
    Seq::new(params.len(), |i: int| params[i].name)
}

fn make_param_names(params: &Vec<KernelParam>) -> (r: Vec<String>)
    ensures
        texts(r@) == param_names(views(params@)),
        r@.len() == params@.len(),
{
    let mut out: Vec<String> = Vec::new();
    let mut i: usize = 0;
    while i < params.len()
        invariant
            i <= params@.len(),
            out@.len() == i,
            forall|j: int| 0 <= j < i ==> (#[trigger] out@[j])@ == params@[j]@.name,
        decreases params@.len() - i,
    {
        out.push(params[i].name.clone());
        i = i + 1;
    }
    assert(texts(out@) =~= param_names(views(params@)));
    out
}

/// The types that a launcher takes.
pub open spec fn concrete_types(args: Seq<LaunchArgS>) -> Seq<Text> {
    Seq::new(args.len(), |i: int| concrete_type(args[i]))
}

fn make_concrete_types(args: &Vec<LaunchArg>) -> (r: Vec<String>)
    ensures
        texts(r@) == concrete_types(views(args@)),
{
    let ghost models = views(args@);
    let ghost want = concrete_types(models);
    let mut out: Vec<String> = Vec::new();
    let mut i: usize = 0;
    while i < args.len()
        invariant
            i <= args@.len(),
            models == views(args@),
            want == concrete_types(models),
            out@.len() == i,
            forall|j: int| 0 <= j < i ==> (#[trigger] out@[j])@ == want[j],
        decreases args@.len() - i,
    {
        assert(models[i as int] == args@[i as int]@);
        out.push(print_concrete(&args[i]));
        i = i + 1;
    }
    assert(texts(out@) =~= want);
    out
}

/// A member type for each argument.
pub open spec fn member_types(args: Seq<LaunchArgS>, member: Text) -> Seq<Text> {
    Seq::new(args.len(), |i: int| member_type(args[i], member))
}

fn make_member_types(args: &Vec<LaunchArg>, member: &str) -> (r: Vec<String>)
    ensures
        texts(r@) == member_types(views(args@), member@),
{
    let ghost models = views(args@);
    let ghost want = member_types(models, member@);
    let mut out: Vec<String> = Vec::new();
    let mut i: usize = 0;
    while i < args.len()
        invariant
            i <= args@.len(),
            models == views(args@),
            want == member_types(models, member@),
            out@.len() == i,
            forall|j: int| 0 <= j < i ==> (#[trigger] out@[j])@ == want[j],
        decreases args@.len() - i,
    {
        assert(models[i as int] == args@[i as int]@);
        out.push(print_member(&args[i], member));
        i = i + 1;
    }
    assert(texts(out@) =~= want);
    out
}

/// What the public launcher stores for each argument.
pub open spec fn stored_types(args: Seq<LaunchArgS>) -> Seq<Text> {
    Seq::new(args.len(), |i: int| stored_type(args[i], i as nat))
}

fn make_stored_types(args: &Vec<LaunchArg>) -> (r: Vec<String>)
    ensures
        texts(r@) == stored_types(views(args@)),
{
    let ghost models = views(args@);
    let ghost want = stored_types(models);
    let mut out: Vec<String> = Vec::new();
    let mut i: usize = 0;
    while i < args.len()
        invariant
            i <= args@.len(),
            models == views(args@),
            want == stored_types(models),
            out@.len() == i,
            forall|j: int| 0 <= j < i ==> (#[trigger] out@[j])@ == want[j],
        decreases args@.len() - i,
    {
        assert(models[i as int] == args@[i as int]@);
        out.push(print_stored(&args[i], i));
        i = i + 1;
    }
    assert(texts(out@) =~= want);
    out
}

/// Each argument as it is returned.
pub open spec fn recovered_fields(args: Seq<LaunchArgS>, names: Seq<Text>) -> Seq<Text> {
    Seq::new(args.len(), |i: int| recovered(args[i], names[i]))
}

fn make_recovered_fields(args: &Vec<LaunchArg>, names: &Vec<String>) -> (r: Vec<String>)
    requires
        names@.len() == args@.len(),
    ensures
        texts(r@) == recovered_fields(views(args@), texts(names@)),
{
    let ghost models = views(args@);
    let ghost want = recovered_fields(models, texts(names@));
    let mut out: Vec<String> = Vec::new();
    let mut i: usize = 0;
    while i < args.len()
        invariant
            i <= args@.len(),
            models == views(args@),
            want == recovered_fields(models, texts(names@)),
            names@.len() == args@.len(),
            out@.len() == i,
            forall|j: int| 0 <= j < i ==> (#[trigger] out@[j])@ == want[j],
        decreases args@.len() - i,
    {
        assert(models[i as int] == args@[i as int]@);
        out.push(print_recovered(&args[i], names[i].as_str()));
        i = i + 1;
    }
    assert(texts(out@) =~= want);
    out
}

// ---------------------------------------------------------------------------
// Metadata
// ---------------------------------------------------------------------------

/// Metadata about the tensor parameters of a launcher.
#[derive(Debug)]
pub struct KernelInputInfo {
    /// Names of the KernelInput type params, e.g., ["_K0", "_K1"].
    pub type_param_names: Vec<String>,
    /// Element type name for each KernelInput param, e.g., ["T", "SrcType"].
    pub element_type_names: Vec<String>,
    /// For each param in the args tuple, the index into type_param_names (if it's a
    /// KernelInput param), or None (if it's a partition/scalar).
    pub param_kernel_input_idx: Vec<Option<usize>>,
    /// Names of the KernelOutput type params, e.g., ["_P0", "_P1"].
    pub ko_type_param_names: Vec<String>,
    /// Element type name for each KernelOutput param.
    pub ko_element_type_names: Vec<String>,
    /// For each param, the index into ko_type_param_names (if partition).
    pub param_kernel_output_idx: Vec<Option<usize>>,
    /// The "recovered" return expression with both KernelInput and KernelOutput recover calls.
    pub recovered_tuple_str: String,
}

pub struct KernelInputInfoS {
    pub type_param_names: Seq<Text>,
    pub element_type_names: Seq<Text>,
    pub param_kernel_input_idx: Seq<Option<nat>>,
    pub ko_type_param_names: Seq<Text>,
    pub ko_element_type_names: Seq<Text>,
    pub param_kernel_output_idx: Seq<Option<nat>>,
    pub recovered_tuple_str: Text,
}

pub open spec fn opt_nat(v: Option<usize>) -> Option<nat> {
    match v {
        Some(n) => Some(n as nat),
        None => None,
    }
}

pub open spec fn opt_nats(v: Seq<Option<usize>>) -> Seq<Option<nat>> {
    Seq::new(v.len(), |i: int| opt_nat(v[i]))
}

impl View for KernelInputInfo {
    type V = KernelInputInfoS;

    open spec fn view(&self) -> KernelInputInfoS {
        KernelInputInfoS {
            type_param_names: texts(self.type_param_names@),
            element_type_names: texts(self.element_type_names@),
            param_kernel_input_idx: opt_nats(self.param_kernel_input_idx@),
            ko_type_param_names: texts(self.ko_type_param_names@),
            ko_element_type_names: texts(self.ko_element_type_names@),
            param_kernel_output_idx: opt_nats(self.param_kernel_output_idx@),
            recovered_tuple_str: self.recovered_tuple_str@,
        }
    }
}

pub open spec fn input_indices(args: Seq<LaunchArgS>) -> Seq<Option<nat>> {
    Seq::new(args.len(), |i: int| input_index(args[i]))
}

pub open spec fn output_indices(args: Seq<LaunchArgS>) -> Seq<Option<nat>> {
    Seq::new(args.len(), |i: int| output_index(args[i]))
}

pub open spec fn input_info(args: Seq<LaunchArgS>, names: Seq<Text>) -> KernelInputInfoS {
    KernelInputInfoS {
        type_param_names: input_params(args),
        element_type_names: input_elems(args),
        param_kernel_input_idx: input_indices(args),
        ko_type_param_names: output_params(args),
        ko_element_type_names: output_elems(args),
        param_kernel_output_idx: output_indices(args),
        recovered_tuple_str: tuple_text(recovered_fields(args, names)),
    }
}

fn make_indices(args: &Vec<LaunchArg>) -> (r: (Vec<Option<usize>>, Vec<Option<usize>>))
    ensures
        opt_nats(r.0@) == input_indices(views(args@)),
        opt_nats(r.1@) == output_indices(views(args@)),
{
    let mut inputs: Vec<Option<usize>> = Vec::new();
    let mut outputs: Vec<Option<usize>> = Vec::new();
    let mut i: usize = 0;
    while i < args.len()
        invariant
            i <= args@.len(),
            inputs@.len() == i,
            outputs@.len() == i,
            forall|j: int| 0 <= j < i ==> opt_nat(#[trigger] inputs@[j]) == input_index(args@[j]@),
            forall|j: int|
                0 <= j < i ==> opt_nat(#[trigger] outputs@[j]) == output_index(args@[j]@),
        decreases args@.len() - i,
    {
        match &args[i] {
            LaunchArg::Input { index, elem: _ } => {
                inputs.push(Some(*index));
                outputs.push(None);
            },
            LaunchArg::Output { index, elem: _ } => {
                inputs.push(None);
                outputs.push(Some(*index));
            },
            LaunchArg::Plain { .. } => {
                inputs.push(None);
                outputs.push(None);
            },
        }
        i = i + 1;
    }
    assert(opt_nats(inputs@) =~= input_indices(views(args@)));
    assert(opt_nats(outputs@) =~= output_indices(views(args@)));
    (inputs, outputs)
}

fn make_input_info(args: &Vec<LaunchArg>, names: &Vec<String>) -> (r: KernelInputInfo)
    requires
        names@.len() == args@.len(),
    ensures
        r@ == input_info(views(args@), texts(names@)),
{
    let (param_kernel_input_idx, param_kernel_output_idx) = make_indices(args);
    let fields = make_recovered_fields(args, names);
    KernelInputInfo {
        type_param_names: make_input_params(args),
        element_type_names: make_input_elems(args),
        param_kernel_input_idx,
        ko_type_param_names: make_output_params(args),
        ko_element_type_names: make_output_elems(args),
        param_kernel_output_idx,
        recovered_tuple_str: to_tuple_string(fields.as_slice()),
    }
}

// ---------------------------------------------------------------------------
// The launcher struct
// ---------------------------------------------------------------------------

/// The names of the functions that a kernel is launched with.
#[derive(Debug)]
pub struct KernelNaming {
    /// The function that takes all arguments as one tuple.
    pub apply_name: String,
    /// The public launcher.
    pub public_name: String,
}

/// Names that a launcher is generated under.
struct LauncherNames<'a> {
    module_name: &'a str,
    function_name: &'a str,
    function_entry_name: &'a str,
    launcher_name: &'a str,
    apply_name: &'a str,
    public_name: &'a str,
}

pub struct LauncherNamesS {
    pub module_name: Text,
    pub function_name: Text,
    pub function_entry_name: Text,
    pub launcher_name: Text,
    pub apply_name: Text,
    pub public_name: Text,
}

impl<'a> View for LauncherNames<'a> {
    type V = LauncherNamesS;

    closed spec fn view(&self) -> LauncherNamesS {
        LauncherNamesS {
            module_name: self.module_name@,
            function_name: self.function_name@,
            function_entry_name: self.function_entry_name@,
            launcher_name: self.launcher_name@,
            apply_name: self.apply_name@,
            public_name: self.public_name@,
        }
    }
}

/// Everything that a launcher is written from.
pub struct LauncherS {
    pub names: LauncherNamesS,
    pub is_unsafe: bool,
    pub params: Seq<Text>,
    pub generics: RequiredGenericsS,
    pub codes: Seq<ParamCodeS>,
}

impl LauncherS {
    pub open spec fn args(self) -> Seq<LaunchArgS> {
        launch_args(self.codes)
    }

    /// The types of the arguments as the struct holds them.
    pub open spec fn stored_args(self) -> Text {
        tuple_text(member_types(self.args(), "Stored"@))
    }

    /// The types of the arguments as they are returned.
    pub open spec fn returned_args(self) -> Text {
        tuple_text(member_types(self.args(), "Returned"@))
    }

    /// The type parameters with their bounds.
    pub open spec fn generic_params(self) -> Seq<Text> {
        launcher_param_texts(self.generics.generic_args())
    }

    pub open spec fn struct_generics(self) -> Seq<Text> {
        self.generic_params() + input_bounds(self.args()) + output_bounds(self.args())
            + seq!["DI: DeviceOp<Output="@ + self.stored_args() + ">"@]
    }

    pub open spec fn struct_args(self) -> Seq<Text> {
        self.generics.generic_args() + input_params(self.args()) + output_params(self.args())
            + seq!["DI"@]
    }

    pub open spec fn unsafe_text(self) -> Text {
        if self.is_unsafe { "unsafe "@ } else { ""@ }
    }

    /// The statement that gets the generic arguments.
    pub open spec fn generics_stmt(self) -> Text {
        if self.generics.names.len() == 0 {
            "let function_generics: Vec<String> = vec![];"@
        } else {
            "let function_generics: Vec<String> = if self.function_generics.is_some() { self.function_generics.take().unwrap() } else { "@
                + self.generics.to_expr() + " };"@
        }
    }

    /// The statements that name the kernel and take its arguments.
    pub open spec fn init_stmts(self) -> Seq<Text> {
        seq![
            "let module_name = "@ + string_literal(self.names.module_name) + ";"@,
            "let function_name = "@ + string_literal(self.names.function_name) + ";"@,
            "let function_entry = "@ + string_literal(self.names.function_entry_name) + ";"@,
            "let input = self.input.take().unwrap();"@,
            "let "@ + tuple_text(self.params) + ": "@ + self.stored_args()
                + " = input.execute(ctx)?;"@,
        ]
    }

    /// The statements that compile the kernel.
    pub open spec fn compile_stmts(self) -> Seq<Text> {
        seq![
            self.generics_stmt(),
            "let stride_args: Vec<(String, Vec<i32>)> = vec!["@ + join_text(
                stride_exprs(self.codes),
                ","@,
            ) + "];"@,
            "let spec_args = vec!["@ + join_text(spec_exprs(self.codes), ","@) + "];"@,
            "let scalar_hints: Vec<(String, cutile_compiler::specialization::DivHint)> = vec!["@
                + join_text(scalar_hint_exprs(self.codes), ","@) + "];"@,
            "let const_grid = if self._const_grid { Some(self._grid) } else { None };"@,
            "let compile_options = std::mem::take(&mut self._compile_options);"@,
            "let (function, validator) = self.compile(ctx, __module_ast_self, module_name, function_name, function_entry, function_generics, stride_args, spec_args.clone(), scalar_hints, const_grid, compile_options)?;"@,
        ]
    }

    /// The statements that launch the kernel.
    pub open spec fn launch_stmts(self) -> Seq<Text> {
        seq![
            "let launch_grid: (u32, u32, u32) = self.infer_launch_grid(&["@ + join_text(
                grid_exprs(self.codes),
                ","@,
            ) + "])?;"@,
            "kernel_launch.set_launch_config(LaunchConfig { grid_dim: launch_grid, block_dim: (1, 1, 1), shared_mem_bytes: 0 });"@,
            "kernel_launch.execute(ctx)?;"@,
            "return Ok("@ + tuple_text(recovered_fields(self.args(), self.params)) + ");"@,
        ]
    }

    /// The body of `execute`: take the arguments, compile, check the shapes, hand the
    /// arguments over, launch, and return the arguments.
    pub open spec fn execute_stmts(self) -> Seq<Text> {
        self.init_stmts() + self.compile_stmts() + validator_exprs(self.codes) + seq![
            "let mut kernel_launch = AsyncKernelLaunch::new(function.clone());"@,
        ] + builder_stmts(self.codes) + self.launch_stmts()
    }

    pub open spec fn execute_method(self) -> Text {
        "unsafe fn execute(mut self, ctx: &ExecutionContext) -> Result<<Self as DeviceOp>::Output, DeviceError> { "@
            + join_text(self.execute_stmts(), " "@) + " }"@
    }

    /// The struct with its arguments, as a type.
    pub open spec fn struct_type(self, args: Seq<Text>) -> Text {
        self.names.launcher_name + " "@ + angle_text(args)
    }

    /// The impls of the launcher struct.
    pub open spec fn struct_impls(self) -> Text {
        let generics = angle_text(self.struct_generics());
        let ty = self.struct_type(self.struct_args());
        "impl "@ + generics + " DeviceOp for "@ + ty + " { type Output = "@ + self.returned_args()
            + "; "@ + (self.execute_method() + " } impl "@ + generics + " GraphNode for "@ + ty
            + " {}"@)
    }

    // -----------------------------------------------------------------------
    // The function that takes a tuple
    // -----------------------------------------------------------------------
    pub open spec fn concrete_args(self) -> Text {
        tuple_text(concrete_types(self.args()))
    }

    pub open spec fn apply_type_args(self) -> Seq<Text> {
        self.generics.generic_args() + input_types(self.args()) + output_types(self.args()) + seq![
            "impl DeviceOp<Output="@ + self.concrete_args() + ">"@,
        ]
    }

    /// The function that launches the kernel with one tuple of arguments.
    pub open spec fn apply_fn(self) -> Text {
        "pub "@ + self.unsafe_text() + "fn "@ + self.names.apply_name + generics_text(
            self.generic_params(),
        ) + "(input: "@ + self.concrete_args() + (") -> "@ + self.struct_type(
            self.apply_type_args(),
        ) + " { return "@ + self.names.launcher_name + "::launch(value(input)); }"@)
    }

    // -----------------------------------------------------------------------
    // The public launcher
    // -----------------------------------------------------------------------
    pub open spec fn launch_type_args(self) -> Seq<Text> {
        self.generics.generic_args() + input_slots(self.args()) + output_slots(self.args()) + seq![
            "impl DeviceOp<Output="@ + tuple_text(stored_types(self.args())) + ">"@,
        ]
    }

    pub open spec fn direct_stmts(self) -> Seq<Text> {
        direct_bindings(self.args()) + flatten_stmts(
            binding_names(self.args()),
            "input"@,
            false,
        ) + seq!["return "@ + self.names.launcher_name + "::launch(input);"@]
    }

    pub open spec fn direct_where(self) -> Text {
        if self.codes.len() == 0 {
            ""@
        } else {
            " where "@ + join_text(direct_preds(self.args()), " , "@)
        }
    }

    /// The public launcher: it takes whatever turns into an argument.
    pub open spec fn direct_fn(self) -> Text {
        "pub "@ + self.unsafe_text() + "fn "@ + self.names.public_name + generics_text(
            self.generic_params() + direct_params(self.args()),
        ) + "("@ + join_text(direct_inputs(self.args()), ", "@) + (") -> "@ + self.struct_type(
            self.launch_type_args(),
        ) + self.direct_where() + " { "@ + join_text(self.direct_stmts(), " "@) + " }"@)
    }

    /// All that is generated for a kernel.
    pub open spec fn text(self) -> Text {
        self.struct_impls() + "\n"@ + self.apply_fn() + "\n"@ + self.direct_fn()
    }
}

/// The arguments of the public launcher.
pub open spec fn direct_inputs(args: Seq<LaunchArgS>) -> Seq<Text> {
    Seq::new(args.len(), |i: int| numbered("arg"@, i as nat) + ": "@ + numbered("_A"@, i as nat))
}

fn make_direct_inputs(args: &Vec<LaunchArg>) -> (r: Vec<String>)
    ensures
        texts(r@) == direct_inputs(views(args@)),
{
    let ghost models = views(args@);
    let ghost want = direct_inputs(models);
    let mut out: Vec<String> = Vec::new();
    let mut i: usize = 0;
    while i < args.len()
        invariant
            i <= args@.len(),
            models == views(args@),
            want == direct_inputs(models),
            out@.len() == i,
            forall|j: int| 0 <= j < i ==> (#[trigger] out@[j])@ == want[j],
        decreases args@.len() - i,
    {
        assert(models[i as int] == args@[i as int]@);
        let a = number("arg", i);
        let t = number("_A", i);
        out.push(cat3(a.as_str(), ": ", t.as_str()));
        i = i + 1;
    }
    assert(texts(out@) =~= want);
    out
}

/// The names that the arguments are bound to as operations.
pub open spec fn binding_names(args: Seq<LaunchArgS>) -> Seq<Text> {
    Seq::new(args.len(), |i: int| numbered("_di"@, i as nat))
}

fn make_binding_names(args: &Vec<LaunchArg>) -> (r: Vec<String>)
    ensures
        texts(r@) == binding_names(views(args@)),
{
    let ghost models = views(args@);
    let ghost want = binding_names(models);
    let mut out: Vec<String> = Vec::new();
    let mut i: usize = 0;
    while i < args.len()
        invariant
            i <= args@.len(),
            models == views(args@),
            want == binding_names(models),
            out@.len() == i,
            forall|j: int| 0 <= j < i ==> (#[trigger] out@[j])@ == want[j],
        decreases args@.len() - i,
    {
        assert(models[i as int] == args@[i as int]@);
        out.push(number("_di", i));
        i = i + 1;
    }
    assert(texts(out@) =~= want);
    out
}

/// The type parameters for one argument of the public launcher.
pub open spec fn direct_param(a: LaunchArgS, i: nat) -> Text {
    match a {
        LaunchArgS::Input { .. } => numbered("_A"@, i) + " , "@ + numbered("_S"@, i),
        LaunchArgS::Output { .. } => numbered("_A"@, i) + " , "@ + numbered("_Q"@, i),
        LaunchArgS::Plain { .. } => numbered("_A"@, i),
    }
}

fn make_direct_param(a: &LaunchArg, i: usize) -> (r: String)
    ensures
        r@ == direct_param(a@, i as nat),
{
    let t = number("_A", i);
    match a {
        LaunchArg::Input { .. } => {
            let s = number("_S", i);
            cat3(t.as_str(), " , ", s.as_str())
        },
        LaunchArg::Output { .. } => {
            let s = number("_Q", i);
            cat3(t.as_str(), " , ", s.as_str())
        },
        LaunchArg::Plain { .. } => t,
    }
}

/// The bounds on one argument of the public launcher: it turns into an operation whose value
/// is a tensor to read, a tensor to write, or the value itself.
pub open spec fn direct_pred(a: LaunchArgS, i: nat) -> Text {
    let head = numbered("_A"@, i) + ": IntoDeviceOp<"@;
    match a {
        LaunchArgS::Input { elem, .. } => head + numbered("_S"@, i) + "> , "@ + numbered("_S"@, i)
            + ": KernelInput<"@ + elem + ">"@,
        LaunchArgS::Output { elem, .. } => head + numbered("_Q"@, i) + "> , "@ + numbered("_Q"@, i)
            + ": KernelOutput<"@ + elem + ">"@,
        LaunchArgS::Plain { ty } => head + ty + ">"@,
    }
}

fn make_direct_pred(a: &LaunchArg, i: usize) -> (r: String)
    ensures
        r@ == direct_pred(a@, i as nat),
{
    let t = number("_A", i);
    let head = cat2(t.as_str(), ": IntoDeviceOp<");
    match a {
        LaunchArg::Input { index: _, elem } => {
            let s = number("_S", i);
            cat7(
                head.as_str(),
                s.as_str(),
                "> , ",
                s.as_str(),
                ": KernelInput<",
                elem.as_str(),
                ">",
            )
        },
        LaunchArg::Output { index: _, elem } => {
            let s = number("_Q", i);
            cat7(
                head.as_str(),
                s.as_str(),
                "> , ",
                s.as_str(),
                ": KernelOutput<",
                elem.as_str(),
                ">",
            )
        },
        LaunchArg::Plain { ty } => cat3(head.as_str(), ty.as_str(), ">"),
    }
}

/// The statement that turns an argument into an operation.
pub open spec fn direct_binding(a: LaunchArgS, i: nat) -> Text {
    let head = "let "@ + numbered("_di"@, i) + " = "@ + numbered("arg"@, i) + ".into_op()"@;
    match a {
        LaunchArgS::Input { .. } => head + ".map(KernelInput::prepare);"@,
        LaunchArgS::Output { .. } => head + ".map(KernelOutput::prepare);"@,
        LaunchArgS::Plain { .. } => head + ";"@,
    }
}

fn make_direct_binding(a: &LaunchArg, i: usize) -> (r: String)
    ensures
        r@ == direct_binding(a@, i as nat),
{
    let d = number("_di", i);
    let v = number("arg", i);
    let head = cat5("let ", d.as_str(), " = ", v.as_str(), ".into_op()");
    match a {
        LaunchArg::Input { .. } => cat2(head.as_str(), ".map(KernelInput::prepare);"),
        LaunchArg::Output { .. } => cat2(head.as_str(), ".map(KernelOutput::prepare);"),
        LaunchArg::Plain { .. } => cat2(head.as_str(), ";"),
    }
}

/// The type parameters of the public launcher.
pub open spec fn direct_params(args: Seq<LaunchArgS>) -> Seq<Text> {
    Seq::new(args.len(), |i: int| direct_param(args[i], i as nat))
}

fn make_direct_params(args: &Vec<LaunchArg>) -> (r: Vec<String>)
    ensures
        texts(r@) == direct_params(views(args@)),
{
    let ghost models = views(args@);
    let ghost want = direct_params(models);
    let mut out: Vec<String> = Vec::new();
    let mut i: usize = 0;
    while i < args.len()
        invariant
            i <= args@.len(),
            models == views(args@),
            want == direct_params(models),
            out@.len() == i,
            forall|j: int| 0 <= j < i ==> (#[trigger] out@[j])@ == want[j],
        decreases args@.len() - i,
    {
        assert(models[i as int] == args@[i as int]@);
        out.push(make_direct_param(&args[i], i));
        i = i + 1;
    }
    assert(texts(out@) =~= want);
    out
}

/// The bounds of the public launcher.
pub open spec fn direct_preds(args: Seq<LaunchArgS>) -> Seq<Text> {
    Seq::new(args.len(), |i: int| direct_pred(args[i], i as nat))
}

fn make_direct_preds(args: &Vec<LaunchArg>) -> (r: Vec<String>)
    ensures
        texts(r@) == direct_preds(views(args@)),
{
    let ghost models = views(args@);
    let ghost want = direct_preds(models);
    let mut out: Vec<String> = Vec::new();
    let mut i: usize = 0;
    while i < args.len()
        invariant
            i <= args@.len(),
            models == views(args@),
            want == direct_preds(models),
            out@.len() == i,
            forall|j: int| 0 <= j < i ==> (#[trigger] out@[j])@ == want[j],
        decreases args@.len() - i,
    {
        assert(models[i as int] == args@[i as int]@);
        out.push(make_direct_pred(&args[i], i));
        i = i + 1;
    }
    assert(texts(out@) =~= want);
    out
}

/// The statements that turn the arguments into operations.
pub open spec fn direct_bindings(args: Seq<LaunchArgS>) -> Seq<Text> {
    Seq::new(args.len(), |i: int| direct_binding(args[i], i as nat))
}

fn make_direct_bindings(args: &Vec<LaunchArg>) -> (r: Vec<String>)
    ensures
        texts(r@) == direct_bindings(views(args@)),
{
    let ghost models = views(args@);
    let ghost want = direct_bindings(models);
    let mut out: Vec<String> = Vec::new();
    let mut i: usize = 0;
    while i < args.len()
        invariant
            i <= args@.len(),
            models == views(args@),
            want == direct_bindings(models),
            out@.len() == i,
            forall|j: int| 0 <= j < i ==> (#[trigger] out@[j])@ == want[j],
        decreases args@.len() - i,
    {
        assert(models[i as int] == args@[i as int]@);
        out.push(make_direct_binding(&args[i], i));
        i = i + 1;
    }
    assert(texts(out@) =~= want);
    out
}

fn push_text(out: &mut Vec<String>, s: String)
    ensures
        texts(final(out)@) == texts(old(out)@).push(s@),
{
    let ghost prev = out@;
    out.push(s);
    proof {
        lemma_texts_push(prev, out@.last());
    }
}

/// Everything that a launcher is written from, with the parts that are used more than once.
struct Launcher<'a> {
    names: &'a LauncherNames<'a>,
    is_unsafe: bool,
    params: &'a Vec<String>,
    generics: &'a RequiredGenerics,
    codes: &'a Vec<ParamCode>,
    args: &'a Vec<LaunchArg>,
}

impl<'a> Launcher<'a> {
    spec fn model(self) -> LauncherS {
        LauncherS {
            names: self.names@,
            is_unsafe: self.is_unsafe,
            params: texts(self.params@),
            generics: self.generics@,
            codes: views(self.codes@),
        }
    }

    spec fn wf(self) -> bool {
        &&& views(self.args@) == launch_args(views(self.codes@))
        &&& self.args@.len() == self.codes@.len()
        &&& self.params@.len() == self.codes@.len()
    }

    fn stored_args(&self) -> (r: String)
        requires
            self.wf(),
        ensures
            r@ == self.model().stored_args(),
    {
        to_tuple_string(make_member_types(self.args, "Stored").as_slice())
    }

    fn returned_args(&self) -> (r: String)
        requires
            self.wf(),
        ensures
            r@ == self.model().returned_args(),
    {
        to_tuple_string(make_member_types(self.args, "Returned").as_slice())
    }

    fn struct_generics(&self, stored: &str) -> (r: String)
        requires
            self.wf(),
            stored@ == self.model().stored_args(),
        ensures
            r@ == angle_text(self.model().struct_generics()),
    {
        let mut params = self.generics.get_required_generics();
        append_all(&mut params, &make_input_bounds(self.args));
        append_all(&mut params, &make_output_bounds(self.args));
        let ghost before = texts(params@);
        push_text(&mut params, cat3("DI: DeviceOp<Output=", stored, ">"));
        assert(texts(params@) =~= before + seq!["DI: DeviceOp<Output="@ + stored@ + ">"@]);
        print_angle(&params)
    }

    fn struct_type(&self) -> (r: String)
        requires
            self.wf(),
        ensures
            r@ == self.model().struct_type(self.model().struct_args()),
    {
        let mut args = self.generics.get_generic_args();
        append_all(&mut args, &make_input_params(self.args));
        append_all(&mut args, &make_output_params(self.args));
        let ghost before = texts(args@);
        push_text(&mut args, "DI".to_owned());
        assert(texts(args@) =~= before + seq!["DI"@]);
        let angle = print_angle(&args);
        cat3(self.names.launcher_name, " ", angle.as_str())
    }

    fn init_stmts(&self, stored: &str) -> (r: Vec<String>)
        requires
            self.wf(),
            stored@ == self.model().stored_args(),
        ensures
            texts(r@) == self.model().init_stmts(),
    {
        let module = quote_string(self.names.module_name);
        let function = quote_string(self.names.function_name);
        let entry = quote_string(self.names.function_entry_name);
        let tuple = to_tuple_string(self.params.as_slice());
        let mut out: Vec<String> = Vec::new();
        out.push(cat3("let module_name = ", module.as_str(), ";"));
        out.push(cat3("let function_name = ", function.as_str(), ";"));
        out.push(cat3("let function_entry = ", entry.as_str(), ";"));
        out.push("let input = self.input.take().unwrap();".to_owned());
        out.push(cat5("let ", tuple.as_str(), ": ", stored, " = input.execute(ctx)?;"));
        assert(texts(out@) =~= self.model().init_stmts());
        out
    }

    fn generics_stmt(&self) -> (r: String)
        ensures
            r@ == self.model().generics_stmt(),
    {
        if self.generics.is_empty() {
            "let function_generics: Vec<String> = vec![];".to_owned()
        } else {
            let e = self.generics.to_expr_str();
            cat3(
                "let function_generics: Vec<String> = if self.function_generics.is_some() { self.function_generics.take().unwrap() } else { ",
                e.as_str(),
                " };",
            )
        }
    }

    fn compile_stmts(&self) -> (r: Vec<String>)
        ensures
            texts(r@) == self.model().compile_stmts(),
    {
        let strides = join(&make_stride_exprs(self.codes), ",");
        let specs = join(&make_spec_exprs(self.codes), ",");
        let hints = join(&make_scalar_hint_exprs(self.codes), ",");
        let mut out: Vec<String> = Vec::new();
        out.push(self.generics_stmt());
        out.push(
            cat3("let stride_args: Vec<(String, Vec<i32>)> = vec![", strides.as_str(), "];"),
        );
        out.push(cat3("let spec_args = vec![", specs.as_str(), "];"));
        out.push(
            cat3(
                "let scalar_hints: Vec<(String, cutile_compiler::specialization::DivHint)> = vec![",
                hints.as_str(),
                "];",
            ),
        );
        out.push(
            "let const_grid = if self._const_grid { Some(self._grid) } else { None };".to_owned(),
        );
        out.push("let compile_options = std::mem::take(&mut self._compile_options);".to_owned());
        out.push(
            "let (function, validator) = self.compile(ctx, __module_ast_self, module_name, function_name, function_entry, function_generics, stride_args, spec_args.clone(), scalar_hints, const_grid, compile_options)?;".to_owned(),
        );
        assert(texts(out@) =~= self.model().compile_stmts());
        out
    }

    fn launch_stmts(&self) -> (r: Vec<String>)
        requires
            self.wf(),
        ensures
            texts(r@) == self.model().launch_stmts(),
    {
        let grids = join(&make_grid_exprs(self.codes), ",");
        let fields = make_recovered_fields(self.args, self.params);
        let tuple = to_tuple_string(fields.as_slice());
        let mut out: Vec<String> = Vec::new();
        out.push(
            cat3(
                "let launch_grid: (u32, u32, u32) = self.infer_launch_grid(&[",
                grids.as_str(),
                "])?;",
            ),
        );
        out.push(
            "kernel_launch.set_launch_config(LaunchConfig { grid_dim: launch_grid, block_dim: (1, 1, 1), shared_mem_bytes: 0 });".to_owned(),
        );
        out.push("kernel_launch.execute(ctx)?;".to_owned());
        out.push(cat3("return Ok(", tuple.as_str(), ");"));
        assert(texts(out@) =~= self.model().launch_stmts());
        out
    }

    fn execute_method(&self, stored: &str) -> (r: String)
        requires
            self.wf(),
            stored@ == self.model().stored_args(),
        ensures
            r@ == self.model().execute_method(),
    {
        let mut stmts = self.init_stmts(stored);
        append_all(&mut stmts, &self.compile_stmts());
        append_all(&mut stmts, &make_validator_exprs(self.codes));
        let ghost before = texts(stmts@);
        push_text(
            &mut stmts,
            "let mut kernel_launch = AsyncKernelLaunch::new(function.clone());".to_owned(),
        );
        assert(texts(stmts@) =~= before + seq![
            "let mut kernel_launch = AsyncKernelLaunch::new(function.clone());"@,
        ]);
        append_all(&mut stmts, &make_builder_stmts(self.codes));
        append_all(&mut stmts, &self.launch_stmts());
        let body = join(&stmts, " ");
        cat3(
            "unsafe fn execute(mut self, ctx: &ExecutionContext) -> Result<<Self as DeviceOp>::Output, DeviceError> { ",
            body.as_str(),
            " }",
        )
    }

    fn struct_impls(&self, stored: &str, returned: &str) -> (r: String)
        requires
            self.wf(),
            stored@ == self.model().stored_args(),
            returned@ == self.model().returned_args(),
        ensures
            r@ == self.model().struct_impls(),
    {
        let generics = self.struct_generics(stored);
        let ty = self.struct_type();
        let method = self.execute_method(stored);
        let head = cat7(
            "impl ",
            generics.as_str(),
            " DeviceOp for ",
            ty.as_str(),
            " { type Output = ",
            returned,
            "; ",
        );
        let tail = cat6(
            method.as_str(),
            " } impl ",
            generics.as_str(),
            " GraphNode for ",
            ty.as_str(),
            " {}",
        );
        cat2(head.as_str(), tail.as_str())
    }

    fn unsafe_text(&self) -> (r: &'static str)
        ensures
            r@ == self.model().unsafe_text(),
    {
        if self.is_unsafe { "unsafe " } else { "" }
    }

    fn apply_fn(&self) -> (r: String)
        requires
            self.wf(),
        ensures
            r@ == self.model().apply_fn(),
    {
        let concrete = to_tuple_string(make_concrete_types(self.args).as_slice());
        let mut args = self.generics.get_generic_args();
        append_all(&mut args, &make_input_types(self.args));
        append_all(&mut args, &make_output_types(self.args));
        let ghost before = texts(args@);
        push_text(&mut args, cat3("impl DeviceOp<Output=", concrete.as_str(), ">"));
        assert(texts(args@) =~= before + seq!["impl DeviceOp<Output="@ + concrete@ + ">"@]);
        let angle = print_angle(&args);
        let launcher = self.names.launcher_name;
        let ty = cat3(launcher, " ", angle.as_str());
        let generics = print_generics(&self.generics.get_required_generics());
        let head = cat7(
            "pub ",
            self.unsafe_text(),
            "fn ",
            self.names.apply_name,
            generics.as_str(),
            "(input: ",
            concrete.as_str(),
        );
        let tail = cat5(") -> ", ty.as_str(), " { return ", launcher, "::launch(value(input)); }");
        cat2(head.as_str(), tail.as_str())
    }

    fn direct_stmts(&self) -> (r: Vec<String>)
        requires
            self.wf(),
        ensures
            texts(r@) == self.model().direct_stmts(),
    {
        let mut stmts = make_direct_bindings(self.args);
        let names = make_binding_names(self.args);
        append_all(&mut stmts, &zip_and_then_flatten(names.as_slice(), "input", false));
        let ghost before = texts(stmts@);
        push_text(
            &mut stmts,
            cat3("return ", self.names.launcher_name, "::launch(input);"),
        );
        assert(texts(stmts@) =~= before + seq![
            "return "@ + self.names@.launcher_name + "::launch(input);"@,
        ]);
        stmts
    }

    fn direct_fn(&self) -> (r: String)
        requires
            self.wf(),
        ensures
            r@ == self.model().direct_fn(),
    {
        let stored = to_tuple_string(make_stored_types(self.args).as_slice());
        let mut args = self.generics.get_generic_args();
        append_all(&mut args, &make_input_slots(self.args));
        append_all(&mut args, &make_output_slots(self.args));
        let ghost before = texts(args@);
        push_text(&mut args, cat3("impl DeviceOp<Output=", stored.as_str(), ">"));
        assert(texts(args@) =~= before + seq!["impl DeviceOp<Output="@ + stored@ + ">"@]);
        let angle = print_angle(&args);
        let ty = cat3(self.names.launcher_name, " ", angle.as_str());
        let mut params = self.generics.get_required_generics();
        append_all(&mut params, &make_direct_params(self.args));
        let generics = print_generics(&params);
        let inputs = join(&make_direct_inputs(self.args), ", ");
        assert(self.model().codes.len() == self.codes@.len());
        let preds = if self.codes.len() == 0 {
            "".to_owned()
        } else {
            let list = join(&make_direct_preds(self.args), " , ");
            cat2(" where ", list.as_str())
        };
        let body = join(&self.direct_stmts(), " ");
        let head = cat7(
            "pub ",
            self.unsafe_text(),
            "fn ",
            self.names.public_name,
            generics.as_str(),
            "(",
            inputs.as_str(),
        );
        let tail = cat6(") -> ", ty.as_str(), preds.as_str(), " { ", body.as_str(), " }");
        cat2(head.as_str(), tail.as_str())
    }
}

// ---------------------------------------------------------------------------
// Generation
// ---------------------------------------------------------------------------

/// A kernel entry point: its parameters and its generic parameters, each of these with the
/// type of a constant, or with none for a type parameter.
#[derive(Debug)]
pub struct KernelEntry {
    pub is_unsafe: bool,
    pub params: Vec<KernelParam>,
    pub generics: Vec<(String, Option<Type>)>,
}

pub struct KernelEntryS {
    pub is_unsafe: bool,
    pub params: Seq<KernelParamS>,
    pub generics: RequiredGenericsS,
}

impl View for KernelEntry {
    type V = KernelEntryS;

    open spec fn view(&self) -> KernelEntryS {
        KernelEntryS {
            is_unsafe: self.is_unsafe,
            params: views(self.params@),
            generics: RequiredGenericsS::of(names_of(self.generics@), types_of(self.generics@)),
        }
    }
}

/// The generics of a kernel after all its parameters, and their code.
pub open spec fn entry_code(entry: KernelEntryS) -> Result<ParamsCodeS, ErrorS> {
    params_code(entry.generics, entry.params, entry.is_unsafe, seq![], 0)
}

fn clone_generics(v: &Vec<(String, Option<Type>)>) -> (r: Vec<(String, Option<Type>)>)
    ensures
        names_of(r@) == names_of(v@),
        types_of(r@) == types_of(v@),
{
    let mut out: Vec<(String, Option<Type>)> = Vec::new();
    let mut i: usize = 0;
    while i < v.len()
        invariant
            i <= v@.len(),
            out@.len() == i,
            forall|j: int| 0 <= j < i ==> (#[trigger] out@[j]).0@ == v@[j].0@,
            forall|j: int| 0 <= j < i ==> opt_type((#[trigger] out@[j]).1) == opt_type(v@[j].1),
        decreases v@.len() - i,
    {
        let ty: Option<Type> = match &v[i].1 {
            Some(t) => Some(clone_type(t)),
            None => None,
        };
        out.push((v[i].0.clone(), ty));
        i = i + 1;
    }
    assert(names_of(out@) =~= names_of(v@));
    assert(types_of(out@) =~= types_of(v@));
    out
}

/// What is wrong with the parameters of a kernel, if anything: the error with which no launcher
/// is generated for it.
pub fn entry_fault(item: &KernelEntry) -> (r: Option<Error>)
    requires
        params_are_named(item@.params),
    ensures
        match r {
            Some(e) => entry_code(item@) == Err::<ParamsCodeS, ErrorS>(e@),
            None => entry_code(item@) is Ok,
        },
{
    let mut generics = RequiredGenerics::new(clone_generics(&item.generics));
    match code_params(&mut generics, &item.params, item.is_unsafe) {
        Ok(_) => None,
        Err(e) => Some(e),
    }
}

/// What the launcher of a kernel is written from.
pub open spec fn launcher_of(entry: KernelEntryS, names: LauncherNamesS) -> Result<
    LauncherS,
    ErrorS,
> {
    match entry_code(entry) {
        Err(e) => Err(e),
        Ok(c) => Ok(
            LauncherS {
                names,
                is_unsafe: entry.is_unsafe,
                params: param_names(entry.params),
                generics: c.generics,
                codes: c.codes,
            },
        ),
    }
}

/// Generates the complete launcher code for a GPU kernel.
///
/// The result holds the state of the generic parameters, the types of the arguments as they
/// are stored and as they are returned, the source of the launcher (the impls of the launcher
/// struct, the function that takes a tuple of arguments and the public launcher), and the
/// metadata of the tensor parameters.
///
/// A value whose type looks like a partitioned tensor is left out, unless the kernel is refused
/// anyway ([`entry_fault`]).
///
/// - `item`: the kernel
/// - `module_name`: name of the module containing the kernel
/// - `function_name`: name of the kernel function
/// - `function_entry_name`: entry point name for the kernel
/// - `launcher_name`: name for the generated launcher struct
/// - `naming`: names for the generated functions
pub fn generate_kernel_launcher(
    item: KernelEntry,
    module_name: &str,
    function_name: &str,
    function_entry_name: &str,
    launcher_name: &str,
    _launcher_args_name: &str,
    naming: &KernelNaming,
) -> (r: Result<(RequiredGenerics, (String, String), String, KernelInputInfo), Error>)
    requires
        params_are_named(item@.params),
        entry_code(item@) is Ok ==> params_are_plain(item@.params),
    ensures
        match launcher_of(
            item@,
            LauncherNamesS {
                module_name: module_name@,
                function_name: function_name@,
                function_entry_name: function_entry_name@,
                launcher_name: launcher_name@,
                apply_name: naming.apply_name@,
                public_name: naming.public_name@,
            },
        ) {
            Ok(l) => r matches Ok(x) && {
                &&& x.0@ == l.generics
                &&& x.1.0@ == l.stored_args()
                &&& x.1.1@ == l.returned_args()
                &&& x.2@ == l.text()
                &&& x.3@ == input_info(l.args(), l.params)
            },
            Err(x) => r matches Err(e) && e@ == x,
        },
{
    let params = make_param_names(&item.params);
    let mut generics = RequiredGenerics::new(item.generics);
    let codes = match code_params(&mut generics, &item.params, item.is_unsafe) {
        Ok(x) => x,
        Err(e) => {
            return Err(e);
        },
    };
    let args = number_args(&codes);
    let names = LauncherNames {
        module_name,
        function_name,
        function_entry_name,
        launcher_name,
        apply_name: naming.apply_name.as_str(),
        public_name: naming.public_name.as_str(),
    };
    let launcher = Launcher {
        names: &names,
        is_unsafe: item.is_unsafe,
        params: &params,
        generics: &generics,
        codes: &codes,
        args: &args,
    };
    let stored = launcher.stored_args();
    let returned = launcher.returned_args();
    let impls = launcher.struct_impls(stored.as_str(), returned.as_str());
    let apply = launcher.apply_fn();
    let direct = launcher.direct_fn();
    let source = cat5(impls.as_str(), "\n", apply.as_str(), "\n", direct.as_str());
    let info = make_input_info(&args, &params);
    Ok((generics, (stored, returned), source, info))
}

// ---------------------------------------------------------------------------
// The alias of the argument tuple
// ---------------------------------------------------------------------------

/// The name of the alias with its generic arguments, where it has any.
pub open spec fn alias_type(name: Text, generic_args: Seq<Text>) -> Text {
    if generic_args.len() == 0 { name } else { name + " "@ + angle_text(generic_args) }
}

/// Generates a type alias for kernel launcher arguments: the alias as a type (e.g.
/// `FooKernelArgs<T, N>`), and its definition as the tuple of all argument types.
pub fn generate_launcher_arg_types(
    generic_args: &Vec<String>,
    arg_tys: &Vec<String>,
    _launcher_name: &str,
    launcher_args_name: &str,
) -> (r: (String, String))
    ensures
        r.0@ == alias_type(launcher_args_name@, texts(generic_args@)),
        r.1@ == "type "@ + alias_type(launcher_args_name@, texts(generic_args@)) + " = "@
            + tuple_text(texts(arg_tys@)) + ";"@,
{
    let ty = if generic_args.len() == 0 {
        launcher_args_name.to_owned()
    } else {
        let angle = print_angle(generic_args);
        cat3(launcher_args_name, " ", angle.as_str())
    };
    let tuple = to_tuple_string(arg_tys.as_slice());
    let def = cat5("type ", ty.as_str(), " = ", tuple.as_str(), ";");
    (ty, def)
}

} // verus!
