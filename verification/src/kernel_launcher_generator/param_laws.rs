//! What holds of the code for each parameter, and of how a launcher puts it together.
use super::combinators::{cons_text, flatten_stmts, tuple_text, zip_stmts};
use super::generics::{infer_args, RequiredGenericsS};
use super::inference_laws::{law_number_ends_with_its_digits, shape_of};
use super::launcher::{
    binding_names, builder_stmts, concrete_types, direct_bindings, direct_inputs, direct_params,
    direct_preds, grid_exprs, input_bound, input_bounds, input_count, input_param, input_params,
    input_slot, input_slots, input_type, input_types, launch_arg, launch_args, launcher_of,
    member_types, output_bound, output_bounds, output_count, output_param, output_params,
    output_slot, output_slots, output_type, output_types, param_step, params_code, recovered_fields,
    scalar_hint_exprs, spec_exprs, stored_types, stride_exprs, validator_exprs, ArgClassS,
    KernelEntryS, LauncherNamesS, LauncherS, ParamCodeS,
};
use super::tensors::validator;
use crate::kernel_params::{KernelParamS, KernelParamTypeS};
use crate::print::angle_text;
use crate::text::{decimal_text, filled, filled_count, join_text, lemma_filled_at, Text};
use vstd::prelude::*;

verus! {

// ---------------------------------------------------------------------------
// Shape checks
// ---------------------------------------------------------------------------

/// What a shape check starts with, up to the index of the parameter.
pub open spec fn check_head() -> Text {
    "{ let ValidParamType::Tensor(tensor_validator) = &validator.params["@
}

/// `text` takes the expected shape of entry `i` of the validator's parameters, and of no other
/// entry, before anything else.
pub open spec fn checks_entry(text: Text, i: nat, rest: Text) -> bool {
    text == check_head() + (decimal_text(i)
        + ("usize] else { panic!(\"Unexpected validator type {:#?}\", &validator.params["@
        + decimal_text(i) + ("usize]); }; let valid_shape = &tensor_validator.shape; "@ + rest)))
}

/// The shape check of the parameter of index `i` reads entry `i` of the validator's parameters. It
/// compares with the given shape, of the partition for a tensor that is written to and of the
/// tensor itself for one that is read: the ranks must be the same, and the shapes too, except
/// where the expected shape of a tensor that is read is open.
pub proof fn law_check_reads_its_entry(i: nat, var: Text, mutable: bool)
    ensures
        exists|rest: Text| #[trigger] checks_entry(validator(i, var, mutable), i, rest),
        checks_entry(validator(i, var, mutable), i, check_body(var, mutable)),
{
    let rest = check_body(var, mutable);
    let v = validator(i, var, mutable);
    let want = check_head() + (decimal_text(i)
        + ("usize] else { panic!(\"Unexpected validator type {:#?}\", &validator.params["@
        + decimal_text(i) + ("usize]); }; let valid_shape = &tensor_validator.shape; "@ + rest)));
    if mutable {
        reveal_strlit("let given_shape: Vec<i32> = KernelOutputStored::partition_shape_as_i32(&");
        reveal_strlit("let given_shape: Vec<i32> = ");
        reveal_strlit("KernelOutputStored::partition_shape_as_i32(&");
        reveal_strlit("); ");
        reveal_strlit(")");
        reveal_strlit("; ");
        assert("let given_shape: Vec<i32> = KernelOutputStored::partition_shape_as_i32(&"@
            =~= "let given_shape: Vec<i32> = "@ + "KernelOutputStored::partition_shape_as_i32(&"@);
        assert("); "@ =~= ")"@ + "; "@);
        assert(v =~= want);
    } else {
        reveal_strlit(".shape(); ");
        reveal_strlit(".shape()");
        reveal_strlit("; ");
        assert(".shape(); "@ =~= ".shape()"@ + "; "@);
        assert(v =~= want);
    }
    assert(checks_entry(v, i, rest));
}

/// What a shape check does once it has the expected shape.
pub open spec fn check_body(var: Text, mutable: bool) -> Text {
    let name = crate::grammar::string_literal(var);
    let ranks =
        "kernel_launch_assert(valid_shape.len() == given_shape.len(), format!(\"{} rank mismatch: Expected {}, got {}\", "@
        + name + ", valid_shape.len(), given_shape.len()).as_str())?; "@;
    if mutable {
        "let given_shape: Vec<i32> = "@ + shape_of(var, true) + "; "@ + ranks
            + ("kernel_launch_assert(valid_shape == &given_shape, format!(\"{} partition shape mismatch. Expected {:?}, got {:?}\", "@
            + name + ", valid_shape, given_shape).as_str())?; }"@)
    } else {
        "let given_shape = "@ + shape_of(var, false) + "; "@ + ranks
            + ("let valid_shape_mixed = zip(valid_shape, given_shape).map(|(&expected, &given)|{ if expected == -1 { given } else { expected } }).collect::<Vec<_>>(); let pred = zip(&valid_shape_mixed, given_shape).all(|(&expected, &given)|{ expected == given }); kernel_launch_assert(pred, format!(\"{} partition shape mismatch. Expected {:?}, got {:?}\", "@
            + name + ", valid_shape_mixed, given_shape).as_str())?; }"@)
    }
}

/// Shape checks that read different entries differ.
pub proof fn law_checks_differ(i: nat, s: Text, p: Text, j: nat, t: Text, q: Text)
    requires
        checks_entry(s, i, p),
        checks_entry(t, j, q),
        s == t,
    ensures
        i == j,
{
    let tail = "usize] else { panic!(\"Unexpected validator type {:#?}\", &validator.params["@;
    let mid = "usize]); }; let valid_shape = &tensor_validator.shape; "@;
    reveal_strlit("usize] else { panic!(\"Unexpected validator type {:#?}\", &validator.params[");
    let a = tail + decimal_text(i) + (mid + p);
    let b = tail + decimal_text(j) + (mid + q);
    assert(a[0] == 'u' && b[0] == 'u');
    let n = check_head().len() as int;
    assert(s.skip(n) =~= decimal_text(i) + a);
    assert(t.skip(n) =~= decimal_text(j) + b);
    law_number_ends_with_its_digits(i, a, j, b);
}

// ---------------------------------------------------------------------------
// The code for one parameter
// ---------------------------------------------------------------------------

/// The code for the parameter `p` at index `i` is about that parameter: every statement of it
/// reads the variable of that name, a shape check reads the entry of that index, and a tensor
/// keeps its element type.
pub open spec fn code_is_about(c: ParamCodeS, p: KernelParamS, i: nat) -> bool {
    let label = "(\""@ + p.name + "\".to_string(), "@;
    match p.ty {
        KernelParamTypeS::Reference { mutable: true, generic_args, .. } => {
            &&& c.class == ArgClassS::Output {
                elem: generic_args[0]->Type_0->Path_0.segments.last().ident,
            }
            &&& c.stride == Some(label + "KernelOutputStored::strides_hint(&"@ + p.name + "))"@)
            &&& c.spec == Some(label + "KernelOutputStored::spec(&"@ + p.name + ").clone())"@)
            &&& c.grid == Some("KernelOutputStored::grid(&"@ + p.name + ")?"@)
            &&& c.builder == "KernelOutputStored::push_kernel_args(&"@ + p.name
                + ", &mut kernel_launch);"@
            &&& c.validator matches Some(v) && checks_entry(v, i, check_body(p.name, true))
        },
        KernelParamTypeS::Reference { mutable: false, generic_args, .. } => {
            &&& c.class == ArgClassS::Input {
                elem: generic_args[0]->Type_0->Path_0.segments.last().ident,
            }
            &&& c.stride == Some(
                label + p.name
                    + ".spec().stride_one.iter().map(|&is_one| if is_one { 1 } else { -1 }).collect::<Vec<i32>>())"@,
            )
            &&& c.spec == Some(label + p.name + ".spec().clone())"@)
            &&& c.grid is None
            &&& c.builder == "KernelInputStored::push_kernel_args(&"@ + p.name
                + ", &mut kernel_launch);"@
            &&& c.validator matches Some(v) && checks_entry(v, i, check_body(p.name, false))
        },
        KernelParamTypeS::Path { name, is_integer, .. } => {
            &&& c.class == ArgClassS::Plain { ty: name }
            &&& c.scalar_hint == if is_integer {
                Some(
                    label + "cutile_compiler::specialization::DivHint::from_value("@ + p.name
                        + " as i32))"@,
                )
            } else {
                None
            }
            &&& c.builder == "kernel_launch.push_arg("@ + p.name + ");"@
            &&& c.validator is None
        },
        KernelParamTypeS::Ptr { target, .. } => {
            &&& c.class == ArgClassS::Plain {
                ty: "DevicePointer<"@ + target->Some_0.1 + ">"@,
            }
            &&& c.builder == "unsafe { kernel_launch.push_device_ptr("@ + p.name
                + ".cu_deviceptr()); }"@
            &&& c.validator is None
        },
        KernelParamTypeS::Other { .. } => false,
    }
}

proof fn lemma_step_is_about(s: RequiredGenericsS, i: nat, p: KernelParamS, is_unsafe: bool)
    ensures
        param_step(s, i, p, is_unsafe).code matches Ok(c) ==> code_is_about(c, p, i),
{
    if let Ok(c) = param_step(s, i, p, is_unsafe).code {
        match p.ty {
            KernelParamTypeS::Reference { mutable, .. } => {
                law_check_reads_its_entry(i, p.name, mutable);
            },
            KernelParamTypeS::Path { is_integer, .. } => {
                if is_integer {
                    lemma_hint(p.name);
                }
            },
            _ => {},
        }
    }
}

proof fn lemma_hint(name: Text)
    ensures
        super::launcher::div_hint(name) == "(\""@ + name + "\".to_string(), "@
            + "cutile_compiler::specialization::DivHint::from_value("@ + name + " as i32))"@,
{
    reveal_strlit("\".to_string(), cutile_compiler::specialization::DivHint::from_value(");
    reveal_strlit("\".to_string(), ");
    reveal_strlit("cutile_compiler::specialization::DivHint::from_value(");
    assert("\".to_string(), cutile_compiler::specialization::DivHint::from_value("@
        =~= "\".to_string(), "@ + "cutile_compiler::specialization::DivHint::from_value("@);
    assert(super::launcher::div_hint(name) =~= "(\""@ + name + "\".to_string(), "@
        + "cutile_compiler::specialization::DivHint::from_value("@ + name + " as i32))"@);
}

proof fn lemma_codes_are_about(
    s: RequiredGenericsS,
    params: Seq<KernelParamS>,
    is_unsafe: bool,
    done: Seq<ParamCodeS>,
    i: nat,
)
    requires
        done.len() == i,
        i <= params.len(),
        forall|k: int| 0 <= k < i ==> code_is_about(#[trigger] done[k], params[k], k as nat),
    ensures
        params_code(s, params, is_unsafe, done, i) matches Ok(c) ==> c.codes.len() == params.len()
            && forall|k: int|
            0 <= k < params.len() ==> code_is_about(#[trigger] c.codes[k], params[k], k as nat),
    decreases params.len() - i,
{
    if i < params.len() {
        let step = param_step(s, i, params[i as int], is_unsafe);
        lemma_step_is_about(s, i, params[i as int], is_unsafe);
        if step.code is Ok {
            let next = done.push(step.code->Ok_0);
            assert forall|k: int| 0 <= k < i + 1 implies code_is_about(
                #[trigger] next[k],
                params[k],
                k as nat,
            ) by {
                if k < i {
                    assert(next[k] == done[k]);
                }
            }
            lemma_codes_are_about(step.generics, params, is_unsafe, next, i + 1);
        }
    }
}

/// The code of a launcher at index `i` is about the parameter at index `i`; so the shape checks of
/// different parameters read different entries.
pub proof fn law_code_is_about_its_parameter(entry: KernelEntryS, names: LauncherNamesS, i: int)
    requires
        launcher_of(entry, names) is Ok,
        0 <= i < entry.params.len(),
    ensures
        code_is_about(launcher_of(entry, names)->Ok_0.codes[i], entry.params[i], i as nat),
        launcher_of(entry, names)->Ok_0.params[i] == entry.params[i].name,
        launcher_of(entry, names)->Ok_0.is_unsafe == entry.is_unsafe,
        launcher_of(entry, names)->Ok_0.names == names,
        forall|j: int|
            0 <= j < entry.params.len() && j != i && #[trigger] entry.params[j].ty is Reference
                && entry.params[i].ty is Reference ==> launcher_of(
                entry,
                names,
            )->Ok_0.codes[j].validator != launcher_of(entry, names)->Ok_0.codes[i].validator,
{
    lemma_codes_are_about(entry.generics, entry.params, entry.is_unsafe, seq![], 0);
    let codes = launcher_of(entry, names)->Ok_0.codes;
    assert forall|j: int|
        0 <= j < entry.params.len() && j != i && #[trigger] entry.params[j].ty is Reference
            && entry.params[i].ty is Reference implies codes[j].validator != codes[i].validator by {
        assert(code_is_about(codes[j], entry.params[j], j as nat));
        assert(code_is_about(codes[i], entry.params[i], i as nat));
        let s = codes[i].validator->Some_0;
        let t = codes[j].validator->Some_0;
        let p = check_body(entry.params[i].name, entry.params[i].ty->mutable);
        let q = check_body(entry.params[j].name, entry.params[j].ty->mutable);
        assert(checks_entry(s, i as nat, p));
        assert(checks_entry(t, j as nat, q));
        if s == t {
            law_checks_differ(i as nat, s, p, j as nat, t, q);
        }
    }
}

// ---------------------------------------------------------------------------
// Putting a launcher together
// ---------------------------------------------------------------------------

/// A slot for each argument, filled for the inputs only, or for the outputs only.
pub open spec fn filled_for(codes: Seq<ParamCodeS>, slots: Seq<Option<Text>>, inputs: bool) -> bool {
    slots.len() == codes.len() && forall|i: int|
        0 <= i < codes.len() ==> ((#[trigger] slots[i]) is Some <==> if inputs {
            codes[i].class is Input
        } else {
            codes[i].class is Output
        })
}

proof fn lemma_counts(codes: Seq<ParamCodeS>, slots: Seq<Option<Text>>, inputs: bool, k: nat)
    requires
        k <= codes.len(),
        filled_for(codes, slots, inputs),
    ensures
        filled_count(slots, k) == if inputs {
            input_count(codes, k)
        } else {
            output_count(codes, k)
        },
    decreases k,
{
    if k > 0 {
        lemma_counts(codes, slots, inputs, (k - 1) as nat);
        assert(slots[k - 1] is Some <==> if inputs {
            codes[k - 1].class is Input
        } else {
            codes[k - 1].class is Output
        });
    }
}

proof fn lemma_slot_at(codes: Seq<ParamCodeS>, slots: Seq<Option<Text>>, inputs: bool, i: int)
    requires
        0 <= i < codes.len(),
        filled_for(codes, slots, inputs),
    ensures
        filled(slots, codes.len()).len() == if inputs {
            input_count(codes, codes.len())
        } else {
            output_count(codes, codes.len())
        },
        slots[i] is Some ==> {
            let n = if inputs { input_count(codes, i as nat) } else { output_count(codes, i as nat) };
            n < filled(slots, codes.len()).len() && filled(slots, codes.len())[n as int]
                == slots[i]->Some_0
        },
{
    lemma_filled_at(slots, codes.len());
    lemma_counts(codes, slots, inputs, codes.len());
    lemma_counts(codes, slots, inputs, i as nat);
}

/// The generic parameter that stands for parameter `i` of a kernel is the same in every list of a
/// launcher: where the struct declares `_Kn` with its bound, its type has `_Kn`, the tuple form
/// takes a shared tensor of that element type, and the direct form the slot that it declares for
/// argument `i`. For an output it is `_Pn`, after all inputs, and a partition.
pub proof fn law_generics_line_up(l: LauncherS, i: int)
    requires
        0 <= i < l.codes.len(),
    ensures
        ({
            let own = l.generics.generic_args().len();
            let inputs = input_count(l.codes, l.codes.len());
            &&& l.struct_generics().len() == l.struct_args().len()
            &&& l.apply_type_args().len() == l.struct_args().len()
            &&& l.launch_type_args().len() == l.struct_args().len()
            &&& forall|k: int|
                0 <= k < own ==> {
                    let name = #[trigger] l.generics.generic_args()[k];
                    &&& l.struct_generics()[k] == name + ": Send + DType"@
                    &&& l.struct_args()[k] == name
                    &&& l.apply_type_args()[k] == name
                    &&& l.launch_type_args()[k] == name
                    &&& l.generic_params()[k] == l.struct_generics()[k]
                }
            &&& l.codes[i].class matches ArgClassS::Input { elem } ==> {
                let n = input_count(l.codes, i as nat);
                let at = (own + n) as int;
                &&& n < inputs
                &&& l.struct_args()[at] == "_K"@ + decimal_text(n)
                &&& l.struct_generics()[at] == l.struct_args()[at] + ": KernelInput<"@ + elem + ">"@
                &&& l.apply_type_args()[at] == "Arc<tensor::Tensor<"@ + elem + ">>"@
                &&& l.launch_type_args()[at] == "_S"@ + decimal_text(i as nat)
            }
            &&& l.codes[i].class matches ArgClassS::Output { elem } ==> {
                let n = output_count(l.codes, i as nat);
                let at = (own + inputs + n) as int;
                &&& at < l.struct_args().len() - 1
                &&& l.struct_args()[at] == "_P"@ + decimal_text(n)
                &&& l.struct_generics()[at] == l.struct_args()[at] + ": KernelOutput<"@ + elem
                    + ">"@
                &&& l.apply_type_args()[at] == "tensor::Partition<tensor::Tensor<"@ + elem + ">>"@
                &&& l.launch_type_args()[at] == "_Q"@ + decimal_text(i as nat)
            }
            &&& l.struct_args().last() == "DI"@
            &&& l.struct_generics().last() == "DI: DeviceOp<Output="@ + l.stored_args() + ">"@
            &&& l.apply_type_args().last() == "impl DeviceOp<Output="@ + l.concrete_args() + ">"@
        }),
{
    let args = l.args();
    assert(args[i] == launch_arg(l.codes, i));
    lemma_input_lists(l.codes, i);
    lemma_output_lists(l.codes, i);
}

proof fn lemma_input_lists(codes: Seq<ParamCodeS>, i: int)
    requires
        0 <= i < codes.len(),
    ensures
        ({
            let args = launch_args(codes);
            let n = input_count(codes, i as nat) as int;
            let all = input_count(codes, codes.len());
            &&& input_params(args).len() == all
            &&& input_bounds(args).len() == all
            &&& input_types(args).len() == all
            &&& input_slots(args).len() == all
            &&& codes[i].class is Input ==> {
                &&& n < all
                &&& input_params(args)[n] == input_param(args[i])->Some_0
                &&& input_bounds(args)[n] == input_bound(args[i])->Some_0
                &&& input_types(args)[n] == input_type(args[i])->Some_0
                &&& input_slots(args)[n] == input_slot(args[i], i as nat)->Some_0
            }
        }),
{
    let args = launch_args(codes);
    assert forall|k: int| 0 <= k < codes.len() implies #[trigger] args[k] == launch_arg(
        codes,
        k,
    ) by {}
    lemma_slot_at(codes, Seq::new(args.len(), |k: int| input_param(args[k])), true, i);
    lemma_slot_at(codes, Seq::new(args.len(), |k: int| input_bound(args[k])), true, i);
    lemma_slot_at(codes, Seq::new(args.len(), |k: int| input_type(args[k])), true, i);
    lemma_slot_at(codes, Seq::new(args.len(), |k: int| input_slot(args[k], k as nat)), true, i);
}

proof fn lemma_output_lists(codes: Seq<ParamCodeS>, i: int)
    requires
        0 <= i < codes.len(),
    ensures
        ({
            let args = launch_args(codes);
            let n = output_count(codes, i as nat) as int;
            let all = output_count(codes, codes.len());
            &&& output_params(args).len() == all
            &&& output_bounds(args).len() == all
            &&& output_types(args).len() == all
            &&& output_slots(args).len() == all
            &&& codes[i].class is Output ==> {
                &&& n < all
                &&& output_params(args)[n] == output_param(args[i])->Some_0
                &&& output_bounds(args)[n] == output_bound(args[i])->Some_0
                &&& output_types(args)[n] == output_type(args[i])->Some_0
                &&& output_slots(args)[n] == output_slot(args[i], i as nat)->Some_0
            }
        }),
{
    let args = launch_args(codes);
    assert forall|k: int| 0 <= k < codes.len() implies #[trigger] args[k] == launch_arg(
        codes,
        k,
    ) by {}
    lemma_slot_at(codes, Seq::new(args.len(), |k: int| output_param(args[k])), false, i);
    lemma_slot_at(codes, Seq::new(args.len(), |k: int| output_bound(args[k])), false, i);
    lemma_slot_at(codes, Seq::new(args.len(), |k: int| output_type(args[k])), false, i);
    lemma_slot_at(codes, Seq::new(args.len(), |k: int| output_slot(args[k], k as nat)), false, i);
}

/// In every list that a launcher has by parameter, the entry of parameter `i` is about it: a
/// tensor is stored, recovered and given back through its own generic parameter and its element
/// type, and the direct form takes it as argument `i`, through the slot of that number; a plain
/// value is handed through.
pub proof fn law_lists_follow_the_parameters(l: LauncherS, i: int)
    requires
        0 <= i < l.codes.len(),
        l.params.len() == l.codes.len(),
    ensures
        ({
            let n = decimal_text(i as nat);
            let args = l.args();
            &&& direct_inputs(args)[i] == "arg"@ + n + ": "@ + ("_A"@ + n)
            &&& binding_names(args)[i] == "_di"@ + n
            &&& match l.codes[i].class {
                ArgClassS::Input { elem } => {
                    let own = "<"@ + ("_K"@ + decimal_text(input_count(l.codes, i as nat)))
                        + " as "@ + "KernelInput"@ + "<"@ + elem + ">>::"@;
                    let slot = "_S"@ + n;
                    &&& member_types(args, "Stored"@)[i] == own + "Stored"@
                    &&& member_types(args, "Returned"@)[i] == own + "Returned"@
                    &&& recovered_fields(args, l.params)[i] == own + "recover"@ + "("@ + l.params[i]
                        + ")"@
                    &&& concrete_types(args)[i] == "Arc<tensor::Tensor<"@ + elem + ">>"@
                    &&& stored_types(args)[i] == "<"@ + slot + " as "@ + "KernelInput"@ + "<"@ + elem
                        + ">>::"@ + "Stored"@
                    &&& direct_params(args)[i] == "_A"@ + n + " , "@ + slot
                    &&& direct_preds(args)[i] == "_A"@ + n + ": IntoDeviceOp<"@ + slot + "> , "@
                        + slot + ": KernelInput<"@ + elem + ">"@
                    &&& direct_bindings(args)[i] == "let "@ + ("_di"@ + n) + " = "@ + ("arg"@ + n)
                        + ".into_op()"@ + ".map(KernelInput::prepare);"@
                },
                ArgClassS::Output { elem } => {
                    let own = "<"@ + ("_P"@ + decimal_text(output_count(l.codes, i as nat)))
                        + " as "@ + "KernelOutput"@ + "<"@ + elem + ">>::"@;
                    let slot = "_Q"@ + n;
                    &&& member_types(args, "Stored"@)[i] == own + "Stored"@
                    &&& member_types(args, "Returned"@)[i] == own + "Returned"@
                    &&& recovered_fields(args, l.params)[i] == own + "recover"@ + "("@ + l.params[i]
                        + ")"@
                    &&& concrete_types(args)[i] == "tensor::Partition<tensor::Tensor<"@ + elem
                        + ">>"@
                    &&& stored_types(args)[i] == "<"@ + slot + " as "@ + "KernelOutput"@ + "<"@
                        + elem + ">>::"@ + "Stored"@
                    &&& direct_params(args)[i] == "_A"@ + n + " , "@ + slot
                    &&& direct_preds(args)[i] == "_A"@ + n + ": IntoDeviceOp<"@ + slot + "> , "@
                        + slot + ": KernelOutput<"@ + elem + ">"@
                    &&& direct_bindings(args)[i] == "let "@ + ("_di"@ + n) + " = "@ + ("arg"@ + n)
                        + ".into_op()"@ + ".map(KernelOutput::prepare);"@
                },
                ArgClassS::Plain { ty } => {
                    &&& member_types(args, "Stored"@)[i] == ty
                    &&& member_types(args, "Returned"@)[i] == ty
                    &&& recovered_fields(args, l.params)[i] == l.params[i]
                    &&& concrete_types(args)[i] == ty
                    &&& stored_types(args)[i] == ty
                    &&& direct_params(args)[i] == "_A"@ + n
                    &&& direct_preds(args)[i] == "_A"@ + n + ": IntoDeviceOp<"@ + ty + ">"@
                    &&& direct_bindings(args)[i] == "let "@ + ("_di"@ + n) + " = "@ + ("arg"@ + n)
                        + ".into_op()"@ + ";"@
                },
            }
        }),
{
    assert(l.args()[i] == launch_arg(l.codes, i));
}

/// A launch goes in this order: the input is executed and bound to the names of the parameters,
/// the kernel is compiled for its generics, strides, specializations and hints, every shape is
/// checked, every parameter is pushed in its order, the grid is set, and the kernel runs. Nothing
/// is pushed before every check has been made.
pub proof fn law_launch_order(l: LauncherS, i: int)
    requires
        0 <= i < l.codes.len(),
    ensures
        ({
            let e = l.execute_stmts();
            let checks = filled_count(validator_slots(l.codes), l.codes.len());
            let pushes = (13 + checks) as int;
            &&& e.len() == pushes + l.codes.len() + 4
            &&& e[0] == "let module_name = "@ + crate::grammar::string_literal(l.names.module_name)
                + ";"@
            &&& e[1] == "let function_name = "@ + crate::grammar::string_literal(
                l.names.function_name,
            ) + ";"@
            &&& e[2] == "let function_entry = "@ + crate::grammar::string_literal(
                l.names.function_entry_name,
            ) + ";"@
            &&& e[3] == "let input = self.input.take().unwrap();"@
            &&& e[4] == "let "@ + tuple_text(l.params) + ": "@ + l.stored_args()
                + " = input.execute(ctx)?;"@
            &&& e[5] == l.generics_stmt()
            &&& e[6] == "let stride_args: Vec<(String, Vec<i32>)> = vec!["@ + join_text(
                stride_exprs(l.codes),
                ","@,
            ) + "];"@
            &&& e[7] == "let spec_args = vec!["@ + join_text(spec_exprs(l.codes), ","@) + "];"@
            &&& e[8]
                == "let scalar_hints: Vec<(String, cutile_compiler::specialization::DivHint)> = vec!["@
                + join_text(scalar_hint_exprs(l.codes), ","@) + "];"@
            &&& e[9] == "let const_grid = if self._const_grid { Some(self._grid) } else { None };"@
            &&& e[10] == "let compile_options = std::mem::take(&mut self._compile_options);"@
            &&& e[11]
                == "let (function, validator) = self.compile(ctx, __module_ast_self, module_name, function_name, function_entry, function_generics, stride_args, spec_args.clone(), scalar_hints, const_grid, compile_options)?;"@
            &&& l.codes[i].validator matches Some(check) ==> {
                let at = 12 + filled_count(validator_slots(l.codes), i as nat);
                at < 12 + checks && e[at as int] == check
            }
            &&& e[pushes - 1] == "let mut kernel_launch = AsyncKernelLaunch::new(function.clone());"@
            &&& e[pushes + i] == l.codes[i].builder
            &&& e[e.len() - 4]
                == "let launch_grid: (u32, u32, u32) = self.infer_launch_grid(&["@ + join_text(
                grid_exprs(l.codes),
                ","@,
            ) + "])?;"@
            &&& e[e.len() - 3]
                == "kernel_launch.set_launch_config(LaunchConfig { grid_dim: launch_grid, block_dim: (1, 1, 1), shared_mem_bytes: 0 });"@
            &&& e[e.len() - 2] == "kernel_launch.execute(ctx)?;"@
            &&& e[e.len() - 1] == "return Ok("@ + tuple_text(recovered_fields(l.args(), l.params))
                + ");"@
        }),
{
    let slots = validator_slots(l.codes);
    lemma_filled_at(slots, l.codes.len());
    assert(slots[i] == l.codes[i].validator);
    let checks = validator_exprs(l.codes);
    let a = l.init_stmts() + l.compile_stmts();
    let b = a + checks;
    let c = b + seq!["let mut kernel_launch = AsyncKernelLaunch::new(function.clone());"@];
    let d = c + builder_stmts(l.codes);
    let e = l.execute_stmts();
    assert(e == d + l.launch_stmts());
    assert(builder_stmts(l.codes)[i] == l.codes[i].builder);
    assert(d[c.len() + i] == l.codes[i].builder);
}

pub open spec fn validator_slots(codes: Seq<ParamCodeS>) -> Seq<Option<Text>> {
    Seq::new(codes.len(), |i: int| codes[i].validator)
}

/// The expressions of the tensors stand in the order of the parameters: that of parameter `i`
/// stands behind those of the tensors before it.
pub proof fn law_expressions_follow_the_parameters(codes: Seq<ParamCodeS>, i: int)
    requires
        0 <= i < codes.len(),
    ensures
        codes[i].stride matches Some(t) ==> {
            let n = filled_count(Seq::new(codes.len(), |k: int| codes[k].stride), i as nat);
            n < stride_exprs(codes).len() && stride_exprs(codes)[n as int] == t
        },
        codes[i].spec matches Some(t) ==> {
            let n = filled_count(Seq::new(codes.len(), |k: int| codes[k].spec), i as nat);
            n < spec_exprs(codes).len() && spec_exprs(codes)[n as int] == t
        },
        codes[i].scalar_hint matches Some(t) ==> {
            let n = filled_count(Seq::new(codes.len(), |k: int| codes[k].scalar_hint), i as nat);
            n < scalar_hint_exprs(codes).len() && scalar_hint_exprs(codes)[n as int] == t
        },
        codes[i].grid matches Some(t) ==> {
            let n = filled_count(Seq::new(codes.len(), |k: int| codes[k].grid), i as nat);
            n < grid_exprs(codes).len() && grid_exprs(codes)[n as int] == t
        },
{
    let strides = Seq::new(codes.len(), |k: int| codes[k].stride);
    let specs = Seq::new(codes.len(), |k: int| codes[k].spec);
    let hints = Seq::new(codes.len(), |k: int| codes[k].scalar_hint);
    let grids = Seq::new(codes.len(), |k: int| codes[k].grid);
    lemma_filled_at(strides, codes.len());
    lemma_filled_at(specs, codes.len());
    lemma_filled_at(hints, codes.len());
    lemma_filled_at(grids, codes.len());
    assert(strides[i] == codes[i].stride);
    assert(specs[i] == codes[i].spec);
    assert(hints[i] == codes[i].scalar_hint);
    assert(grids[i] == codes[i].grid);
}

/// Zipping puts every input into the pair of the next, the last input first: the statements bind
/// the inputs from the last to the first, each together with what is bound so far.
pub proof fn law_inputs_are_zipped_from_the_last(inputs: Seq<Text>, var: Text, wrap: bool, k: nat)
    requires
        0 < k <= inputs.len(),
    ensures
        ({
            let s = zip_stmts(inputs, var, wrap, inputs.len());
            let from = inputs[inputs.len() - k];
            let input = if wrap { "value("@ + from + ")"@ } else { from };
            &&& s.len() == inputs.len()
            &&& s[k - 1] == if k == 1 {
                "let "@ + var + " = "@ + input + ";"@
            } else {
                "let "@ + var + " = zip!("@ + input + ", "@ + var + ");"@
            }
        }),
{
    lemma_zip_at(inputs, var, wrap, inputs.len(), k);
}

proof fn lemma_zip_at(inputs: Seq<Text>, var: Text, wrap: bool, n: nat, k: nat)
    requires
        0 < k <= n <= inputs.len(),
    ensures
        ({
            let s = zip_stmts(inputs, var, wrap, n);
            let from = inputs[inputs.len() - k];
            let input = if wrap { "value("@ + from + ")"@ } else { from };
            &&& s.len() == n
            &&& s[k - 1] == if k == 1 {
                "let "@ + var + " = "@ + input + ";"@
            } else {
                "let "@ + var + " = zip!("@ + input + ", "@ + var + ");"@
            }
        }),
    decreases n,
{
    if n > 1 {
        lemma_zip_at(inputs, var, wrap, (n - 1) as nat, if k < n { k } else { 1 });
    }
}

/// Flattening takes apart what zipping put together: the first input stands beside all the others,
/// and they beside each other in the same way; the flat tuple has the same inputs in the same
/// order.
pub proof fn law_flattening_follows_zipping(inputs: Seq<Text>, var: Text, wrap: bool)
    ensures
        cons_text(seq![]) == "()"@,
        inputs.len() == 1 ==> cons_text(inputs) == inputs[0],
        inputs.len() > 1 ==> cons_text(inputs) == "("@ + inputs[0] + ", "@ + cons_text(
            inputs.drop_first(),
        ) + ")"@,
        inputs.len() == 0 ==> flatten_stmts(inputs, var, wrap) == seq![
            "let "@ + var + " = value(());"@,
        ],
        inputs.len() > 0 ==> {
            let s = flatten_stmts(inputs, var, wrap);
            &&& s.len() == inputs.len() + 1
            &&& s.drop_last() == zip_stmts(inputs, var, wrap, inputs.len())
            &&& s.last() == "let "@ + var + " = "@ + var + ".then(|"@ + cons_text(inputs)
                + "| { value("@ + ("("@ + join_text(inputs, ", "@) + ",)"@) + ") });"@
        },
{
    if inputs.len() > 0 {
        law_inputs_are_zipped_from_the_last(inputs, var, wrap, 1);
        assert(flatten_stmts(inputs, var, wrap).drop_last() =~= zip_stmts(
            inputs,
            var,
            wrap,
            inputs.len(),
        ));
    }
}

/// The struct of a launcher is a device operation over what it stores, which gives back what it
/// is given; both of its impls have the same generics and are for the same type.
pub proof fn law_launcher_impls(l: LauncherS)
    ensures
        ({
            let generics = angle_text(l.struct_generics());
            let ty = l.names.launcher_name + " "@ + angle_text(l.struct_args());
            &&& l.stored_args() == tuple_text(member_types(l.args(), "Stored"@))
            &&& l.returned_args() == tuple_text(member_types(l.args(), "Returned"@))
            &&& l.struct_impls() == "impl "@ + generics + " DeviceOp for "@ + ty
                + " { type Output = "@ + l.returned_args() + "; "@ + (
            "unsafe fn execute(mut self, ctx: &ExecutionContext) -> Result<<Self as DeviceOp>::Output, DeviceError> { "@
                + join_text(l.execute_stmts(), " "@) + " }"@ + " } impl "@ + generics
                + " GraphNode for "@ + ty + " {}"@)
            &&& l.text() == l.struct_impls() + "\n"@ + l.apply_fn() + "\n"@ + l.direct_fn()
        }),
{
}

/// The generics of the kernel are those that the caller has set, or else what is inferred; a
/// kernel without any has none.
pub proof fn law_launcher_generics(l: LauncherS)
    ensures
        l.generics.names.len() == 0 ==> l.generics_stmt()
            == "let function_generics: Vec<String> = vec![];"@,
        l.generics.names.len() > 0 ==> l.generics_stmt()
            == "let function_generics: Vec<String> = if self.function_generics.is_some() { self.function_generics.take().unwrap() } else { "@
            + l.generics.to_expr() + " };"@,
        l.generics.inferred(l.generics.names.len()) matches Ok(exprs) ==> l.generics.to_expr()
            == "vec!["@ + join_text(exprs, ","@) + "].concat()"@,
        l.generics.inferred(l.generics.names.len()) matches Err(name) ==> l.generics.to_expr()
            == "panic!(\"Failed to infer value for generic parameter "@ + name + "\")"@,
{
}

/// Both functions of a launcher are unsafe exactly if the kernel is, and return the launcher. The
/// tuple form takes the concrete types as one value; the direct form takes one argument for each
/// parameter, turns each into an operation, zips and flattens them, and has a bound for each.
pub proof fn law_launcher_functions(l: LauncherS)
    ensures
        ({
            let safety = if l.is_unsafe { "unsafe "@ } else { ""@ };
            let own = l.generic_params();
            let all = own + direct_params(l.args());
            let bounds = if l.codes.len() == 0 {
                ""@
            } else {
                " where "@ + join_text(direct_preds(l.args()), " , "@)
            };
            let stmts = direct_bindings(l.args()) + flatten_stmts(
                binding_names(l.args()),
                "input"@,
                false,
            ) + seq!["return "@ + l.names.launcher_name + "::launch(input);"@];
            &&& l.apply_fn() == "pub "@ + safety + "fn "@ + l.names.apply_name + (if own.len() == 0 {
                ""@
            } else {
                " "@ + angle_text(own)
            }) + "(input: "@ + tuple_text(concrete_types(l.args())) + (") -> "@ + (
            l.names.launcher_name + " "@ + angle_text(l.apply_type_args())) + " { return "@
                + l.names.launcher_name + "::launch(value(input)); }"@)
            &&& l.direct_fn() == "pub "@ + safety + "fn "@ + l.names.public_name + (if all.len() == 0 {
                ""@
            } else {
                " "@ + angle_text(all)
            }) + "("@ + join_text(direct_inputs(l.args()), ", "@) + (") -> "@ + (
            l.names.launcher_name + " "@ + angle_text(l.launch_type_args())) + bounds + " { "@
                + join_text(stmts, " "@) + " }"@)
            &&& l.launch_type_args().last() == "impl DeviceOp<Output="@ + tuple_text(
                stored_types(l.args()),
            ) + ">"@
        }),
{
}

/// A parameter gets code exactly if it is a reference to a `Tensor` whose element type is named and
/// whose generics can be inferred, a value of a named type, or a `*mut` to a named type in an
/// unsafe kernel.
pub proof fn law_parameter_is_accepted(s: RequiredGenericsS, i: nat, p: KernelParamS, is_unsafe: bool)
    ensures
        param_step(s, i, p, is_unsafe).code is Ok <==> match p.ty {
            KernelParamTypeS::Reference { mutable, ident, generic_args, .. } => ident == Some(
                "Tensor"@,
            ) && generic_args.len() > 0 && generic_args[0] is Type
                && generic_args[0]->Type_0 is Path && infer_args(
                s,
                generic_args,
                p.name,
                mutable,
                0,
            ).error is None,
            KernelParamTypeS::Path { .. } => true,
            KernelParamTypeS::Ptr { target, .. } => is_unsafe && target is Some
                && target->Some_0.0,
            KernelParamTypeS::Other { .. } => false,
        },
{
}

} // verus!
