//! The launcher code of a tensor parameter.
use super::generics::{
    args_are_named, infer_args, infer_shape_params_from_tensor_type, RequiredGenerics,
    RequiredGenericsS,
};
use crate::ast::{arg_s, args_s, segment_s, ArgS, GenericArgument, Path, Type, TypeS};
use crate::error::{error_at, Error, ErrorS, SpannedError};
use crate::grammar::{quote_string, string_literal};
use crate::text::{cat3, cat4, cat5, decimal, decimal_text, opt_text, same, Text};
use vstd::prelude::*;

verus! {

/// Code generation result for a tensor kernel parameter.
#[derive(Debug)]
pub struct TensorLaunchCode {
    /// Element type name (e.g., "T", "SrcType", "f32").
    pub element_type_name: String,
    /// Expression for the tensor's strides.
    pub stride_expr_str: String,
    /// Expression for the tensor's specialization.
    pub spec_expr_str: String,
    /// Statement that hands the tensor to the kernel.
    pub builder_statement: String,
    /// Expression for the launch grid, for a partitioned tensor.
    pub launch_grid_expr_str: Option<String>,
    /// Statement that checks the tensor's shape.
    pub validator_statement: String,
}

pub struct TensorLaunchCodeS {
    pub element_type_name: Text,
    pub stride_expr_str: Text,
    pub spec_expr_str: Text,
    pub builder_statement: Text,
    pub launch_grid_expr_str: Option<Text>,
    pub validator_statement: Text,
}

impl View for TensorLaunchCode {
    type V = TensorLaunchCodeS;

    open spec fn view(&self) -> TensorLaunchCodeS {
        TensorLaunchCodeS {
            element_type_name: self.element_type_name@,
            stride_expr_str: self.stride_expr_str@,
            spec_expr_str: self.spec_expr_str@,
            builder_statement: self.builder_statement@,
            launch_grid_expr_str: opt_text(self.launch_grid_expr_str),
            validator_statement: self.validator_statement@,
        }
    }
}

/// A name as a string of its own.
pub open spec fn name_string(var: Text) -> Text {
    "(\""@ + var + "\".to_string(), "@
}

pub open spec fn stride_expr(var: Text, mutable: bool) -> Text {
    if mutable {
        name_string(var) + "KernelOutputStored::strides_hint(&"@ + var + "))"@
    } else {
        name_string(var) + var
            + ".spec().stride_one.iter().map(|&is_one| if is_one { 1 } else { -1 }).collect::<Vec<i32>>())"@
    }
}

pub open spec fn spec_expr(var: Text, mutable: bool) -> Text {
    if mutable {
        name_string(var) + "KernelOutputStored::spec(&"@ + var + ").clone())"@
    } else {
        name_string(var) + var + ".spec().clone())"@
    }
}

pub open spec fn push_stmt(var: Text, mutable: bool) -> Text {
    (if mutable {
        "KernelOutputStored::push_kernel_args(&"@
    } else {
        "KernelInputStored::push_kernel_args(&"@
    }) + var + ", &mut kernel_launch);"@
}

pub open spec fn grid_expr(var: Text, mutable: bool) -> Option<Text> {
    if mutable { Some("KernelOutputStored::grid(&"@ + var + ")?"@) } else { None }
}

/// The part of a validator that finds the expected shape of the parameter of index `i`.
pub open spec fn expected_shape(i: nat) -> Text {
    "{ let ValidParamType::Tensor(tensor_validator) = &validator.params["@ + decimal_text(i)
        + "usize] else { panic!(\"Unexpected validator type {:#?}\", &validator.params["@
        + decimal_text(i) + "usize]); }; let valid_shape = &tensor_validator.shape; "@
}

/// The part of a validator that compares ranks.
pub open spec fn rank_check(name: Text) -> Text {
    "kernel_launch_assert(valid_shape.len() == given_shape.len(), format!(\"{} rank mismatch: Expected {}, got {}\", "@
        + name + ", valid_shape.len(), given_shape.len()).as_str())?; "@
}

/// The statement that checks the shape of a tensor: a partition must have the expected shape;
/// any other tensor must agree with it except where it is open.
pub open spec fn validator(i: nat, var: Text, mutable: bool) -> Text {
    let name = string_literal(var);
    expected_shape(i) + (if mutable {
        "let given_shape: Vec<i32> = KernelOutputStored::partition_shape_as_i32(&"@ + var + "); "@
    } else {
        "let given_shape = "@ + var + ".shape(); "@
    }) + rank_check(name) + (if mutable {
        "kernel_launch_assert(valid_shape == &given_shape, format!(\"{} partition shape mismatch. Expected {:?}, got {:?}\", "@
            + name + ", valid_shape, given_shape).as_str())?; }"@
    } else {
        "let valid_shape_mixed = zip(valid_shape, given_shape).map(|(&expected, &given)|{ if expected == -1 { given } else { expected } }).collect::<Vec<_>>(); let pred = zip(&valid_shape_mixed, given_shape).all(|(&expected, &given)|{ expected == given }); kernel_launch_assert(pred, format!(\"{} partition shape mismatch. Expected {:?}, got {:?}\", "@
            + name + ", valid_shape_mixed, given_shape).as_str())?; }"@
    })
}

/// The code of a tensor parameter with the given element type.
pub open spec fn tensor_code(i: nat, var: Text, mutable: bool, dtype: Text) -> TensorLaunchCodeS {
    TensorLaunchCodeS {
        element_type_name: dtype,
        stride_expr_str: stride_expr(var, mutable),
        spec_expr_str: spec_expr(var, mutable),
        builder_statement: push_stmt(var, mutable),
        launch_grid_expr_str: grid_expr(var, mutable),
        validator_statement: validator(i, var, mutable),
    }
}

/// The generics after a tensor parameter, and its code.
pub struct TensorStepS {
    pub generics: RequiredGenericsS,
    pub code: Result<TensorLaunchCodeS, ErrorS>,
}

/// The name of the element type, where the first generic argument is one.
pub open spec fn element_type(args: Seq<ArgS>) -> Option<Text> {
    if args.len() == 0 {
        None
    } else {
        match args[0] {
            ArgS::Type(TypeS::Path(p)) => Some(p.segments.last().ident),
            _ => None,
        }
    }
}

/// A reference must be to a `Tensor` with an element type; its generics are inferred.
pub open spec fn tensor_step(
    s: RequiredGenericsS,
    i: nat,
    var: Text,
    source: Text,
    mutable: bool,
    ident: Option<Text>,
    args: Seq<ArgS>,
) -> TensorStepS {
    match ident {
        None => TensorStepS {
            generics: s,
            code: Err(
                error_at(source, "Expected a named type identifier for tensor parameter."@),
            ),
        },
        Some(name) => if name != "Tensor"@ {
            TensorStepS {
                generics: s,
                code: Err(error_at(source, "Expected Tensor type, got "@ + name + "."@)),
            }
        } else {
            match element_type(args) {
                None => TensorStepS {
                    generics: s,
                    code: Err(
                        error_at(
                            source,
                            "Expected generic argument type path for tensor element type."@,
                        ),
                    ),
                },
                Some(dtype) => {
                    let inferred = infer_args(s, args, var, mutable, 0);
                    TensorStepS {
                        generics: inferred.generics,
                        code: match inferred.error {
                            Some(e) => Err(e),
                            None => Ok(tensor_code(i, var, mutable, dtype)),
                        },
                    }
                },
            }
        },
    }
}

fn find_element_type(args: &Vec<GenericArgument>) -> (r: Option<&String>)
    requires
        args_are_named(args_s(args@)),
    ensures
        match r {
            Some(s) => element_type(args_s(args@)) == Some(s@),
            None => element_type(args_s(args@)) is None,
        },
{
    assert(args_s(args@).len() == args@.len());
    if args.len() == 0 {
        return None;
    }
    assert(args_s(args@)[0] == arg_s(args@[0]));
    match &args[0] {
        GenericArgument::Type(t) => match t {
            Type::Path(p) => {
                assert(p@.segments.len() == p.segments@.len());
                let last = &p.segments[p.segments.len() - 1];
                assert(p@.segments.last() == segment_s(*last));
                Some(&last.ident)
            },
            _ => None,
        },
        _ => None,
    }
}

fn write_validator(i: usize, var: &str, mutable: bool) -> (r: String)
    ensures
        r@ == validator(i as nat, var@, mutable),
{
    let d = decimal(i);
    let name = quote_string(var);
    let shape = cat5(
        "{ let ValidParamType::Tensor(tensor_validator) = &validator.params[",
        d.as_str(),
        "usize] else { panic!(\"Unexpected validator type {:#?}\", &validator.params[",
        d.as_str(),
        "usize]); }; let valid_shape = &tensor_validator.shape; ",
    );
    let ranks = cat3(
        "kernel_launch_assert(valid_shape.len() == given_shape.len(), format!(\"{} rank mismatch: Expected {}, got {}\", ",
        name.as_str(),
        ", valid_shape.len(), given_shape.len()).as_str())?; ",
    );
    let given = if mutable {
        cat3(
            "let given_shape: Vec<i32> = KernelOutputStored::partition_shape_as_i32(&",
            var,
            "); ",
        )
    } else {
        cat3("let given_shape = ", var, ".shape(); ")
    };
    let rest = if mutable {
        cat3(
            "kernel_launch_assert(valid_shape == &given_shape, format!(\"{} partition shape mismatch. Expected {:?}, got {:?}\", ",
            name.as_str(),
            ", valid_shape, given_shape).as_str())?; }",
        )
    } else {
        cat3(
            "let valid_shape_mixed = zip(valid_shape, given_shape).map(|(&expected, &given)|{ if expected == -1 { given } else { expected } }).collect::<Vec<_>>(); let pred = zip(&valid_shape_mixed, given_shape).all(|(&expected, &given)|{ expected == given }); kernel_launch_assert(pred, format!(\"{} partition shape mismatch. Expected {:?}, got {:?}\", ",
            name.as_str(),
            ", valid_shape_mixed, given_shape).as_str())?; }",
        )
    };
    cat4(shape.as_str(), given.as_str(), ranks.as_str(), rest.as_str())
}

fn make_code(i: usize, var: &str, mutable: bool, dtype: &String) -> (r: TensorLaunchCode)
    ensures
        r@ == tensor_code(i as nat, var@, mutable, dtype@),
{
    let name = cat3("(\"", var, "\".to_string(), ");
    let stride_expr_str = if mutable {
        cat4(name.as_str(), "KernelOutputStored::strides_hint(&", var, "))")
    } else {
        cat3(
            name.as_str(),
            var,
            ".spec().stride_one.iter().map(|&is_one| if is_one { 1 } else { -1 }).collect::<Vec<i32>>())",
        )
    };
    let spec_expr_str = if mutable {
        cat4(name.as_str(), "KernelOutputStored::spec(&", var, ").clone())")
    } else {
        cat3(name.as_str(), var, ".spec().clone())")
    };
    let push = if mutable {
        "KernelOutputStored::push_kernel_args(&"
    } else {
        "KernelInputStored::push_kernel_args(&"
    };
    let builder_statement = cat3(push, var, ", &mut kernel_launch);");
    let launch_grid_expr_str = if mutable {
        Some(cat3("KernelOutputStored::grid(&", var, ")?"))
    } else {
        None
    };
    TensorLaunchCode {
        element_type_name: dtype.clone(),
        stride_expr_str,
        spec_expr_str,
        builder_statement,
        launch_grid_expr_str,
        validator_statement: write_validator(i, var, mutable),
    }
}

/// Generates launcher code for a tensor kernel parameter: stride and specialization
/// expressions, the statement that hands the tensor to the kernel, the launch grid of a
/// partitioned tensor, and the check of its shape. Generics are inferred on the way.
pub fn get_tensor_code(
    var_idx: usize,
    var_name: &str,
    source: &String,
    mutable: bool,
    ident: &Option<String>,
    generic_args: &Vec<GenericArgument>,
    required_generics: &mut RequiredGenerics,
) -> (r: Result<TensorLaunchCode, Error>)
    requires
        args_are_named(args_s(generic_args@)),
    ensures
        ({
            let step = tensor_step(
                old(required_generics)@,
                var_idx as nat,
                var_name@,
                source@,
                mutable,
                opt_text(*ident),
                args_s(generic_args@),
            );
            &&& final(required_generics)@ == step.generics
            &&& crate::error::agrees(r, step.code)
        }),
{
    let name = match ident {
        Some(name) => name,
        None => {
            return source.err("Expected a named type identifier for tensor parameter.");
        },
    };
    if !same(name.as_str(), "Tensor") {
        let m = cat3("Expected Tensor type, got ", name.as_str(), ".");
        return source.err(m.as_str());
    }
    let dtype = match find_element_type(generic_args) {
        Some(t) => t,
        None => {
            return source.err("Expected generic argument type path for tensor element type.");
        },
    };
    match infer_shape_params_from_tensor_type(var_name, generic_args, required_generics, mutable) {
        Ok(_) => Ok(make_code(var_idx, var_name, mutable, dtype)),
        Err(e) => Err(e),
    }
}

} // verus!
