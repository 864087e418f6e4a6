//! The parameters of a kernel entry point.
use crate::ast::{args_s, ArgS, GenericArgument};
use crate::text::{opt_text, Text};
use vstd::prelude::*;

verus! {

/// The type of a kernel parameter. `source` is its source text.
#[derive(Debug)]
pub enum KernelParamType {
    /// A reference. `ident` and `generic_args` are those of the type that it refers to;
    /// `ident` is missing where that is no named type.
    Reference {
        source: String,
        mutable: bool,
        ident: Option<String>,
        generic_args: Vec<GenericArgument>,
    },
    /// A named type; `is_integer` says that it is an integer scalar.
    Path { source: String, name: String, is_integer: bool },
    /// A raw pointer. For a supported one, `target` says whether it is `*mut` and what it
    /// points to.
    Ptr { source: String, target: Option<(bool, String)> },
    Other { source: String },
}

/// A parameter of a kernel entry point.
#[derive(Debug)]
pub struct KernelParam {
    pub name: String,
    pub ty: KernelParamType,
}

pub enum KernelParamTypeS {
    Reference { source: Text, mutable: bool, ident: Option<Text>, generic_args: Seq<ArgS> },
    Path { source: Text, name: Text, is_integer: bool },
    Ptr { source: Text, target: Option<(bool, Text)> },
    Other { source: Text },
}

pub struct KernelParamS {
    pub name: Text,
    pub ty: KernelParamTypeS,
}

pub open spec fn target_s(t: Option<(bool, String)>) -> Option<(bool, Text)> {
    match t {
        Some(t) => Some((t.0, t.1@)),
        None => None,
    }
}

impl View for KernelParamType {
    type V = KernelParamTypeS;

    open spec fn view(&self) -> KernelParamTypeS {
        match *self {
            KernelParamType::Reference { source, mutable, ident, generic_args } => {
                KernelParamTypeS::Reference {
                    source: source@,
                    mutable,
                    ident: opt_text(ident),
                    generic_args: args_s(generic_args@),
                }
            },
            KernelParamType::Path { source, name, is_integer } => KernelParamTypeS::Path {
                source: source@,
                name: name@,
                is_integer,
            },
            KernelParamType::Ptr { source, target } => KernelParamTypeS::Ptr {
                source: source@,
                target: target_s(target),
            },
            KernelParamType::Other { source } => KernelParamTypeS::Other { source: source@ },
        }
    }
}

impl View for KernelParam {
    type V = KernelParamS;

    open spec fn view(&self) -> KernelParamS {
        KernelParamS { name: self.name@, ty: self.ty@ }
    }
}

} // verus!
