//! The generic parameters of a kernel and the expressions that they are inferred from.
use crate::ast::{
    arg_s, args_s, expr_s, exprs_s, segment_s, stmt_s, stmts_s, ArgS, Expr, ExprS, GenericArgument,
    Path, PathS, Stmt, StmtS, Type, TypeS,
};
use crate::error::{error_at, Error, ErrorS, SpannedError};
use crate::items::opt_type;
use crate::print::{expr_text, path_text};
use crate::table::Table;
use crate::text::{
    cat2, cat3, decimal, decimal_text, includes, join, join_text, lemma_texts_push, opt_text, same,
    texts, Text,
};
use vstd::prelude::*;

verus! {

/// Classification of generic parameter types.
#[derive(Debug, PartialEq, Eq, Structural, Clone, Copy)]
pub enum SupportedGenericType {
    /// Type parameter (e.g., `T: ElementType`)
    TypeParam,
    /// Const scalar parameter (e.g., `const N: i32`)
    ConstScalar,
    /// Const array parameter (e.g., `const S: [i32; 2]`)
    ConstArray,
    /// Unknown or unsupported parameter type
    Unknown,
}

/// The expression that a generic parameter is inferred from, if there is one yet.
#[derive(Debug)]
pub struct Inference(pub Option<String>);

impl View for Inference {
    type V = Option<Text>;

    open spec fn view(&self) -> Option<Text> {
        opt_text(self.0)
    }
}

/// Tracks required generic parameters and their inference state.
#[derive(Debug)]
pub struct RequiredGenerics {
    /// Names of generic parameters in order, with the type annotations of const generic
    /// parameters (None for type params)
    params: Vec<(String, Option<Type>)>,
    /// Names of compile-time generic type parameters required by launcher functions.
    launcher_type_params: Vec<String>,
    /// Inferred expressions for each generic parameter
    expressions: Table<Inference>,
}

pub struct RequiredGenericsS {
    pub names: Seq<Text>,
    pub launcher_type_params: Seq<Text>,
    pub types: Seq<Option<TypeS>>,
    pub expressions: Map<Text, Option<Text>>,
}

pub open spec fn names_of(v: Seq<(String, Option<Type>)>) -> Seq<Text> {
    Seq::new(v.len(), |i: int| v[i].0@)
}

pub open spec fn types_of(v: Seq<(String, Option<Type>)>) -> Seq<Option<TypeS>> {
    Seq::new(v.len(), |i: int| opt_type(v[i].1))
}

impl View for RequiredGenerics {
    type V = RequiredGenericsS;

    closed spec fn view(&self) -> RequiredGenericsS {
        RequiredGenericsS {
            names: names_of(self.params@),
            launcher_type_params: texts(self.launcher_type_params@),
            types: types_of(self.params@),
            expressions: self.expressions@,
        }
    }
}

/// The index of the first of the names from index `i` on that reads `name`; their number if
/// there is none.
pub open spec fn position(names: Seq<Text>, name: Text, i: nat) -> nat
    decreases names.len() - i,
{
    if i >= names.len() || names[i as int] == name {
        i
    } else {
        position(names, name, i + 1)
    }
}

/// Nothing inferred for the first `k` names.
pub open spec fn uninferred(names: Seq<Text>, k: nat) -> Map<Text, Option<Text>>
    decreases k,
{
    if k == 0 {
        Map::empty()
    } else {
        uninferred(names, (k - 1) as nat).insert(names[k - 1], None)
    }
}

impl RequiredGenericsS {
    /// Nothing inferred yet.
    pub open spec fn of(names: Seq<Text>, types: Seq<Option<TypeS>>) -> RequiredGenericsS {
        RequiredGenericsS {
            names,
            launcher_type_params: seq![],
            types,
            expressions: uninferred(names, names.len()),
        }
    }

    /// A name for which nothing has been inferred.
    pub open spec fn is_required(self, name: Text) -> bool {
        !self.expressions.contains_key(name) || self.expressions[name] is None
    }

    /// What a name stands for.
    pub open spec fn get_ty(self, name: Text) -> SupportedGenericType {
        let i = position(self.names, name, 0) as int;
        if i >= self.names.len() {
            SupportedGenericType::Unknown
        } else {
            match self.types[i] {
                None => SupportedGenericType::TypeParam,
                Some(TypeS::Array { .. }) => SupportedGenericType::ConstArray,
                Some(_) => SupportedGenericType::ConstScalar,
            }
        }
    }

    /// With `name` inferred from `expr`.
    pub open spec fn infer(self, name: Text, expr: Text) -> RequiredGenericsS {
        RequiredGenericsS { expressions: self.expressions.insert(name, Some(expr)), ..self }
    }

    /// With `name` among the type parameters of the launcher.
    pub open spec fn require_type(self, name: Text) -> RequiredGenericsS {
        RequiredGenericsS {
            launcher_type_params: self.launcher_type_params.push(name),
            ..self
        }
    }

    /// The expressions of the first `k` names, where all of them have one; otherwise the
    /// first name that has none.
    pub open spec fn inferred(self, k: nat) -> Result<Seq<Text>, Text>
        decreases k,
    {
        if k == 0 {
            Ok(seq![])
        } else {
            match self.inferred((k - 1) as nat) {
                Err(name) => Err(name),
                Ok(exprs) => if self.is_required(self.names[k - 1]) {
                    Err(self.names[k - 1])
                } else {
                    Ok(exprs.push(self.expressions[self.names[k - 1]]->Some_0))
                },
            }
        }
    }

    /// The expression for all generic arguments.
    pub open spec fn to_expr(self) -> Text {
        match self.inferred(self.names.len()) {
            Err(name) => "panic!(\"Failed to infer value for generic parameter "@ + name + "\")"@,
            Ok(exprs) => "vec!["@ + join_text(exprs, ","@) + "].concat()"@,
        }
    }

    /// A type parameter of the kernel that the launcher has too.
    pub open spec fn is_launcher_param(self, name: Text) -> bool {
        self.launcher_type_params.contains(name) && self.get_ty(name)
            == SupportedGenericType::TypeParam
    }

    /// The type parameters of the launcher among the first `k`, in the kernel's order.
    pub open spec fn launcher_params(self, k: nat) -> Seq<Text>
        decreases k,
    {
        if k == 0 {
            seq![]
        } else {
            let rest = self.launcher_params((k - 1) as nat);
            if self.is_launcher_param(self.names[k - 1]) {
                rest.push(self.names[k - 1])
            } else {
                rest
            }
        }
    }

    /// The type parameters of the launcher.
    pub open spec fn generic_args(self) -> Seq<Text> {
        self.launcher_params(self.names.len())
    }
}

/// A type parameter of a launcher with its bounds.
pub open spec fn launcher_param(name: Text) -> Text {
    name + ": Send + DType"@
}

pub open spec fn launcher_param_texts(names: Seq<Text>) -> Seq<Text> {
    Seq::new(names.len(), |i: int| launcher_param(names[i]))
}

impl RequiredGenerics {
    /// The generics of a kernel, with nothing inferred: names with the type of a constant, or
    /// with none for a type parameter.
    pub fn new(params: Vec<(String, Option<Type>)>) -> (r: RequiredGenerics)
        ensures
            r@ == RequiredGenericsS::of(names_of(params@), types_of(params@)),
    {
        let mut expressions: Table<Inference> = Table::new();
        let mut i: usize = 0;
        while i < params.len()
            invariant
                i <= params@.len(),
                expressions@ == uninferred(names_of(params@), i as nat),
            decreases params@.len() - i,
        {
            expressions.insert(params[i].0.clone(), Inference(None));
            i = i + 1;
        }
        let launcher_type_params: Vec<String> = Vec::new();
        assert(texts(launcher_type_params@) =~= seq![]);
        RequiredGenerics { params, launcher_type_params, expressions }
    }

    /// Whether there are no generic parameters at all.
    pub fn is_empty(&self) -> (r: bool)
        ensures
            r == (self@.names.len() == 0),
    {
        self.params.len() == 0
    }

    /// Returns `true` if the given generic parameter has not yet been inferred.
    pub fn is_required(&self, s: &str) -> (r: bool)
        ensures
            r == self@.is_required(s@),
    {
        match self.expressions.get(s) {
            Some(e) => e.0.is_none(),
            None => true,
        }
    }

    /// Classifies the generic parameter with the given name.
    pub fn get_ty(&self, name: &str) -> (r: SupportedGenericType)
        ensures
            r == self@.get_ty(name@),
    {
        let mut i: usize = 0;
        while i < self.params.len() && !same(self.params[i].0.as_str(), name)
            invariant
                i <= self.params@.len(),
                self@.names == names_of(self.params@),
                position(self@.names, name@, 0) == position(self@.names, name@, i as nat),
            decreases self.params@.len() - i,
        {
            i = i + 1;
        }
        if i >= self.params.len() {
            return SupportedGenericType::Unknown;
        }
        assert(self@.types[i as int] == opt_type(self.params@[i as int].1));
        match &self.params[i].1 {
            None => SupportedGenericType::TypeParam,
            Some(t) => match t {
                Type::Array { .. } => SupportedGenericType::ConstArray,
                _ => SupportedGenericType::ConstScalar,
            },
        }
    }

    /// Records the expression that a generic parameter is inferred from.
    pub fn infer(&mut self, name: &str, expr: String)
        ensures
            final(self)@ == old(self)@.infer(name@, expr@),
    {
        self.expressions.insert(name.to_owned(), Inference(Some(expr)));
    }

    /// Makes a name a type parameter of the launcher.
    pub fn require_type(&mut self, name: &str)
        ensures
            final(self)@ == old(self)@.require_type(name@),
    {
        let ghost prev = self.launcher_type_params@;
        self.launcher_type_params.push(name.to_owned());
        proof {
            lemma_texts_push(prev, self.launcher_type_params@.last());
        }
    }

    /// Builds a runtime expression string that concatenates all inferred generic values.
    pub fn to_expr_str(&self) -> (r: String)
        ensures
            r@ == self@.to_expr(),
    {
        let mut exprs: Vec<String> = Vec::new();
        let mut i: usize = 0;
        assert(texts(exprs@) =~= seq![]);
        while i < self.params.len()
            invariant
                i <= self.params@.len(),
                self@.names == names_of(self.params@),
                self@.inferred(i as nat) == Ok::<Seq<Text>, Text>(texts(exprs@)),
            decreases self.params@.len() - i,
        {
            let name = &self.params[i].0;
            assert(self@.names[i as int] == name@);
            let found: Option<&String> = match self.expressions.get(name.as_str()) {
                Some(e) => match &e.0 {
                    Some(x) => Some(x),
                    None => None,
                },
                None => None,
            };
            match found {
                None => {
                    proof {
                        self@.lemma_inferred_err((i + 1) as nat, self@.names.len());
                    }
                    return cat3(
                        "panic!(\"Failed to infer value for generic parameter ",
                        name.as_str(),
                        "\")",
                    );
                },
                Some(x) => {
                    let ghost prev = exprs@;
                    exprs.push(x.clone());
                    proof {
                        lemma_texts_push(prev, exprs@.last());
                    }
                },
            }
            i = i + 1;
        }
        let body = join(&exprs, ",");
        cat3("vec![", body.as_str(), "].concat()")
    }

    /// The names of the type parameters needed by the launcher, as its generic arguments.
    pub fn get_generic_args(&self) -> (r: Vec<String>)
        ensures
            texts(r@) == self@.generic_args(),
    {
        let mut out: Vec<String> = Vec::new();
        let mut i: usize = 0;
        assert(texts(out@) =~= seq![]);
        while i < self.params.len()
            invariant
                i <= self.params@.len(),
                self@.names == names_of(self.params@),
                texts(out@) == self@.launcher_params(i as nat),
            decreases self.params@.len() - i,
        {
            let name = &self.params[i].0;
            assert(self@.names[i as int] == name@);
            if includes(&self.launcher_type_params, name.as_str()) && self.get_ty(name.as_str())
                == SupportedGenericType::TypeParam {
                let ghost prev = out@;
                out.push(name.clone());
                proof {
                    lemma_texts_push(prev, out@.last());
                }
            }
            i = i + 1;
        }
        out
    }

    /// The type parameters needed by the launcher, with their bounds.
    pub fn get_required_generics(&self) -> (r: Vec<String>)
        ensures
            texts(r@) == launcher_param_texts(self@.generic_args()),
    {
        let names = self.get_generic_args();
        let mut out: Vec<String> = Vec::new();
        let mut i: usize = 0;
        while i < names.len()
            invariant
                i <= names@.len(),
                out@.len() == i,
                forall|j: int| 0 <= j < i ==> (#[trigger] out@[j])@ == launcher_param(names@[j]@),
            decreases names@.len() - i,
        {
            out.push(cat2(names[i].as_str(), ": Send + DType"));
            i = i + 1;
        }
        assert(texts(out@) =~= launcher_param_texts(texts(names@)));
        out
    }
}

impl RequiredGenericsS {
    proof fn lemma_inferred_err(self, i: nat, k: nat)
        requires
            i <= k,
            self.inferred(i) is Err,
        ensures
            self.inferred(k) == self.inferred(i),
        decreases k,
    {
        if i < k {
            self.lemma_inferred_err(i, (k - 1) as nat);
        }
    }
}

// ---------------------------------------------------------------------------
// Inference from a tensor type
// ---------------------------------------------------------------------------

/// The element type of a tensor, at run time.
pub open spec fn dtype_expr(var: Text) -> Text {
    "vec!["@ + var + ".dtype().as_str().to_string()]"@
}

/// The shape of a tensor, at run time: that of a partition where it is mutable.
pub open spec fn shape_expr(var: Text, mutable: bool) -> Text {
    (if mutable {
        "KernelOutputStored::partition_shape_as_i32(&"@ + var + ")"@
    } else {
        var + ".shape()"@
    }) + ".iter().map(|x| x.to_string()).collect::<Vec<String>>()"@
}

/// One dimension of the shape of a tensor, at run time.
pub open spec fn dim_expr(var: Text, mutable: bool, i: nat) -> Text {
    (if mutable {
        "vec![KernelOutputStored::partition_shape_as_i32(&"@ + var + ")["@
    } else {
        "vec!["@ + var + ".shape()["@
    }) + decimal_text(i) + "].to_string()]"@
}

/// What has been inferred, and the error that stopped it, if any.
pub struct InferredS {
    pub generics: RequiredGenericsS,
    pub error: Option<ErrorS>,
}

pub open spec fn go_on(generics: RequiredGenericsS) -> InferredS {
    InferredS { generics, error: None }
}

pub open spec fn stop(generics: RequiredGenericsS, at: Text, message: Text) -> InferredS {
    InferredS { generics, error: Some(error_at(at, message)) }
}

/// From a named type among the arguments: a type parameter is the element type, an array the
/// shape.
pub open spec fn infer_named(s: RequiredGenericsS, p: PathS, var: Text, mutable: bool) -> InferredS {
    let name = p.segments.last().ident;
    match s.get_ty(name) {
        SupportedGenericType::TypeParam => go_on(
            s.require_type(name).infer(name, dtype_expr(var)),
        ),
        SupportedGenericType::ConstArray => go_on(s.infer(name, shape_expr(var, mutable))),
        SupportedGenericType::ConstScalar => stop(
            s,
            path_text(p, false),
            "Unexpected constant scalar type in tensor generic argument."@,
        ),
        SupportedGenericType::Unknown => go_on(s),
    }
}

/// From one element of a literal shape: a constant is that dimension.
pub open spec fn infer_elem(
    s: RequiredGenericsS,
    e: ExprS,
    i: nat,
    var: Text,
    mutable: bool,
) -> InferredS {
    match e {
        ExprS::Lit(_) => go_on(s),
        ExprS::Unary { .. } => go_on(s),
        ExprS::Path(p) => {
            let name = p.segments.last().ident;
            match s.get_ty(name) {
                SupportedGenericType::TypeParam => stop(
                    s,
                    path_text(p, true),
                    "Unexpected type param in array type expression."@,
                ),
                SupportedGenericType::ConstArray => stop(
                    s,
                    path_text(p, true),
                    "Unexpected const generic array param in array type expression."@,
                ),
                SupportedGenericType::ConstScalar => go_on(
                    s.infer(name, dim_expr(var, mutable, i)),
                ),
                SupportedGenericType::Unknown => go_on(s),
            }
        },
        _ => stop(s, expr_text(e), "Unsupported array element in tensor shape expression."@),
    }
}

/// From the elements of a literal shape from index `i` on.
pub open spec fn infer_elems(
    s: RequiredGenericsS,
    elems: Seq<ExprS>,
    var: Text,
    mutable: bool,
    i: nat,
) -> InferredS
    decreases elems.len() - i,
{
    if i >= elems.len() {
        go_on(s)
    } else {
        let r = infer_elem(s, elems[i as int], i, var, mutable);
        if r.error is Some { r } else { infer_elems(r.generics, elems, var, mutable, i + 1) }
    }
}

/// From a block among the arguments: a literal shape.
pub open spec fn infer_block(s: RequiredGenericsS, stmts: Seq<StmtS>, var: Text, mutable: bool) -> InferredS {
    let at = expr_text(ExprS::Block(stmts));
    if stmts.len() != 1 {
        stop(
            s,
            at,
            "Expected exactly 1 statement in block expression, got "@ + decimal_text(stmts.len())
                + "."@,
        )
    } else {
        match stmts[0] {
            StmtS::Expr { expr, semi: _ } => match expr {
                ExprS::Array(elems) => infer_elems(s, elems, var, mutable, 0),
                ExprS::Repeat { .. } => stop(
                    s,
                    expr_text(expr),
                    "Repeat expressions in tensor shape are not yet supported."@,
                ),
                _ => stop(
                    s,
                    at,
                    "Unexpected block expression in tensor const generic argument."@,
                ),
            },
            StmtS::Composite(_) => stop(
                s,
                at,
                "Unexpected block expression: expected an expression statement."@,
            ),
        }
    }
}

pub open spec fn infer_arg(s: RequiredGenericsS, a: ArgS, var: Text, mutable: bool) -> InferredS {
    match a {
        ArgS::Type(TypeS::Path(p)) => infer_named(s, p, var, mutable),
        ArgS::Const(ExprS::Block(stmts)) => infer_block(s, stmts, var, mutable),
        _ => go_on(s),
    }
}

/// From the generic arguments of a tensor type from index `i` on. It stops at the first
/// error.
pub open spec fn infer_args(
    s: RequiredGenericsS,
    args: Seq<ArgS>,
    var: Text,
    mutable: bool,
    i: nat,
) -> InferredS
    decreases args.len() - i,
{
    if i >= args.len() {
        go_on(s)
    } else {
        let r = infer_arg(s, args[i as int], var, mutable);
        if r.error is Some { r } else { infer_args(r.generics, args, var, mutable, i + 1) }
    }
}

/// A path has a segment.
pub open spec fn is_named(p: PathS) -> bool {
    p.segments.len() > 0
}

/// Every path that inference looks at has a segment.
pub open spec fn elem_is_named(e: ExprS) -> bool {
    e matches ExprS::Path(p) ==> is_named(p)
}

pub open spec fn arg_is_named(a: ArgS) -> bool {
    match a {
        ArgS::Type(TypeS::Path(p)) => is_named(p),
        ArgS::Const(ExprS::Block(stmts)) => (stmts.len() == 1
            && stmts[0] matches StmtS::Expr { expr: ExprS::Array(elems), semi: _ }) ==> {
            let elems = stmts[0]->expr->Array_0;
            forall|i: int| 0 <= i < elems.len() ==> elem_is_named(#[trigger] elems[i])
        },
        _ => true,
    }
}

pub open spec fn args_are_named(args: Seq<ArgS>) -> bool {
    forall|i: int| 0 <= i < args.len() ==> arg_is_named(#[trigger] args[i])
}

fn last_ident(p: &Path) -> (r: &String)
    requires
        is_named(p@),
    ensures
        r@ == p@.segments.last().ident,
{
    assert(p@.segments.len() == p.segments@.len());
    let last = &p.segments[p.segments.len() - 1];
    assert(p@.segments.last() == segment_s(*last));
    &last.ident
}

/// The outcome of a step of inference.
pub open spec fn outcome(generics: RequiredGenericsS, r: Result<(), Error>, want: InferredS) -> bool {
    &&& generics == want.generics
    &&& match want.error {
        None => r is Ok,
        Some(x) => r matches Err(e) && e@ == x,
    }
}

fn infer_from_name(
    var_name: &str,
    p: &Path,
    required_generics: &mut RequiredGenerics,
    is_mutable: bool,
) -> (r: Result<(), Error>)
    requires
        is_named(p@),
    ensures
        outcome(
            final(required_generics)@,
            r,
            infer_named(old(required_generics)@, p@, var_name@, is_mutable),
        ),
{
    let name = last_ident(p);
    match required_generics.get_ty(name.as_str()) {
        SupportedGenericType::TypeParam => {
            required_generics.require_type(name.as_str());
            let e = cat3("vec![", var_name, ".dtype().as_str().to_string()]");
            required_generics.infer(name.as_str(), e);
            Ok(())
        },
        SupportedGenericType::ConstArray => {
            let shape = if is_mutable {
                cat3("KernelOutputStored::partition_shape_as_i32(&", var_name, ")")
            } else {
                cat2(var_name, ".shape()")
            };
            let e = cat2(
                shape.as_str(),
                ".iter().map(|x| x.to_string()).collect::<Vec<String>>()",
            );
            required_generics.infer(name.as_str(), e);
            Ok(())
        },
        SupportedGenericType::ConstScalar => {
            p.err("Unexpected constant scalar type in tensor generic argument.")
        },
        SupportedGenericType::Unknown => Ok(()),
    }
}

fn infer_from_elem(
    var_name: &str,
    e: &Expr,
    i: usize,
    required_generics: &mut RequiredGenerics,
    is_mutable: bool,
) -> (r: Result<(), Error>)
    requires
        elem_is_named(e@),
    ensures
        outcome(
            final(required_generics)@,
            r,
            infer_elem(old(required_generics)@, e@, i as nat, var_name@, is_mutable),
        ),
{
    match e {
        Expr::Lit(_) => Ok(()),
        Expr::Unary { .. } => Ok(()),
        Expr::Path(p) => {
            let name = last_ident(p);
            match required_generics.get_ty(name.as_str()) {
                SupportedGenericType::TypeParam => e.err(
                    "Unexpected type param in array type expression.",
                ),
                SupportedGenericType::ConstArray => e.err(
                    "Unexpected const generic array param in array type expression.",
                ),
                SupportedGenericType::ConstScalar => {
                    let head = if is_mutable {
                        cat3("vec![KernelOutputStored::partition_shape_as_i32(&", var_name, ")[")
                    } else {
                        cat3("vec![", var_name, ".shape()[")
                    };
                    let d = decimal(i);
                    let x = cat3(head.as_str(), d.as_str(), "].to_string()]");
                    required_generics.infer(name.as_str(), x);
                    Ok(())
                },
                SupportedGenericType::Unknown => Ok(()),
            }
        },
        _ => e.err("Unsupported array element in tensor shape expression."),
    }
}

fn infer_from_elems(
    var_name: &str,
    elems: &Vec<Expr>,
    required_generics: &mut RequiredGenerics,
    is_mutable: bool,
) -> (r: Result<(), Error>)
    requires
        forall|i: int|
            0 <= i < exprs_s(elems@).len() ==> elem_is_named(#[trigger] exprs_s(elems@)[i]),
    ensures
        outcome(
            final(required_generics)@,
            r,
            infer_elems(old(required_generics)@, exprs_s(elems@), var_name@, is_mutable, 0),
        ),
{
    let ghost models = exprs_s(elems@);
    let ghost whole = infer_elems(required_generics@, models, var_name@, is_mutable, 0);
    let mut i: usize = 0;
    assert(models.len() == elems@.len());
    while i < elems.len()
        invariant
            i <= elems@.len(),
            models == exprs_s(elems@),
            models.len() == elems@.len(),
            forall|j: int| 0 <= j < models.len() ==> elem_is_named(#[trigger] models[j]),
            whole == infer_elems(old(required_generics)@, models, var_name@, is_mutable, 0),
            whole == infer_elems(required_generics@, models, var_name@, is_mutable, i as nat),
        decreases elems@.len() - i,
    {
        assert(models[i as int] == expr_s(elems@[i as int]));
        match infer_from_elem(var_name, &elems[i], i, required_generics, is_mutable) {
            Ok(_) => {},
            Err(e) => {
                return Err(e);
            },
        }
        i = i + 1;
    }
    Ok(())
}

fn infer_from_block(
    var_name: &str,
    block: &Expr,
    stmts: &Vec<Stmt>,
    required_generics: &mut RequiredGenerics,
    is_mutable: bool,
) -> (r: Result<(), Error>)
    requires
        block@ == ExprS::Block(stmts_s(stmts@)),
        arg_is_named(ArgS::Const(block@)),
    ensures
        outcome(
            final(required_generics)@,
            r,
            infer_block(old(required_generics)@, stmts_s(stmts@), var_name@, is_mutable),
        ),
{
    assert(stmts_s(stmts@).len() == stmts@.len());
    if stmts.len() != 1 {
        let n = decimal(stmts.len());
        let m = cat3("Expected exactly 1 statement in block expression, got ", n.as_str(), ".");
        return block.err(m.as_str());
    }
    assert(stmts_s(stmts@)[0] == stmt_s(stmts@[0]));
    match &stmts[0] {
        Stmt::Expr { expr, semi: _ } => match expr {
            Expr::Array(elems) => {
                assert(stmts_s(stmts@)[0]->expr == expr@);
                assert(expr@ == ExprS::Array(exprs_s(elems@)));
                infer_from_elems(var_name, elems, required_generics, is_mutable)
            },
            Expr::Repeat { .. } => expr.err(
                "Repeat expressions in tensor shape are not yet supported.",
            ),
            _ => block.err("Unexpected block expression in tensor const generic argument."),
        },
        Stmt::Composite(_) => block.err(
            "Unexpected block expression: expected an expression statement.",
        ),
    }
}

fn infer_from_arg(
    var_name: &str,
    a: &GenericArgument,
    required_generics: &mut RequiredGenerics,
    is_mutable: bool,
) -> (r: Result<(), Error>)
    requires
        arg_is_named(a@),
    ensures
        outcome(
            final(required_generics)@,
            r,
            infer_arg(old(required_generics)@, a@, var_name@, is_mutable),
        ),
{
    match a {
        GenericArgument::Type(t) => match t {
            Type::Path(p) => infer_from_name(var_name, p, required_generics, is_mutable),
            _ => Ok(()),
        },
        GenericArgument::Const(e) => match e {
            Expr::Block(stmts) => infer_from_block(
                var_name,
                e,
                stmts,
                required_generics,
                is_mutable,
            ),
            _ => Ok(()),
        },
        _ => Ok(()),
    }
}

/// Infers and registers runtime expressions for tensor shape parameters.
///
/// For each generic argument:
/// - Type parameters (e.g., `T`): `var_name.dtype().as_str().to_string()`
/// - Const array parameters (e.g., `S`) and constants (e.g. `N`) in a literal shape: an
///   extraction from the partition shape of a mutable tensor, or from the shape of an
///   immutable one.
pub fn infer_shape_params_from_tensor_type(
    var_name: &str,
    type_generic_args: &Vec<GenericArgument>,
    required_generics: &mut RequiredGenerics,
    is_mutable: bool,
) -> (r: Result<(), Error>)
    requires
        args_are_named(args_s(type_generic_args@)),
    ensures
        outcome(
            final(required_generics)@,
            r,
            infer_args(
                old(required_generics)@,
                args_s(type_generic_args@),
                var_name@,
                is_mutable,
                0,
            ),
        ),
{
    let ghost models = args_s(type_generic_args@);
    let ghost whole = infer_args(required_generics@, models, var_name@, is_mutable, 0);
    let mut i: usize = 0;
    assert(models.len() == type_generic_args@.len());
    while i < type_generic_args.len()
        invariant
            i <= type_generic_args@.len(),
            models == args_s(type_generic_args@),
            models.len() == type_generic_args@.len(),
            args_are_named(models),
            whole == infer_args(old(required_generics)@, models, var_name@, is_mutable, 0),
            whole == infer_args(required_generics@, models, var_name@, is_mutable, i as nat),
        decreases type_generic_args@.len() - i,
    {
        assert(models[i as int] == arg_s(type_generic_args@[i as int]));
        match infer_from_arg(var_name, &type_generic_args[i], required_generics, is_mutable) {
            Ok(_) => {},
            Err(e) => {
                return Err(e);
            },
        }
        i = i + 1;
    }
    Ok(())
}

} // verus!
