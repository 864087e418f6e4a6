//! The items that the macros take and give: signatures, functions, structs,
//! traits and impl blocks. The models are built as in [`crate::ast`].
use crate::ast::{stmts_s, Path, PathS, Stmt, StmtS, Type, TypeS};
use crate::copy::{clone_opt, clone_type};
use crate::print::{angle_text, print_angle, print_type, type_text};
use crate::text::{cat2, cat3, cat4, cat5, clone_strings, join, join_text, opt_text, texts, Text};
use vstd::prelude::*;

verus! {

/// The models of a list of values.
pub open spec fn views<T: View>(v: Seq<T>) -> Seq<T::V> {
    Seq::new(v.len(), |i: int| v[i]@)
}

// ---------------------------------------------------------------------------
// Generics
// ---------------------------------------------------------------------------

/// A generic parameter. `rest` is the source text behind what is taken apart:
/// bounds and defaults.
#[derive(Debug)]
pub enum GenericParam {
    Type { ident: String, rest: String },
    Const { ident: String, ty: Type, rest: String },
    /// `ident` is without the tick.
    Lifetime { ident: String, rest: String },
}

pub enum GenericParamS {
    Type { ident: Text, rest: Text },
    Const { ident: Text, ty: TypeS, rest: Text },
    Lifetime { ident: Text, rest: Text },
}

impl View for GenericParam {
    type V = GenericParamS;

    open spec fn view(&self) -> GenericParamS {
        match *self {
            GenericParam::Type { ident, rest } => GenericParamS::Type {
                ident: ident@,
                rest: rest@,
            },
            GenericParam::Const { ident, ty, rest } => GenericParamS::Const {
                ident: ident@,
                ty: ty@,
                rest: rest@,
            },
            GenericParam::Lifetime { ident, rest } => GenericParamS::Lifetime {
                ident: ident@,
                rest: rest@,
            },
        }
    }
}

impl GenericParamS {
    pub open spec fn name(self) -> Text {
        match self {
            GenericParamS::Type { ident, .. } => ident,
            GenericParamS::Const { ident, .. } => ident,
            GenericParamS::Lifetime { ident, .. } => ident,
        }
    }

    /// The parameter as it is declared.
    pub open spec fn text(self) -> Text {
        match self {
            GenericParamS::Type { ident, rest } => ident + rest,
            GenericParamS::Const { ident, ty, rest } => "const "@ + ident + " : "@ + type_text(ty)
                + rest,
            GenericParamS::Lifetime { ident, rest } => "'"@ + ident + rest,
        }
    }

    /// The parameter as it is passed on as an argument.
    pub open spec fn arg_text(self) -> Text {
        match self {
            GenericParamS::Type { ident, .. } => ident,
            GenericParamS::Const { ident, .. } => ident,
            GenericParamS::Lifetime { ident, .. } => "'"@ + ident,
        }
    }
}

impl GenericParam {
    pub fn copy(&self) -> (r: GenericParam)
        ensures
            r@ == self@,
    {
        match self {
            GenericParam::Type { ident, rest } => GenericParam::Type {
                ident: ident.clone(),
                rest: rest.clone(),
            },
            GenericParam::Const { ident, ty, rest } => GenericParam::Const {
                ident: ident.clone(),
                ty: clone_type(ty),
                rest: rest.clone(),
            },
            GenericParam::Lifetime { ident, rest } => GenericParam::Lifetime {
                ident: ident.clone(),
                rest: rest.clone(),
            },
        }
    }

    pub fn name(&self) -> (r: &String)
        ensures
            r@ == self@.name(),
    {
        match self {
            GenericParam::Type { ident, .. } => ident,
            GenericParam::Const { ident, .. } => ident,
            GenericParam::Lifetime { ident, .. } => ident,
        }
    }

    pub fn print(&self) -> (r: String)
        ensures
            r@ == self@.text(),
    {
        match self {
            GenericParam::Type { ident, rest } => cat2(ident.as_str(), rest.as_str()),
            GenericParam::Const { ident, ty, rest } => {
                let t = print_type(ty);
                cat5("const ", ident.as_str(), " : ", t.as_str(), rest.as_str())
            },
            GenericParam::Lifetime { ident, rest } => cat3("'", ident.as_str(), rest.as_str()),
        }
    }

    pub fn print_arg(&self) -> (r: String)
        ensures
            r@ == self@.arg_text(),
    {
        match self {
            GenericParam::Type { ident, .. } => ident.clone(),
            GenericParam::Const { ident, .. } => ident.clone(),
            GenericParam::Lifetime { ident, .. } => cat2("'", ident.as_str()),
        }
    }
}

pub fn clone_params(v: &Vec<GenericParam>) -> (r: Vec<GenericParam>)
    ensures
        views(r@) == views(v@),
{
    let mut out: Vec<GenericParam> = Vec::new();
    let mut i: usize = 0;
    while i < v.len()
        invariant
            i <= v@.len(),
            out@.len() == i,
            forall|j: int| 0 <= j < i ==> (#[trigger] out@[j])@ == v@[j]@,
        decreases v@.len() - i,
    {
        out.push(v[i].copy());
        i = i + 1;
    }
    assert(views(out@) =~= views(v@));
    out
}

/// The declarations of a list of parameters.
pub open spec fn param_texts(v: Seq<GenericParamS>) -> Seq<Text> {
    Seq::new(v.len(), |i: int| v[i].text())
}

pub fn print_params(v: &Vec<GenericParam>) -> (r: Vec<String>)
    ensures
        texts(r@) == param_texts(views(v@)),
{
    let mut out: Vec<String> = Vec::new();
    let mut i: usize = 0;
    while i < v.len()
        invariant
            i <= v@.len(),
            out@.len() == i,
            forall|j: int| 0 <= j < i ==> (#[trigger] out@[j])@ == v@[j]@.text(),
        decreases v@.len() - i,
    {
        out.push(v[i].print());
        i = i + 1;
    }
    assert(texts(out@) =~= param_texts(views(v@)));
    out
}

/// Generic parameters and the predicates of the `where` clause, if there is one.
#[derive(Debug)]
pub struct Generics {
    pub params: Vec<GenericParam>,
    pub where_clause: Option<Vec<String>>,
}

pub struct GenericsS {
    pub params: Seq<GenericParamS>,
    pub where_clause: Option<Seq<Text>>,
}

pub open spec fn opt_texts(v: Option<Vec<String>>) -> Option<Seq<Text>> {
    match v {
        Some(v) => Some(texts(v@)),
        None => None,
    }
}

pub fn clone_opt_strings(v: &Option<Vec<String>>) -> (r: Option<Vec<String>>)
    ensures
        opt_texts(r) == opt_texts(*v),
{
    match v {
        Some(v) => Some(clone_strings(v)),
        None => None,
    }
}

impl View for Generics {
    type V = GenericsS;

    open spec fn view(&self) -> GenericsS {
        GenericsS { params: views(self.params@), where_clause: opt_texts(self.where_clause) }
    }
}

impl Generics {
    pub fn copy(&self) -> (r: Generics)
        ensures
            r@ == self@,
    {
        Generics {
            params: clone_params(&self.params),
            where_clause: clone_opt_strings(&self.where_clause),
        }
    }
}

/// A `where` clause; nothing where there is no predicate.
pub open spec fn where_text(w: Option<Seq<Text>>) -> Text {
    match w {
        Some(preds) => if preds.len() == 0 { ""@ } else { " where "@ + join_text(preds, " , "@) },
        None => ""@,
    }
}

pub fn print_where(w: &Option<Vec<String>>) -> (r: String)
    ensures
        r@ == where_text(opt_texts(*w)),
{
    match w {
        Some(preds) => {
            if preds.len() == 0 {
                "".to_owned()
            } else {
                let body = join(preds, " , ");
                cat2(" where ", body.as_str())
            }
        },
        None => "".to_owned(),
    }
}

// ---------------------------------------------------------------------------
// Signatures
// ---------------------------------------------------------------------------

/// A pattern: the name that it binds, where it is a plain binding, and its source.
#[derive(Debug)]
pub struct Pat {
    pub ident: Option<String>,
    pub source: String,
}

#[derive(Debug)]
pub enum FnArg {
    /// `self` in any form, as source text.
    Receiver(String),
    Typed { pat: Pat, ty: Type },
}

pub struct PatS {
    pub ident: Option<Text>,
    pub source: Text,
}

pub enum FnArgS {
    Receiver(Text),
    Typed { pat: PatS, ty: TypeS },
}

impl View for Pat {
    type V = PatS;

    open spec fn view(&self) -> PatS {
        PatS { ident: opt_text(self.ident), source: self.source@ }
    }
}

impl View for FnArg {
    type V = FnArgS;

    open spec fn view(&self) -> FnArgS {
        match *self {
            FnArg::Receiver(t) => FnArgS::Receiver(t@),
            FnArg::Typed { pat, ty } => FnArgS::Typed { pat: pat@, ty: ty@ },
        }
    }
}

impl Pat {
    pub fn copy(&self) -> (r: Pat)
        ensures
            r@ == self@,
    {
        Pat { ident: clone_opt(&self.ident), source: self.source.clone() }
    }
}

impl FnArgS {
    pub open spec fn text(self) -> Text {
        match self {
            FnArgS::Receiver(t) => t,
            FnArgS::Typed { pat, ty } => pat.source + " : "@ + type_text(ty),
        }
    }
}

impl FnArg {
    pub fn copy(&self) -> (r: FnArg)
        ensures
            r@ == self@,
    {
        match self {
            FnArg::Receiver(t) => FnArg::Receiver(t.clone()),
            FnArg::Typed { pat, ty } => FnArg::Typed { pat: pat.copy(), ty: clone_type(ty) },
        }
    }

    pub fn print(&self) -> (r: String)
        ensures
            r@ == self@.text(),
    {
        match self {
            FnArg::Receiver(t) => t.clone(),
            FnArg::Typed { pat, ty } => {
                let t = print_type(ty);
                cat3(pat.source.as_str(), " : ", t.as_str())
            },
        }
    }
}

pub open spec fn fn_arg_texts(v: Seq<FnArgS>) -> Seq<Text> {
    Seq::new(v.len(), |i: int| v[i].text())
}

pub fn print_fn_args(v: &Vec<FnArg>) -> (r: Vec<String>)
    ensures
        texts(r@) == fn_arg_texts(views(v@)),
{
    let mut out: Vec<String> = Vec::new();
    let mut i: usize = 0;
    while i < v.len()
        invariant
            i <= v@.len(),
            out@.len() == i,
            forall|j: int| 0 <= j < i ==> (#[trigger] out@[j])@ == v@[j]@.text(),
        decreases v@.len() - i,
    {
        out.push(v[i].print());
        i = i + 1;
    }
    assert(texts(out@) =~= fn_arg_texts(views(v@)));
    out
}

/// A function signature. `qualifiers` is the source text in front of `fn`.
#[derive(Debug)]
pub struct Signature {
    pub qualifiers: String,
    pub is_unsafe: bool,
    pub ident: String,
    pub generics: Generics,
    pub inputs: Vec<FnArg>,
    pub output: Option<Type>,
}

pub struct SignatureS {
    pub qualifiers: Text,
    pub is_unsafe: bool,
    pub ident: Text,
    pub generics: GenericsS,
    pub inputs: Seq<FnArgS>,
    pub output: Option<TypeS>,
}

pub open spec fn opt_type(t: Option<Type>) -> Option<TypeS> {
    match t {
        Some(t) => Some(t@),
        None => None,
    }
}

impl View for Signature {
    type V = SignatureS;

    open spec fn view(&self) -> SignatureS {
        SignatureS {
            qualifiers: self.qualifiers@,
            is_unsafe: self.is_unsafe,
            ident: self.ident@,
            generics: self.generics@,
            inputs: views(self.inputs@),
            output: opt_type(self.output),
        }
    }
}

pub open spec fn output_text(output: Option<TypeS>) -> Text {
    match output {
        Some(t) => " -> "@ + type_text(t),
        None => ""@,
    }
}

/// The parameters of an item, between angle brackets; nothing where there are none.
pub open spec fn generics_text(params: Seq<Text>) -> Text {
    if params.len() == 0 { ""@ } else { " "@ + angle_text(params) }
}

pub fn print_generics(params: &Vec<String>) -> (r: String)
    ensures
        r@ == generics_text(texts(params@)),
{
    if params.len() == 0 {
        "".to_owned()
    } else {
        let a = print_angle(params);
        cat2(" ", a.as_str())
    }
}

impl SignatureS {
    pub open spec fn text(self) -> Text {
        self.qualifiers + " fn "@ + self.ident + generics_text(param_texts(self.generics.params))
            + ("("@ + join_text(fn_arg_texts(self.inputs), " , "@) + ")"@) + output_text(
            self.output,
        ) + where_text(self.generics.where_clause)
    }
}

impl Signature {
    pub fn print(&self) -> (r: String)
        ensures
            r@ == self@.text(),
    {
        let g = print_generics(&print_params(&self.generics.params));
        let args = join(&print_fn_args(&self.inputs), " , ");
        let list = cat3("(", args.as_str(), ")");
        let out = match &self.output {
            Some(t) => {
                let t = print_type(t);
                cat2(" -> ", t.as_str())
            },
            None => "".to_owned(),
        };
        let w = print_where(&self.generics.where_clause);
        let head = cat4(self.qualifiers.as_str(), " fn ", self.ident.as_str(), g.as_str());
        cat4(head.as_str(), list.as_str(), out.as_str(), w.as_str())
    }
}

// ---------------------------------------------------------------------------
// Items
// ---------------------------------------------------------------------------

/// An attribute: the first segment of its path, if it has one, and its source.
#[derive(Debug)]
pub struct Attribute {
    pub root: Option<String>,
    pub source: String,
}

pub struct AttributeS {
    pub root: Option<Text>,
    pub source: Text,
}

impl View for Attribute {
    type V = AttributeS;

    open spec fn view(&self) -> AttributeS {
        AttributeS { root: opt_text(self.root), source: self.source@ }
    }
}

impl Attribute {
    pub fn copy(&self) -> (r: Attribute)
        ensures
            r@ == self@,
    {
        Attribute { root: clone_opt(&self.root), source: self.source.clone() }
    }
}

pub fn clone_attrs(v: &Vec<Attribute>) -> (r: Vec<Attribute>)
    ensures
        views(r@) == views(v@),
{
    let mut out: Vec<Attribute> = Vec::new();
    let mut i: usize = 0;
    while i < v.len()
        invariant
            i <= v@.len(),
            out@.len() == i,
            forall|j: int| 0 <= j < i ==> (#[trigger] out@[j])@ == v@[j]@,
        decreases v@.len() - i,
    {
        out.push(v[i].copy());
        i = i + 1;
    }
    assert(views(out@) =~= views(v@));
    out
}

/// A free function.
#[derive(Debug)]
pub struct ItemFn {
    pub attrs: Vec<Attribute>,
    pub vis: String,
    pub sig: Signature,
    pub body: Vec<Stmt>,
}

pub struct ItemFnS {
    pub attrs: Seq<AttributeS>,
    pub vis: Text,
    pub sig: SignatureS,
    pub body: Seq<StmtS>,
}

impl View for ItemFn {
    type V = ItemFnS;

    open spec fn view(&self) -> ItemFnS {
        ItemFnS {
            attrs: views(self.attrs@),
            vis: self.vis@,
            sig: self.sig@,
            body: stmts_s(self.body@),
        }
    }
}

/// A field of a struct. `prefix` is the source text in front of its name or type.
#[derive(Debug)]
pub struct Field {
    pub prefix: String,
    pub ident: Option<String>,
    pub ty: Type,
}

pub struct FieldS {
    pub prefix: Text,
    pub ident: Option<Text>,
    pub ty: TypeS,
}

impl View for Field {
    type V = FieldS;

    open spec fn view(&self) -> FieldS {
        FieldS { prefix: self.prefix@, ident: opt_text(self.ident), ty: self.ty@ }
    }
}

impl Field {
    pub fn copy(&self) -> (r: Field)
        ensures
            r@ == self@,
    {
        Field {
            prefix: self.prefix.clone(),
            ident: clone_opt(&self.ident),
            ty: clone_type(&self.ty),
        }
    }
}

pub fn clone_fields(v: &Vec<Field>) -> (r: Vec<Field>)
    ensures
        views(r@) == views(v@),
{
    let mut out: Vec<Field> = Vec::new();
    let mut i: usize = 0;
    while i < v.len()
        invariant
            i <= v@.len(),
            out@.len() == i,
            forall|j: int| 0 <= j < i ==> (#[trigger] out@[j])@ == v@[j]@,
        decreases v@.len() - i,
    {
        out.push(v[i].copy());
        i = i + 1;
    }
    assert(views(out@) =~= views(v@));
    out
}

/// How the fields of a struct are written.
#[derive(Debug, Clone, Copy)]
pub enum FieldStyle {
    Named,
    Unnamed,
    Unit,
}

/// A struct definition.
#[derive(Debug)]
pub struct ItemStruct {
    pub attrs: Vec<Attribute>,
    pub vis: String,
    pub ident: String,
    pub generics: Generics,
    pub style: FieldStyle,
    pub fields: Vec<Field>,
}

pub struct ItemStructS {
    pub attrs: Seq<AttributeS>,
    pub vis: Text,
    pub ident: Text,
    pub generics: GenericsS,
    pub style: FieldStyle,
    pub fields: Seq<FieldS>,
}

impl View for ItemStruct {
    type V = ItemStructS;

    open spec fn view(&self) -> ItemStructS {
        ItemStructS {
            attrs: views(self.attrs@),
            vis: self.vis@,
            ident: self.ident@,
            generics: self.generics@,
            style: self.style,
            fields: views(self.fields@),
        }
    }
}

/// A method of an impl block. `variadic` says that the method is marked as spanning several ranks.
#[derive(Debug)]
pub struct ImplItemFn {
    pub attrs: Vec<Attribute>,
    pub vis: String,
    pub variadic: bool,
    pub sig: Signature,
    pub body: Vec<Stmt>,
}

pub struct ImplItemFnS {
    pub attrs: Seq<AttributeS>,
    pub vis: Text,
    pub variadic: bool,
    pub sig: SignatureS,
    pub body: Seq<StmtS>,
}

impl View for ImplItemFn {
    type V = ImplItemFnS;

    open spec fn view(&self) -> ImplItemFnS {
        ImplItemFnS {
            attrs: views(self.attrs@),
            vis: self.vis@,
            variadic: self.variadic,
            sig: self.sig@,
            body: stmts_s(self.body@),
        }
    }
}

/// An item of an impl block.
#[derive(Debug)]
pub enum ImplItem {
    /// `head ty tail`, such as `type Out =`, a type and `;`.
    Type { head: String, ty: Type, tail: String },
    Const(String),
    Fn(ImplItemFn),
    Verbatim(String),
}

pub enum ImplItemS {
    Type { head: Text, ty: TypeS, tail: Text },
    Const(Text),
    Fn(ImplItemFnS),
    Verbatim(Text),
}

impl View for ImplItem {
    type V = ImplItemS;

    open spec fn view(&self) -> ImplItemS {
        match *self {
            ImplItem::Type { head, ty, tail } => ImplItemS::Type {
                head: head@,
                ty: ty@,
                tail: tail@,
            },
            ImplItem::Const(t) => ImplItemS::Const(t@),
            ImplItem::Fn(f) => ImplItemS::Fn(f@),
            ImplItem::Verbatim(t) => ImplItemS::Verbatim(t@),
        }
    }
}

/// An impl block. `source` is the text that diagnostics about the block point at;
/// `qualifiers` is the source text in front of `impl`.
#[derive(Debug)]
pub struct ItemImpl {
    pub source: String,
    pub attrs: Vec<Attribute>,
    pub qualifiers: String,
    pub generics: Generics,
    pub trait_path: Option<Path>,
    pub self_ty: Type,
    pub items: Vec<ImplItem>,
}

pub struct ItemImplS {
    pub source: Text,
    pub attrs: Seq<AttributeS>,
    pub qualifiers: Text,
    pub generics: GenericsS,
    pub trait_path: Option<PathS>,
    pub self_ty: TypeS,
    pub items: Seq<ImplItemS>,
}

pub open spec fn opt_path(p: Option<Path>) -> Option<PathS> {
    match p {
        Some(p) => Some(p@),
        None => None,
    }
}

impl View for ItemImpl {
    type V = ItemImplS;

    open spec fn view(&self) -> ItemImplS {
        ItemImplS {
            source: self.source@,
            attrs: views(self.attrs@),
            qualifiers: self.qualifiers@,
            generics: self.generics@,
            trait_path: opt_path(self.trait_path),
            self_ty: self.self_ty@,
            items: views(self.items@),
        }
    }
}

/// An item of a trait. `body` is the default body of a method, or `;`.
#[derive(Debug)]
pub enum TraitItem {
    Fn { attrs: Vec<Attribute>, sig: Signature, body: String },
    Verbatim(String),
}

pub enum TraitItemS {
    Fn { attrs: Seq<AttributeS>, sig: SignatureS, body: Text },
    Verbatim(Text),
}

impl View for TraitItem {
    type V = TraitItemS;

    open spec fn view(&self) -> TraitItemS {
        match *self {
            TraitItem::Fn { attrs, sig, body } => TraitItemS::Fn {
                attrs: views(attrs@),
                sig: sig@,
                body: body@,
            },
            TraitItem::Verbatim(t) => TraitItemS::Verbatim(t@),
        }
    }
}

/// A trait declaration. `supertraits` is the source text of its bounds.
#[derive(Debug)]
pub struct ItemTrait {
    pub attrs: Vec<Attribute>,
    pub vis: String,
    pub ident: String,
    pub generics: Generics,
    pub supertraits: String,
    pub items: Vec<TraitItem>,
}

pub struct ItemTraitS {
    pub attrs: Seq<AttributeS>,
    pub vis: Text,
    pub ident: Text,
    pub generics: GenericsS,
    pub supertraits: Text,
    pub items: Seq<TraitItemS>,
}

impl View for ItemTrait {
    type V = ItemTraitS;

    open spec fn view(&self) -> ItemTraitS {
        ItemTraitS {
            attrs: views(self.attrs@),
            vis: self.vis@,
            ident: self.ident@,
            generics: self.generics@,
            supertraits: self.supertraits@,
            items: views(self.items@),
        }
    }
}

} // verus!
