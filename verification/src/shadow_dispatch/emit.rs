//! Emission of the shadow trait, its rank-instance impls and the wrapper of an operation.
use super::lifetimes::{replace_lifetimes_with, replaced};
use super::op_spec::{parse_op, ParsedArgS, RankPolyOpSpec, RankPolyOpSpecS};
use super::ranks::{
    combo_at, combo_count, combos, declared_cgas, lemma_combo_wf, RankCombo, RankComboS, RankSpace, MAX_RANK,
};
use super::types::{rank_type, rewrite_literal_cgas_only, rewrite_ty_for_rank};
use crate::ast::{Type, TypeS};
use crate::error::Error;
use crate::items::{
    param_texts, print_params, print_where, views, where_text, GenericParam, GenericParamS, ItemFn,
    ItemFnS,
};
use crate::print::{angle_text, print_angle, print_type, type_text};
use crate::text::{
    append_all, cat2, cat3, cat5, cat6, cat7, decimal, decimal_text, fill, filled, join, join_text,
    lemma_texts_push, opt_text, texts, Text,
};
use vstd::prelude::*;

verus! {

// ---------------------------------------------------------------------------
// Lists of generics
// ---------------------------------------------------------------------------

/// Lifetimes with their ticks.
pub open spec fn ticked(names: Seq<Text>) -> Seq<Text> {
    Seq::new(names.len(), |i: int| "'"@ + names[i])
}

/// A shape-bearing argument that is not Self-like.
pub open spec fn is_extra(a: ParsedArgS) -> bool {
    a.cga is Some && !a.is_self_like
}

/// How many of the first `k` arguments are shape-bearing but not Self-like.
pub open spec fn extra_count(args: Seq<ParsedArgS>, k: nat) -> nat
    decreases k,
{
    if k == 0 {
        0
    } else {
        extra_count(args, (k - 1) as nat) + if is_extra(args[k - 1]) { 1nat } else { 0nat }
    }
}

/// The generic of the shape-bearing argument of that number.
pub open spec fn extra_name(i: nat) -> Text {
    "Sh"@ + decimal_text(i)
}

/// Trait generics for the shape-bearing args that aren't Self-like: `Sh0`, `Sh1`, ....
pub open spec fn extra_names(args: Seq<ParsedArgS>) -> Seq<Text> {
    Seq::new(extra_count(args, args.len()), |i: int| extra_name(i as nat))
}

/// The arguments that hand parameters on.
pub open spec fn param_args(params: Seq<GenericParamS>) -> Seq<Text> {
    Seq::new(params.len(), |i: int| params[i].arg_text())
}

/// The types of the shape-bearing args that aren't Self-like, among the first `k`.
pub open spec fn extra_types(args: Seq<ParsedArgS>, c: RankComboS, k: nat) -> Seq<Text>
    decreases k,
{
    if k == 0 {
        seq![]
    } else {
        let rest = extra_types(args, c, (k - 1) as nat);
        if is_extra(args[k - 1]) { rest.push(type_text(rank_type(args[k - 1].ty, c))) } else { rest }
    }
}

/// The types of the rank-dependent args among the first `k`.
pub open spec fn dependent_types(s: RankPolyOpSpecS, c: RankComboS, k: nat) -> Seq<Text>
    decreases k,
{
    if k == 0 {
        seq![]
    } else {
        let rest = dependent_types(s, c, (k - 1) as nat);
        if s.rank_dep_arg_idents[k - 1] is Some {
            rest.push(type_text(rank_type(s.args[k - 1].ty, c)))
        } else {
            rest
        }
    }
}

fn tick(names: &Vec<String>) -> (r: Vec<String>)
    ensures
        texts(r@) == ticked(texts(names@)),
{
    let mut out: Vec<String> = Vec::new();
    let mut i: usize = 0;
    while i < names.len()
        invariant
            i <= names@.len(),
            out@.len() == i,
            forall|j: int| 0 <= j < i ==> (#[trigger] out@[j])@ == "'"@ + names@[j]@,
        decreases names@.len() - i,
    {
        out.push(cat2("'", names[i].as_str()));
        i = i + 1;
    }
    assert(texts(out@) =~= ticked(texts(names@)));
    out
}

fn push_text(out: &mut Vec<String>, s: String)
    ensures
        texts(final(out)@) == texts(old(out)@).push(s@),
{
    let ghost prev = out@;
    out.push(s);
    proof {
        lemma_texts_push(prev, out@.last());
    }
}

fn pass_params(params: &Vec<GenericParam>) -> (r: Vec<String>)
    ensures
        texts(r@) == param_args(views(params@)),
{
    let mut out: Vec<String> = Vec::new();
    let mut i: usize = 0;
    while i < params.len()
        invariant
            i <= params@.len(),
            out@.len() == i,
            forall|j: int| 0 <= j < i ==> (#[trigger] out@[j])@ == params@[j]@.arg_text(),
        decreases params@.len() - i,
    {
        out.push(params[i].print_arg());
        i = i + 1;
    }
    assert(texts(out@) =~= param_args(views(params@)));
    out
}

/// The strings without the one at index `i`.
fn without(v: &Vec<String>, i: usize) -> (r: Vec<String>)
    requires
        i < v@.len(),
    ensures
        texts(r@) == texts(v@).remove(i as int),
{
    let ghost all = texts(v@);
    let mut out: Vec<String> = Vec::new();
    let mut k: usize = 0;
    while k < v.len()
        invariant
            k <= v@.len(),
            i < v@.len(),
            all == texts(v@),
            texts(out@) =~= if k <= i {
                all.take(k as int)
            } else {
                all.take(k as int).remove(i as int)
            },
        decreases v@.len() - k,
    {
        if k != i {
            push_text(&mut out, v[k].clone());
        }
        k = k + 1;
    }
    assert(all.take(k as int) =~= all);
    out
}

fn one_if(yes: bool, s: &str) -> (r: Vec<String>)
    ensures
        texts(r@) == if yes { seq![s@] } else { seq![] },
{
    let mut out: Vec<String> = Vec::new();
    if yes {
        out.push(s.to_owned());
        assert(texts(out@) =~= seq![s@]);
    } else {
        assert(texts(out@) =~= seq![]);
    }
    out
}

// ---------------------------------------------------------------------------
// What is emitted
// ---------------------------------------------------------------------------

pub open spec fn unsafe_text(is_unsafe: bool) -> Text {
    if is_unsafe { "unsafe "@ } else { ""@ }
}

pub open spec fn out_generic(s: RankPolyOpSpecS) -> Seq<Text> {
    if s.return_is_free() { seq!["Out"@] } else { seq![] }
}

/// `name: type` for each argument.
pub open spec fn declarations(args: Seq<ParsedArgS>, types: Seq<Text>) -> Seq<Text> {
    Seq::new(args.len(), |i: int| args[i].name + ": "@ + types[i])
}

pub open spec fn arg_names(args: Seq<ParsedArgS>) -> Seq<Text> {
    Seq::new(args.len(), |i: int| args[i].name)
}

/// The type that an argument has where the ranks are open. A Self-like argument has the type
/// `like`; of any other, only literal arrays are resolved.
pub open spec fn open_type(s: RankPolyOpSpecS, like: Text, i: int) -> Text {
    let a = s.args[i];
    if a.cga is Some {
        if a.is_self_like { like } else { extra_name(extra_count(s.args, i as nat)) }
    } else {
        match s.rank_dep_arg_idents[i] {
            Some(name) => name,
            None => type_text(rank_type(a.ty, RankComboS::none())),
        }
    }
}

pub open spec fn open_types(s: RankPolyOpSpecS, like: Text) -> Seq<Text> {
    Seq::new(s.args.len(), |i: int| open_type(s, like, i))
}

/// The type that an argument has at the ranks of a combination.
pub open spec fn closed_type(s: RankPolyOpSpecS, c: RankComboS, i: int) -> Text {
    let a = s.args[i];
    if a.cga is Some && a.is_self_like { "Self"@ } else { type_text(rank_type(a.ty, c)) }
}

pub open spec fn closed_types(s: RankPolyOpSpecS, c: RankComboS) -> Seq<Text> {
    Seq::new(s.args.len(), |i: int| closed_type(s, c, i))
}

/// `self` and the other arguments: the receiver is always first, wherever it stands in the
/// source.
pub open spec fn method_inputs(s: RankPolyOpSpecS, types: Seq<Text>) -> Seq<Text> {
    seq!["self"@] + declarations(s.args, types).remove(s.receiver as int)
}

/// The names of the arguments other than the receiver.
pub open spec fn other_names(s: RankPolyOpSpecS) -> Seq<Text> {
    arg_names(s.args).remove(s.receiver as int)
}

/// The generics of the shadow trait.
pub open spec fn trait_generics(s: RankPolyOpSpecS) -> Seq<Text> {
    ticked(s.dead_lt_idents) + extra_names(s.args) + filled(
        s.rank_dep_arg_idents,
        s.rank_dep_arg_idents.len(),
    ) + out_generic(s) + param_texts(s.trait_level_params)
}

/// The return type of the trait method.
pub open spec fn trait_return(s: RankPolyOpSpecS) -> Text {
    if s.is_void_return() {
        "()"@
    } else if s.is_same_shape() {
        "Self"@
    } else if s.return_is_free() {
        "Out"@
    } else {
        "Self::Out"@
    }
}

/// The operation has an associated output type.
pub open spec fn has_assoc_out(s: RankPolyOpSpecS) -> bool {
    !s.is_void_return() && !s.is_same_shape() && !s.return_is_free()
}

/// The shadow trait.
pub open spec fn trait_decl(s: RankPolyOpSpecS) -> Text {
    "#[allow(non_camel_case_types)] pub trait "@ + s.trait_ident + " "@ + angle_text(
        trait_generics(s),
    ) + where_text(s.where_clause) + " { "@ + (if has_assoc_out(s) { "type Out; "@ } else { ""@ })
        + (unsafe_text(s.is_unsafe) + "fn "@ + s.method_ident + "("@ + join_text(
        method_inputs(s, open_types(s, "Self"@)),
        ", "@,
    ) + ") -> "@ + trait_return(s)) + "; }"@
}

/// With the first `k` dead lifetimes replaced.
pub open spec fn revived(t: TypeS, dead: Seq<Text>, fresh: Seq<Text>, k: nat) -> TypeS
    decreases k,
{
    if k == 0 {
        t
    } else {
        replaced(revived(t, dead, fresh, (k - 1) as nat), seq![dead[k - 1]], fresh[k - 1])
    }
}

/// The return type at the ranks of a combination.
pub open spec fn concrete_return(s: RankPolyOpSpecS, c: RankComboS) -> Text {
    type_text(
        revived(
            rank_type(s.return_type, c),
            s.dead_lifetimes,
            s.dead_lt_idents,
            s.dead_lifetimes.len(),
        ),
    )
}

/// The arguments of the shadow trait at the ranks of a combination.
pub open spec fn trait_instance_args(s: RankPolyOpSpecS, c: RankComboS) -> Seq<Text> {
    ticked(s.dead_lt_idents) + extra_types(s.args, c, s.args.len()) + dependent_types(
        s,
        c,
        s.args.len(),
    ) + (if s.return_is_free() { seq![concrete_return(s, c)] } else { seq![] }) + param_args(
        s.trait_level_params,
    )
}

/// The generics of an impl.
pub open spec fn impl_generics(s: RankPolyOpSpecS, c: RankComboS) -> Seq<Text> {
    ticked(s.dead_lt_idents) + param_texts(s.impl_only_params) + param_texts(s.trait_level_params)
        + c.dim_params()
}

/// The return type of an impl method.
pub open spec fn impl_return(s: RankPolyOpSpecS, c: RankComboS) -> Text {
    if s.is_void_return() {
        "()"@
    } else if s.is_same_shape() {
        "Self"@
    } else if s.return_is_free() {
        concrete_return(s, c)
    } else {
        "Self::Out"@
    }
}

/// The body of a method that is never called.
pub open spec fn muted_body(names: Seq<Text>) -> Text {
    "{ let _ = ("@ + join_text(names, ", "@) + "); ::std::unreachable!() }"@
}

pub open spec fn impl_head(s: RankPolyOpSpecS, c: RankComboS) -> Text {
    "impl "@ + angle_text(impl_generics(s, c)) + " "@ + s.trait_ident + " "@ + angle_text(
        trait_instance_args(s, c),
    ) + " for "@
}

/// The impl at the ranks of a combination.
pub open spec fn impl_decl(s: RankPolyOpSpecS, c: RankComboS) -> Text {
    impl_head(s, c) + type_text(rank_type(s.args[s.receiver as int].ty, c)) + where_text(
        s.where_clause,
    ) + " { "@ + (if has_assoc_out(s) {
        "type Out = "@ + concrete_return(s, c) + "; "@
    } else {
        ""@
    }) + (unsafe_text(s.is_unsafe) + "fn "@ + s.method_ident + "("@ + join_text(
        method_inputs(s, closed_types(s, c)),
        ", "@,
    ) + ") -> "@ + impl_return(s, c)) + (" "@ + muted_body(other_names(s)) + " }"@)
}

/// All impls: one for each combination of ranks.
pub open spec fn impl_decls(s: RankPolyOpSpecS) -> Seq<Text> {
    Seq::new(
        combo_count(s.cgas, MAX_RANK as nat),
        |i: int| impl_decl(s, combo_at(s.cgas, MAX_RANK as nat, i as nat)),
    )
}

/// The receiver is passed by reference.
pub open spec fn by_reference(s: RankPolyOpSpecS) -> bool {
    s.args[s.receiver as int].ty is Reference
}

/// The type of the receiver in the wrapper: a reference keeps its kind.
pub open spec fn receiver_type(s: RankPolyOpSpecS) -> Text {
    match s.args[s.receiver as int].ty {
        TypeS::Reference { lifetime: _, mutable, elem: _ } => if mutable {
            "& '__td_recv mut __T"@
        } else {
            "& '__td_recv __T"@
        },
        _ => "__T"@,
    }
}

/// The arguments of the shadow trait in the wrapper.
pub open spec fn wrapper_trait_args(s: RankPolyOpSpecS) -> Seq<Text> {
    ticked(s.dead_lt_idents) + extra_names(s.args) + filled(
        s.rank_dep_arg_idents,
        s.rank_dep_arg_idents.len(),
    ) + out_generic(s) + param_args(s.trait_level_params)
}

/// The generics of the wrapper.
pub open spec fn wrapper_generics(s: RankPolyOpSpecS) -> Seq<Text> {
    (if by_reference(s) { seq!["'__td_recv"@] } else { seq![] }) + ticked(s.dead_lt_idents)
        + seq!["__T"@] + extra_names(s.args) + filled(
        s.rank_dep_arg_idents,
        s.rank_dep_arg_idents.len(),
    ) + out_generic(s) + param_texts(s.trait_level_params)
}

pub open spec fn trait_ref(s: RankPolyOpSpecS) -> Text {
    s.trait_ident + " "@ + angle_text(wrapper_trait_args(s))
}

/// The return type of the wrapper.
pub open spec fn wrapper_return(s: RankPolyOpSpecS) -> Text {
    if s.is_void_return() {
        "()"@
    } else if s.is_same_shape() {
        receiver_type(s)
    } else if s.return_is_free() {
        "Out"@
    } else {
        "< "@ + receiver_type(s) + " as "@ + trait_ref(s) + " >::Out"@
    }
}

/// The bound on the receiver, with the predicates of the operation.
pub open spec fn wrapper_where(s: RankPolyOpSpecS) -> Text {
    " where "@ + receiver_type(s) + ": "@ + trait_ref(s) + (match s.where_clause {
        Some(preds) => ", "@ + join_text(preds, " , "@),
        None => ""@,
    })
}

/// The call of the method.
pub open spec fn wrapper_call(s: RankPolyOpSpecS) -> Text {
    s.args[s.receiver as int].name + "."@ + s.method_ident + "("@ + join_text(other_names(s), ", "@)
        + ")"@
}

/// The free function that forwards to the trait.
pub open spec fn wrapper_decl(s: RankPolyOpSpecS) -> Text {
    "pub "@ + unsafe_text(s.is_unsafe) + "fn "@ + s.fn_ident + " "@ + angle_text(
        wrapper_generics(s),
    ) + ("("@ + join_text(declarations(s.args, open_types(s, receiver_type(s))), ", "@) + ") -> "@
        + wrapper_return(s) + wrapper_where(s)) + (if s.is_unsafe {
        " { unsafe { "@ + wrapper_call(s) + " } }"@
    } else {
        " { "@ + wrapper_call(s) + " }"@
    })
}

/// Trait, impls and wrapper of an operation.
pub open spec fn dispatch(s: RankPolyOpSpecS) -> Text {
    trait_decl(s) + "\n"@ + join_text(impl_decls(s), "\n"@) + "\n"@ + wrapper_decl(s)
}

// ---------------------------------------------------------------------------
// Emission
// ---------------------------------------------------------------------------

impl RankPolyOpSpec {
    /// Trait generics allocated for "other shape-bearing args" that aren't Self-like. Named
    /// `Sh0`, `Sh1`, ....
    pub fn extra_shape_trait_generics(&self) -> (r: Vec<String>)
        ensures
            texts(r@) == extra_names(self@.args),
    {
        let mut names: Vec<String> = Vec::new();
        let mut i: usize = 0;
        assert(texts(names@) =~= seq![]);
        while i < self.args.len()
            invariant
                i <= self.args@.len(),
                names@.len() <= i,
                names@.len() == extra_count(self@.args, i as nat),
                texts(names@) == Seq::new(
                    extra_count(self@.args, i as nat),
                    |k: int| extra_name(k as nat),
                ),
            decreases self.args@.len() - i,
        {
            assert(self@.args[i as int] == self.args@[i as int]@);
            if self.args[i].cga.is_some() && !self.args[i].is_self_like {
                let d = decimal(names.len());
                push_text(&mut names, cat2("Sh", d.as_str()));
                assert(texts(names@) =~= Seq::new(
                    extra_count(self@.args, (i + 1) as nat),
                    |k: int| extra_name(k as nat),
                ));
            }
            i = i + 1;
        }
        names
    }

    fn open_arg_types(&self, like: &str) -> (r: Vec<String>)
        requires
            self@.wf(),
        ensures
            texts(r@) == open_types(self@, like@),
    {
        let mut out: Vec<String> = Vec::new();
        let mut extra: usize = 0;
        let mut i: usize = 0;
        while i < self.args.len()
            invariant
                i <= self.args@.len(),
                self@.wf(),
                extra <= i,
                extra == extra_count(self@.args, i as nat),
                out@.len() == i,
                forall|j: int| 0 <= j < i ==> (#[trigger] out@[j])@ == open_type(self@, like@, j),
            decreases self.args@.len() - i,
        {
            let a = &self.args[i];
            assert(self@.args[i as int] == a@);
            assert(self@.rank_dep_arg_idents[i as int] == opt_text(
                self.rank_dep_arg_idents@[i as int],
            ));
            if a.cga.is_some() {
                if a.is_self_like {
                    out.push(like.to_owned());
                } else {
                    let d = decimal(extra);
                    out.push(cat2("Sh", d.as_str()));
                    extra = extra + 1;
                }
            } else {
                match &self.rank_dep_arg_idents[i] {
                    Some(name) => {
                        out.push(name.clone());
                    },
                    None => {
                        let ty = rewrite_literal_cgas_only(&a.ty);
                        out.push(print_type(&ty));
                    },
                }
            }
            i = i + 1;
        }
        assert(texts(out@) =~= open_types(self@, like@));
        out
    }

    fn closed_arg_types(&self, combo: &RankCombo) -> (r: Vec<String>)
        requires
            combo@.wf(),
        ensures
            texts(r@) == closed_types(self@, combo@),
    {
        let mut out: Vec<String> = Vec::new();
        let mut i: usize = 0;
        while i < self.args.len()
            invariant
                i <= self.args@.len(),
                combo@.wf(),
                out@.len() == i,
                forall|j: int|
                    0 <= j < i ==> (#[trigger] out@[j])@ == closed_type(self@, combo@, j),
            decreases self.args@.len() - i,
        {
            let a = &self.args[i];
            assert(self@.args[i as int] == a@);
            if a.cga.is_some() && a.is_self_like {
                out.push("Self".to_owned());
            } else {
                let ty = rewrite_ty_for_rank(&a.ty, combo);
                out.push(print_type(&ty));
            }
            i = i + 1;
        }
        assert(texts(out@) =~= closed_types(self@, combo@));
        out
    }

    fn declare(&self, types: &Vec<String>) -> (r: Vec<String>)
        requires
            types@.len() == self@.args.len(),
        ensures
            texts(r@) == declarations(self@.args, texts(types@)),
            r@.len() == self@.args.len(),
    {
        let mut out: Vec<String> = Vec::new();
        let mut i: usize = 0;
        while i < self.args.len()
            invariant
                i <= self.args@.len(),
                types@.len() == self.args@.len(),
                out@.len() == i,
                forall|j: int|
                    0 <= j < i ==> (#[trigger] out@[j])@ == self@.args[j].name + ": "@
                        + types@[j]@,
            decreases self.args@.len() - i,
        {
            assert(self@.args[i as int] == self.args@[i as int]@);
            out.push(cat3(self.args[i].name.as_str(), ": ", types[i].as_str()));
            i = i + 1;
        }
        assert(texts(out@) =~= declarations(self@.args, texts(types@)));
        out
    }

    /// The method's argument list. `self` is always first regardless of where the first
    /// shape-bearing arg appears in the source signature.
    fn inputs(&self, types: &Vec<String>) -> (r: Vec<String>)
        requires
            self@.wf(),
            types@.len() == self@.args.len(),
        ensures
            texts(r@) == method_inputs(self@, texts(types@)),
    {
        let decls = self.declare(types);
        let mut out = one_if(true, "self");
        append_all(&mut out, &without(&decls, self.receiver));
        out
    }

    /// The names of the arguments other than the receiver.
    pub fn method_arg_idents_muted(&self) -> (r: Vec<String>)
        requires
            self@.wf(),
        ensures
            texts(r@) == other_names(self@),
    {
        let mut names: Vec<String> = Vec::new();
        let mut i: usize = 0;
        while i < self.args.len()
            invariant
                i <= self.args@.len(),
                names@.len() == i,
                forall|j: int| 0 <= j < i ==> (#[trigger] names@[j])@ == self@.args[j].name,
            decreases self.args@.len() - i,
        {
            assert(self@.args[i as int] == self.args@[i as int]@);
            names.push(self.args[i].name.clone());
            i = i + 1;
        }
        assert(texts(names@) =~= arg_names(self@.args));
        without(&names, self.receiver)
    }

    /// The shadow trait.
    pub fn emit_trait(&self) -> (r: String)
        requires
            self@.wf(),
        ensures
            r@ == trait_decl(self@),
    {
        let mut params = tick(&self.dead_lt_idents);
        append_all(&mut params, &self.extra_shape_trait_generics());
        append_all(&mut params, &fill(&self.rank_dep_arg_idents));
        append_all(&mut params, &one_if(self.return_is_free(), "Out"));
        append_all(&mut params, &print_params(&self.trait_level_params));
        let generics = print_angle(&params);
        let types = self.open_arg_types("Self");
        assert(texts(types@).len() == self@.args.len());
        let inputs = join(&self.inputs(&types), ", ");
        let ret = if self.is_void_return() {
            "()"
        } else if self.is_same_shape() {
            "Self"
        } else if self.return_is_free() {
            "Out"
        } else {
            "Self::Out"
        };
        let assoc = if !self.is_void_return() && !self.is_same_shape() && !self.return_is_free() {
            "type Out; "
        } else {
            ""
        };
        let preds = print_where(&self.where_clause);
        let kw = if self.is_unsafe { "unsafe " } else { "" };
        let method = cat7(
            kw,
            "fn ",
            self.method_ident.as_str(),
            "(",
            inputs.as_str(),
            ") -> ",
            ret,
        );
        let head = cat5(
            "#[allow(non_camel_case_types)] pub trait ",
            self.trait_ident.as_str(),
            " ",
            generics.as_str(),
            preds.as_str(),
        );
        cat5(head.as_str(), " { ", assoc, method.as_str(), "; }")
    }

    fn return_concrete(&self, combo: &RankCombo) -> (r: String)
        requires
            self@.wf(),
            combo@.wf(),
        ensures
            r@ == concrete_return(self@, combo@),
    {
        let mut ty = rewrite_ty_for_rank(&self.return_type, combo);
        let ghost start = ty@;
        let mut i: usize = 0;
        while i < self.dead_lifetimes.len()
            invariant
                i <= self.dead_lifetimes@.len(),
                self@.wf(),
                ty@ == revived(start, self@.dead_lifetimes, self@.dead_lt_idents, i as nat),
            decreases self.dead_lifetimes@.len() - i,
        {
            let mut dead: Vec<String> = Vec::new();
            dead.push(self.dead_lifetimes[i].clone());
            assert(texts(dead@) =~= seq![self@.dead_lifetimes[i as int]]);
            assert(self@.dead_lt_idents.len() == self.dead_lt_idents@.len());
            assert(self@.dead_lt_idents[i as int] == self.dead_lt_idents@[i as int]@);
            ty = replace_lifetimes_with(&ty, &dead, self.dead_lt_idents[i].as_str());
            i = i + 1;
        }
        print_type(&ty)
    }

    fn extra_shape_bindings(&self, combo: &RankCombo) -> (r: Vec<String>)
        requires
            combo@.wf(),
        ensures
            texts(r@) == extra_types(self@.args, combo@, self@.args.len()),
    {
        let mut out: Vec<String> = Vec::new();
        let mut i: usize = 0;
        assert(texts(out@) =~= seq![]);
        while i < self.args.len()
            invariant
                i <= self.args@.len(),
                combo@.wf(),
                texts(out@) == extra_types(self@.args, combo@, i as nat),
            decreases self.args@.len() - i,
        {
            let a = &self.args[i];
            assert(self@.args[i as int] == a@);
            if a.cga.is_some() && !a.is_self_like {
                let ty = rewrite_ty_for_rank(&a.ty, combo);
                push_text(&mut out, print_type(&ty));
            }
            i = i + 1;
        }
        out
    }

    fn rank_dependent_bindings(&self, combo: &RankCombo) -> (r: Vec<String>)
        requires
            self@.wf(),
            combo@.wf(),
        ensures
            texts(r@) == dependent_types(self@, combo@, self@.args.len()),
    {
        let mut out: Vec<String> = Vec::new();
        let mut i: usize = 0;
        assert(texts(out@) =~= seq![]);
        while i < self.args.len()
            invariant
                i <= self.args@.len(),
                self@.wf(),
                combo@.wf(),
                texts(out@) == dependent_types(self@, combo@, i as nat),
            decreases self.args@.len() - i,
        {
            assert(self@.args[i as int] == self.args@[i as int]@);
            assert(self@.rank_dep_arg_idents[i as int] == opt_text(
                self.rank_dep_arg_idents@[i as int],
            ));
            if self.rank_dep_arg_idents[i].is_some() {
                let ty = rewrite_ty_for_rank(&self.args[i].ty, combo);
                push_text(&mut out, print_type(&ty));
            }
            i = i + 1;
        }
        out
    }

    fn trait_instantiation_args(&self, combo: &RankCombo, ret: &str) -> (r: Vec<String>)
        requires
            self@.wf(),
            combo@.wf(),
            ret@ == concrete_return(self@, combo@),
        ensures
            texts(r@) == trait_instance_args(self@, combo@),
    {
        let mut args = tick(&self.dead_lt_idents);
        append_all(&mut args, &self.extra_shape_bindings(combo));
        append_all(&mut args, &self.rank_dependent_bindings(combo));
        append_all(&mut args, &one_if(self.return_is_free(), ret));
        append_all(&mut args, &pass_params(&self.trait_level_params));
        args
    }

    fn impl_params(&self, combo: &RankCombo) -> (r: Vec<String>)
        requires
            combo@.wf(),
        ensures
            texts(r@) == impl_generics(self@, combo@),
    {
        let mut params = tick(&self.dead_lt_idents);
        append_all(&mut params, &print_params(&self.impl_only_params));
        append_all(&mut params, &print_params(&self.trait_level_params));
        append_all(&mut params, &combo.dim_params_tokens());
        params
    }

    /// The impl of the shadow trait at the ranks of a combination.
    pub fn emit_impl(&self, combo: &RankCombo) -> (r: String)
        requires
            self@.wf(),
            combo@.wf(),
        ensures
            r@ == impl_decl(self@, combo@),
    {
        let receiver = &self.args[self.receiver];
        assert(self@.args[self.receiver as int] == receiver@);
        let self_type = print_type(&rewrite_ty_for_rank(&receiver.ty, combo));
        let concrete = self.return_concrete(combo);
        let args = print_angle(&self.trait_instantiation_args(combo, concrete.as_str()));
        let generics = print_angle(&self.impl_params(combo));
        let types = self.closed_arg_types(combo);
        assert(texts(types@).len() == self@.args.len());
        let inputs = join(&self.inputs(&types), ", ");
        let muted = join(&self.method_arg_idents_muted(), ", ");
        let ret = if self.is_void_return() {
            "()".to_owned()
        } else if self.is_same_shape() {
            "Self".to_owned()
        } else if self.return_is_free() {
            concrete.clone()
        } else {
            "Self::Out".to_owned()
        };
        let assoc = if !self.is_void_return() && !self.is_same_shape() && !self.return_is_free() {
            cat3("type Out = ", concrete.as_str(), "; ")
        } else {
            "".to_owned()
        };
        let preds = print_where(&self.where_clause);
        let kw = if self.is_unsafe { "unsafe " } else { "" };
        let method = cat7(
            kw,
            "fn ",
            self.method_ident.as_str(),
            "(",
            inputs.as_str(),
            ") -> ",
            ret.as_str(),
        );
        let muted_body = cat3("{ let _ = (", muted.as_str(), "); ::std::unreachable!() }");
        let body = cat3(" ", muted_body.as_str(), " }");
        let head = cat7(
            "impl ",
            generics.as_str(),
            " ",
            self.trait_ident.as_str(),
            " ",
            args.as_str(),
            " for ",
        );
        cat7(
            head.as_str(),
            self_type.as_str(),
            preds.as_str(),
            " { ",
            assoc.as_str(),
            method.as_str(),
            body.as_str(),
        )
    }

    /// The impls for all combinations of ranks.
    pub fn emit_impls(&self) -> (r: Vec<String>)
        requires
            self@.wf(),
            combo_count(self@.cgas, MAX_RANK as nat) <= usize::MAX,
        ensures
            texts(r@) == impl_decls(self@),
    {
        let space = RankSpace::new(&self.cgas, MAX_RANK);
        let all = space.iter();
        let arrays: usize = self.cgas.len();
        let mut impls: Vec<String> = Vec::new();
        let mut i: usize = 0;
        assert(views(all@).len() == all@.len());
        while i < all.len()
            invariant
                i <= all@.len(),
                self@.wf(),
                self@.cgas.len() == arrays,
                all@.len() == combo_count(self@.cgas, MAX_RANK as nat),
                views(all@) == combos(self@.cgas, MAX_RANK as nat),
                impls@.len() == i,
                forall|j: int|
                    0 <= j < i ==> (#[trigger] impls@[j])@ == impl_decl(
                        self@,
                        combo_at(self@.cgas, MAX_RANK as nat, j as nat),
                    ),
            decreases all@.len() - i,
        {
            assert(views(all@)[i as int] == all@[i as int]@);
            proof {
                lemma_combo_wf(self@.cgas, MAX_RANK as nat, i as nat);
            }
            impls.push(self.emit_impl(&all[i]));
            i = i + 1;
        }
        assert(texts(impls@) =~= impl_decls(self@));
        impls
    }

    fn receiver_ty_expr(&self) -> (r: &'static str)
        requires
            self@.wf(),
        ensures
            r@ == receiver_type(self@),
    {
        let receiver = &self.args[self.receiver];
        assert(self@.args[self.receiver as int] == receiver@);
        match &receiver.ty {
            Type::Reference { lifetime: _, mutable, elem: _ } => if *mutable {
                "& '__td_recv mut __T"
            } else {
                "& '__td_recv __T"
            },
            _ => "__T",
        }
    }

    fn is_by_reference(&self) -> (r: bool)
        requires
            self@.wf(),
        ensures
            r == by_reference(self@),
    {
        let receiver = &self.args[self.receiver];
        assert(self@.args[self.receiver as int] == receiver@);
        match &receiver.ty {
            Type::Reference { .. } => true,
            _ => false,
        }
    }

    fn wrapper_params(&self) -> (r: Vec<String>)
        requires
            self@.wf(),
        ensures
            texts(r@) == wrapper_generics(self@),
    {
        let mut params = one_if(self.is_by_reference(), "'__td_recv");
        append_all(&mut params, &tick(&self.dead_lt_idents));
        append_all(&mut params, &one_if(true, "__T"));
        append_all(&mut params, &self.extra_shape_trait_generics());
        append_all(&mut params, &fill(&self.rank_dep_arg_idents));
        append_all(&mut params, &one_if(self.return_is_free(), "Out"));
        append_all(&mut params, &print_params(&self.trait_level_params));
        params
    }

    fn trait_reference(&self) -> (r: String)
        requires
            self@.wf(),
        ensures
            r@ == trait_ref(self@),
    {
        let mut args = tick(&self.dead_lt_idents);
        append_all(&mut args, &self.extra_shape_trait_generics());
        append_all(&mut args, &fill(&self.rank_dep_arg_idents));
        append_all(&mut args, &one_if(self.return_is_free(), "Out"));
        append_all(&mut args, &pass_params(&self.trait_level_params));
        let angle = print_angle(&args);
        cat3(self.trait_ident.as_str(), " ", angle.as_str())
    }

    /// The free function that forwards to the trait.
    ///
    /// The trait's Self type is the receiver's type as it is written, reference included, but
    /// the wrapper takes a concrete `&T` / `&mut T` so that reborrow and `&mut → &` coercion
    /// kick in at the call site.
    pub fn emit_wrapper(&self) -> (r: String)
        requires
            self@.wf(),
        ensures
            r@ == wrapper_decl(self@),
    {
        let receiver = &self.args[self.receiver];
        assert(self@.args[self.receiver as int] == receiver@);
        let recv = self.receiver_ty_expr();
        let generics = print_angle(&self.wrapper_params());
        let reference = self.trait_reference();
        let types = self.open_arg_types(recv);
        assert(texts(types@).len() == self@.args.len());
        let args = join(&self.declare(&types), ", ");
        let ret = if self.is_void_return() {
            "()".to_owned()
        } else if self.is_same_shape() {
            recv.to_owned()
        } else if self.return_is_free() {
            "Out".to_owned()
        } else {
            cat5("< ", recv, " as ", reference.as_str(), " >::Out")
        };
        let preds = match &self.where_clause {
            Some(preds) => {
                let list = join(preds, " , ");
                cat2(", ", list.as_str())
            },
            None => "".to_owned(),
        };
        let bound = cat5(" where ", recv, ": ", reference.as_str(), preds.as_str());
        let others = join(&self.method_arg_idents_muted(), ", ");
        let call = cat6(
            receiver.name.as_str(),
            ".",
            self.method_ident.as_str(),
            "(",
            others.as_str(),
            ")",
        );
        let body = if self.is_unsafe {
            cat3(" { unsafe { ", call.as_str(), " } }")
        } else {
            cat3(" { ", call.as_str(), " }")
        };
        let kw = if self.is_unsafe { "unsafe " } else { "" };
        let head = cat6("pub ", kw, "fn ", self.fn_ident.as_str(), " ", generics.as_str());
        let signature = cat5("(", args.as_str(), ") -> ", ret.as_str(), bound.as_str());
        cat3(head.as_str(), signature.as_str(), body.as_str())
    }
}

/// The combinations of ranks of an operation can be counted.
pub open spec fn op_fits(item: ItemFnS) -> bool {
    declared_cgas(item.sig.generics.params) matches Ok(cgas) ==> combo_count(cgas, MAX_RANK as nat)
        <= usize::MAX
}

/// Emit trait + impls + wrapper for a rank-polymorphic op.
///
/// `method_override` lets the caller set the trait method name to something other than the
/// fn ident, for ops whose user-facing method differs from the free-fn name (e.g.
/// `reshape_ptr` → method `reshape`). When `None`, the fn ident is used.
///
/// `trait_name_override` lets the caller set the synthesized trait name to something other
/// than `PascalCase(fn_ident)`, to avoid collisions with user-defined traits.
pub fn emit_shadow_dispatch(
    item: &ItemFn,
    method_override: Option<String>,
    trait_name_override: Option<String>,
) -> (r: Result<String, Error>)
    requires
        op_fits(item@),
    ensures
        match parse_op(item@, opt_text(method_override), opt_text(trait_name_override)) {
            Ok(s) => r matches Ok(text) && text@ == dispatch(s),
            Err(x) => r matches Err(e) && e@ == x,
        },
{
    let spec = match RankPolyOpSpec::parse(item, method_override, trait_name_override) {
        Ok(s) => s,
        Err(e) => {
            return Err(e);
        },
    };
    let trait_decl = spec.emit_trait();
    let impls = join(&spec.emit_impls(), "\n");
    let wrapper = spec.emit_wrapper();
    Ok(cat5(trait_decl.as_str(), "\n", impls.as_str(), "\n", wrapper.as_str()))
}

} // verus!
