//! What the Rust grammar says of a piece of source text.
//!
//! The text is read by `proc_macro2` and `syn`. A reader returns nothing but
//! whether the text is well formed, and the message that goes with it if not: a
//! text that is well formed is kept as it stands.
use crate::error::{error_at, Error, ErrorS, SpannedError};
use crate::print::angle_text;
use crate::rank_instantiation::bindings::VarCgaS;
use crate::rank_instantiation::variadic::{constructor_impl, plain_constructors};
use crate::text::{cat3, join_text, opt_text, Text};
use std::str::FromStr;
use vstd::prelude::*;

verus! {

/// Whether `proc_macro2` splits a text into tokens.
///
/// `proc_macro2` hands the text to the compiler inside a macro and reads it itself elsewhere.
/// In one process it does the same throughout; what is named here and below is its result in
/// the process at hand.
pub uninterp spec fn tokenizes(source: Text) -> bool;

/// The message with which `syn` refuses a text as a generic parameter, if it does.
pub uninterp spec fn generic_param_refusal(source: Text) -> Option<Text>;

/// The message with which `syn` refuses a text as a list of generic arguments
/// between angle brackets, if it does.
pub uninterp spec fn generic_args_refusal(source: Text) -> Option<Text>;

/// The message with which `syn` refuses a text as an impl block, if it does.
pub uninterp spec fn item_impl_refusal(source: Text) -> Option<Text>;

/// The message with which `syn` refuses a text as an expression, if it does.
pub uninterp spec fn expr_refusal(source: Text) -> Option<Text>;

// ---------------------------------------------------------------------------
// Source that is well formed
// ---------------------------------------------------------------------------

/// An ASCII letter, digit or `_`.
pub open spec fn word_char(c: char) -> bool {
    ||| '0' <= c <= '9'
    ||| 'A' <= c <= 'Z'
    ||| 'a' <= c <= 'z'
    ||| c == '_'
}

pub open spec fn letter(c: char) -> bool {
    'A' <= c <= 'Z' || 'a' <= c <= 'z'
}

/// A word of the form of a name: it starts with an ASCII letter, or with `_` and more behind,
/// such as `Tile`, `_S`, `f32` or `fn`.
pub open spec fn name_word(t: Text) -> bool {
    &&& t.len() > 0
    &&& letter(t[0]) || t[0] == '_' && t.len() > 1
    &&& forall|i: int| 0 <= i < t.len() ==> word_char(#[trigger] t[i])
}

/// A word that ends in a digit, such as `S_0` or `f32`: a name, never a keyword.
pub open spec fn numbered_word(t: Text) -> bool {
    &&& name_word(t)
    &&& '0' <= t.last() <= '9'
}

/// The primitive types whose names do not end in a digit.
pub open spec fn primitive_word(t: Text) -> bool {
    ||| t == "bool"@
    ||| t == "char"@
    ||| t == "isize"@
    ||| t == "str"@
    ||| t == "usize"@
}

/// A word that reads as a name: it starts with a capital or with `_`, ends in a digit, or is a
/// primitive type. No keyword does but `Self`, which stands for a type.
pub open spec fn plain_word(t: Text) -> bool {
    ||| name_word(t) && !('a' <= t[0] <= 'z')
    ||| numbered_word(t)
    ||| primitive_word(t)
}

/// A text of decimal digits.
pub open spec fn number_word(t: Text) -> bool {
    &&& t.len() > 0
    &&& forall|i: int| 0 <= i < t.len() ==> '0' <= #[trigger] t[i] <= '9'
}

/// A name or a number, as an element of an array.
pub open spec fn simple_elem(t: Text) -> bool {
    plain_word(t) || number_word(t)
}

pub open spec fn simple_elems(v: Seq<Text>) -> bool {
    forall|i: int| 0 <= i < v.len() ==> simple_elem(#[trigger] v[i])
}

/// A generic argument of plain form: a name, a number, a number with a minus in front, or a
/// name with arguments of plain form.
pub enum PlainS {
    Name(Text),
    Number(Text),
    Negative(Text),
    Generic(Text, Seq<PlainS>),
}

/// The words in it are what they are meant to be.
pub open spec fn plain_wf(p: PlainS) -> bool
    decreases p,
{
    match p {
        PlainS::Name(t) => plain_word(t),
        PlainS::Number(t) => number_word(t),
        PlainS::Negative(t) => number_word(t),
        PlainS::Generic(t, args) => plain_word(t) && !plain_wfs(args).contains(false),
    }
}

pub open spec fn plain_wfs(v: Seq<PlainS>) -> Seq<bool>
    decreases v,
{
    Seq::new(v.len(), |i: int| if 0 <= i < v.len() { plain_wf(v[i]) } else { true })
}

pub open spec fn plain_text(p: PlainS) -> Text
    decreases p,
{
    match p {
        PlainS::Name(t) => t,
        PlainS::Number(t) => t,
        PlainS::Negative(t) => "- "@ + t,
        PlainS::Generic(t, args) => t + " "@ + angle_text(plain_texts(args)),
    }
}

pub open spec fn plain_texts(v: Seq<PlainS>) -> Seq<Text>
    decreases v,
{
    Seq::new(v.len(), |i: int| if 0 <= i < v.len() { plain_text(v[i]) } else { seq![] })
}

/// The text of a generic argument of plain form.
pub open spec fn simple_arg(t: Text) -> bool {
    exists|p: PlainS| plain_wf(p) && #[trigger] plain_text(p) == t
}

pub open spec fn simple_args(args: Seq<Text>) -> bool {
    forall|i: int| 0 <= i < args.len() ==> simple_arg(#[trigger] args[i])
}

/// A name, a number and a number with a minus in front are arguments of plain form.
pub proof fn lemma_simple(t: Text)
    ensures
        plain_word(t) ==> simple_arg(t),
        number_word(t) ==> simple_arg(t) && simple_arg("- "@ + t),
{
    if plain_word(t) {
        assert(plain_wf(PlainS::Name(t)) && plain_text(PlainS::Name(t)) == t);
    }
    if number_word(t) {
        assert(plain_wf(PlainS::Number(t)) && plain_text(PlainS::Number(t)) == t);
        assert(plain_wf(PlainS::Negative(t)) && plain_text(PlainS::Negative(t)) == "- "@ + t);
    }
}

pub proof fn lemma_simple_elems(v: Seq<Text>)
    requires
        simple_elems(v),
    ensures
        simple_args(v),
{
    assert forall|i: int| 0 <= i < v.len() implies simple_arg(#[trigger] v[i]) by {
        lemma_simple(v[i]);
    }
}

/// A name with arguments of plain form is one.
pub proof fn lemma_simple_generic(name: Text, args: Seq<Text>)
    requires
        plain_word(name),
        simple_args(args),
    ensures
        simple_arg(name + " "@ + angle_text(args)),
{
    let parts = Seq::new(
        args.len(),
        |i: int| choose|p: PlainS| plain_wf(p) && #[trigger] plain_text(p) == args[i],
    );
    assert forall|i: int| 0 <= i < args.len() implies plain_wf(#[trigger] parts[i]) && plain_text(
        parts[i],
    ) == args[i] by {
        assert(simple_arg(args[i]));
    }
    assert(plain_texts(parts) =~= args);
    assert forall|i: int| 0 <= i < parts.len() implies #[trigger] plain_wfs(parts)[i] by {
        assert(plain_wf(parts[i]));
    }
    let p = PlainS::Generic(name, parts);
    assert(plain_wf(p) && plain_text(p) == name + " "@ + angle_text(args));
}

/// The declaration of a const parameter.
pub open spec fn const_param_source(name: Text, ty: Text) -> Text {
    "const "@ + name + ": "@ + ty
}

/// A list of generic arguments.
pub open spec fn args_source(args: Seq<Text>) -> Text {
    "<"@ + join_text(args, ","@) + ">"@
}

/// A call of `const_new` on a type with an array argument.
pub open spec fn const_new_source(ty: Text, args: Seq<Text>) -> Text {
    ty + "::<{["@ + join_text(args, ", "@) + "]}>::const_new()"@
}

// ---------------------------------------------------------------------------
// Readers
// ---------------------------------------------------------------------------

/// Calls `proc_macro2::TokenStream::from_str`; the result says whether it
/// succeeded. It does for a number, for the declaration of a const parameter whose
/// name is a numbered word and whose type is `i32`, and for a list of arguments of
/// plain form between angle brackets: these are names, numbers and punctuation. It does
/// for an impl block of constructors of plain form, which has lifetimes and closed brackets
/// besides.
#[verifier::external_body]
pub(crate) fn splits_into_tokens(source: &str) -> (r: bool)
    ensures
        r == tokenizes(source@),
        number_word(source@) ==> r,
        forall|name: Text|
            numbered_word(name) && source@ == #[trigger] const_param_source(name, "i32"@) ==> r,
        forall|args: Seq<Text>|
            simple_args(args) && source@ == #[trigger] args_source(args) ==> r,
        forall|name: Text, constructor: Text, cgas: Seq<VarCgaS>, lengths: Seq<u32>|
            plain_constructors(name, constructor, cgas, lengths) && source@
                == #[trigger] constructor_impl(name, constructor, cgas, lengths) ==> r,
{
    proc_macro2::TokenStream::from_str(source).is_ok()
}

/// Calls `syn::parse_str` for a `syn::GenericParam`; the result is the message of
/// the error, where there is one. There is none for the declaration of a const
/// parameter whose name is a numbered word and whose type is `i32`.
#[verifier::external_body]
pub(crate) fn refuse_generic_param(source: &str) -> (r: Option<String>)
    ensures
        opt_text(r) == generic_param_refusal(source@),
        forall|name: Text|
            numbered_word(name) && source@ == #[trigger] const_param_source(name, "i32"@)
                ==> r is None,
{
    syn::parse_str::<syn::GenericParam>(source).err().map(|e| e.to_string())
}

/// Calls `syn::parse_str` for a `syn::AngleBracketedGenericArguments`; the result
/// is the message of the error, where there is one. There is none for a list of
/// arguments of plain form: a name, with arguments or without, reads as a type, and a
/// number, with a minus or without, as a literal.
#[verifier::external_body]
pub(crate) fn refuse_generic_args(source: &str) -> (r: Option<String>)
    ensures
        opt_text(r) == generic_args_refusal(source@),
        forall|args: Seq<Text>|
            simple_args(args) && source@ == #[trigger] args_source(args) ==> r is None,
{
    syn::parse_str::<syn::AngleBracketedGenericArguments>(source).err().map(|e| e.to_string())
}

/// Calls `syn::parse_str` for a `syn::Expr`; the result is the message of the
/// error, where there is one. There is none for a number, and none for a call of
/// `const_new` on a type whose name is a plain word and whose array argument
/// consists of names and numbers.
#[verifier::external_body]
pub(crate) fn refuse_expr(source: &str) -> (r: Option<String>)
    ensures
        opt_text(r) == expr_refusal(source@),
        number_word(source@) ==> r is None,
        forall|ty: Text, args: Seq<Text>|
            plain_word(ty) && simple_elems(args) && source@ == #[trigger] const_new_source(
                ty,
                args,
            ) ==> r is None,
{
    syn::parse_str::<syn::Expr>(source).err().map(|e| e.to_string())
}

/// Calls `syn::parse_str` for a `syn::ItemImpl`; the result is the message of the
/// error, where there is one. There is none for an impl block of constructors of plain
/// form: const parameters of type `i32`, a type with arguments, and functions whose
/// bodies are struct literals.
#[verifier::external_body]
pub(crate) fn refuse_item_impl(source: &str) -> (r: Option<String>)
    ensures
        opt_text(r) == item_impl_refusal(source@),
        forall|name: Text, constructor: Text, cgas: Seq<VarCgaS>, lengths: Seq<u32>|
            plain_constructors(name, constructor, cgas, lengths) && source@
                == #[trigger] constructor_impl(name, constructor, cgas, lengths) ==> r is None,
{
    syn::parse_str::<syn::ItemImpl>(source).err().map(|e| e.to_string())
}

/// The literal that `proc_macro2` writes for a string, in the process at hand.
pub uninterp spec fn string_literal(value: Text) -> Text;

/// Calls `proc_macro2::Literal::string`. A string of ASCII letters, digits and `_` is put
/// between quotes as it stands.
#[verifier::external_body]
pub(crate) fn quote_string(value: &str) -> (r: String)
    ensures
        r@ == string_literal(value@),
        (forall|i: int| 0 <= i < value@.len() ==> word_char(#[trigger] value@[i])) ==> r@
            == seq!['"'] + value@ + seq!['"'],
{
    proc_macro2::Literal::string(value).to_string()
}

// ---------------------------------------------------------------------------
// Verdicts
// ---------------------------------------------------------------------------

/// What is made of a reading: a text that does not split into tokens fails with
/// `failure`, one that is refused with `failure` and the reason.
pub open spec fn verdict(
    at: Text,
    failure: Text,
    tokenized: bool,
    refusal: Option<Text>,
) -> Result<(), ErrorS> {
    if !tokenized {
        Err(error_at(at, failure))
    } else {
        match refusal {
            Some(reason) => Err(error_at(at, failure + ": "@ + reason)),
            None => Ok(()),
        }
    }
}

/// Turns a reading into a result.
pub fn judge(at: &str, failure: &str, tokenized: bool, refusal: Option<String>) -> (r: Result<
    (),
    Error,
>)
    ensures
        match r {
            Ok(_) => verdict(at@, failure@, tokenized, opt_text(refusal)) is Ok,
            Err(e) => verdict(at@, failure@, tokenized, opt_text(refusal)) == Err::<(), ErrorS>(
                e@,
            ),
        },
{
    if !tokenized {
        return at.to_owned().err(failure);
    }
    match refusal {
        Some(reason) => {
            let m = cat3(failure, ": ", reason.as_str());
            at.to_owned().err(m.as_str())
        },
        None => Ok(()),
    }
}

// ---------------------------------------------------------------------------
// Numbers
// ---------------------------------------------------------------------------

/// The value of a decimal digit.
pub open spec fn digit_value(c: char) -> Option<nat> {
    if '0' <= c <= '9' {
        Some((c as int - '0' as int) as nat)
    } else {
        None
    }
}

/// The value of a list of decimal digits.
pub open spec fn digits_value(t: Text) -> Option<nat>
    decreases t.len(),
{
    if t.len() == 0 {
        Some(0)
    } else {
        match (digits_value(t.drop_last()), digit_value(t.last())) {
            (Some(high), Some(low)) => Some(high * 10 + low),
            _ => None,
        }
    }
}

/// The number that a text of decimal digits, with or without a `+` in front, stands
/// for, if it fits.
pub open spec fn u32_value(t: Text) -> Option<u32> {
    let body = if t.len() > 0 && t[0] == '+' { t.drop_first() } else { t };
    if body.len() == 0 {
        None
    } else {
        match digits_value(body) {
            Some(n) => if n <= u32::MAX { Some(n as u32) } else { None },
            None => None,
        }
    }
}

/// The message with which `str::parse::<u32>` fails.
pub uninterp spec fn u32_refusal(source: Text) -> Text;

/// Calls `str::parse::<u32>`. It yields the number that an optional `+` and decimal
/// digits stand for, and fails on anything else and on a number that does not fit.
#[verifier::external_body]
pub(crate) fn parse_u32(source: &str) -> (r: Result<u32, String>)
    ensures
        match r {
            Ok(n) => u32_value(source@) == Some(n),
            Err(m) => u32_value(source@) is None && m@ == u32_refusal(source@),
        },
{
    source.parse::<u32>().map_err(|e| e.to_string())
}

} // verus!
