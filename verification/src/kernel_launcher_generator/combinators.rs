//! Tuples and the statements that zip lazy values together.
use crate::text::{
    cat3, cat4, cat5, cat6, cat7, decimal, decimal_text, join_text, lemma_texts_push, texts, Text,
};
use vstd::prelude::*;

verus! {

// ---------------------------------------------------------------------------
// Tuples
// ---------------------------------------------------------------------------

/// The values as pairs nested to the right.
pub open spec fn cons_text(vals: Seq<Text>) -> Text
    decreases vals.len(),
{
    if vals.len() == 0 {
        "()"@
    } else if vals.len() == 1 {
        vals[0]
    } else {
        "("@ + vals[0] + ", "@ + cons_text(vals.drop_first()) + ")"@
    }
}

/// Joins a vector of strings into a nested cons-cell tuple structure.
///
/// - `[]` → `"()"`
/// - `["a"]` → `"a"`
/// - `["a", "b"]` → `"(a, b)"`
/// - `["a", "b", "c"]` → `"(a, (b, c))"`
pub fn join_as_cons_tuple(vals: &[String]) -> (r: String)
    ensures
        r@ == cons_text(texts(vals@)),
{
    let ghost all = texts(vals@);
    if vals.len() == 0 {
        return "()".to_owned();
    }
    let mut i: usize = vals.len() - 1;
    let mut cons = vals[i].clone();
    assert(all.skip(i as int).len() == 1);
    while i > 0
        invariant
            i < vals@.len(),
            all == texts(vals@),
            cons@ == cons_text(all.skip(i as int)),
        decreases i,
    {
        assert(all.skip(i - 1).drop_first() =~= all.skip(i as int));
        i = i - 1;
        cons = cat5("(", vals[i].as_str(), ", ", cons.as_str(), ")");
    }
    assert(all.skip(0) =~= all);
    cons
}

/// The values as a flat tuple with a comma behind the last.
pub open spec fn tuple_text(args: Seq<Text>) -> Text {
    if args.len() == 0 { "()"@ } else { "("@ + join_text(args, ", "@) + ",)"@ }
}

/// Converts a vector of strings into a flat tuple string representation:
/// `["x", "y", "z"]` → `"(x, y, z,)"`.
pub fn to_tuple_string(args: &[String]) -> (r: String)
    ensures
        r@ == tuple_text(texts(args@)),
{
    let n: usize = args.len();
    if n == 0 {
        return "()".to_owned();
    }
    let ghost all = texts(args@);
    let mut body = args[0].clone();
    let mut i: usize = 1;
    assert(all.take(1).len() == 1);
    while i < n
        invariant
            1 <= i <= n,
            n == args@.len(),
            all == texts(args@),
            body@ == join_text(all.take(i as int), ", "@),
        decreases n - i,
    {
        assert(all.take(i + 1).drop_last() =~= all.take(i as int));
        body = cat3(body.as_str(), ", ", args[i].as_str());
        i = i + 1;
    }
    assert(all.take(i as int) =~= all);
    cat3("(", body.as_str(), ",)")
}

// ---------------------------------------------------------------------------
// Zips
// ---------------------------------------------------------------------------

/// An expression as a lazy value.
pub open spec fn zippable_text(expr: Text, wrap_as_val: bool) -> Text {
    if wrap_as_val { "value("@ + expr + ")"@ } else { expr }
}

/// Wraps an expression in a `value()` call if needed for device-operation combinators.
pub fn zippable(expr: &str, wrap_as_val: bool) -> (r: String)
    ensures
        r@ == zippable_text(expr@, wrap_as_val),
{
    if !wrap_as_val {
        return expr.to_owned();
    }
    cat3("value(", expr, ")")
}

/// The statements that zip the last `k` inputs: the last input is bound first, and each
/// further one, in reverse order, is zipped with what is bound.
pub open spec fn zip_stmts(inputs: Seq<Text>, var: Text, wrap: bool, k: nat) -> Seq<Text>
    decreases k,
{
    if k == 0 {
        seq![]
    } else {
        let input = zippable_text(inputs[inputs.len() - k], wrap);
        let rest = zip_stmts(inputs, var, wrap, (k - 1) as nat);
        if k == 1 {
            seq!["let "@ + var + " = "@ + input + ";"@]
        } else {
            rest.push("let "@ + var + " = zip!("@ + input + ", "@ + var + ");"@)
        }
    }
}

/// Generates code to zip inputs into a cons-cell tuple structure.
///
/// Creates the statements that use the `zip!` macro to combine values into a nested tuple.
/// Each input is zipped with the accumulator in reverse order to create a right-associated
/// structure. No input gives no statement.
pub fn zip_cons(inputs: &[String], var_name: &str, wrap_as_val: bool) -> (r: Vec<String>)
    ensures
        texts(r@) == zip_stmts(texts(inputs@), var_name@, wrap_as_val, inputs@.len()),
{
    let ghost all = texts(inputs@);
    let n: usize = inputs.len();
    let mut stmts: Vec<String> = Vec::new();
    assert(texts(stmts@) =~= seq![]);
    if n == 0 {
        return stmts;
    }
    let mut i: usize = n - 1;
    let first = zippable(inputs[i].as_str(), wrap_as_val);
    let text = cat5("let ", var_name, " = ", first.as_str(), ";");
    stmts.push(text);
    assert(texts(stmts@) =~= seq![text@]);
    while i != 0
        invariant
            i < n,
            n == inputs@.len(),
            all == texts(inputs@),
            texts(stmts@) == zip_stmts(all, var_name@, wrap_as_val, (n - i) as nat),
        decreases i,
    {
        i = i - 1;
        let input = zippable(inputs[i].as_str(), wrap_as_val);
        let text = cat7("let ", var_name, " = zip!(", input.as_str(), ", ", var_name, ");");
        let ghost prev = stmts@;
        stmts.push(text);
        proof {
            lemma_texts_push(prev, text);
        }
    }
    stmts
}

/// The statement that flattens the nested tuple.
pub open spec fn flatten_stmt(inputs: Seq<Text>, var: Text) -> Text {
    "let "@ + var + " = "@ + var + ".then(|"@ + cons_text(inputs) + "| { value("@ + tuple_text(
        inputs,
    ) + ") });"@
}

/// The statements that zip the inputs and flatten the result.
pub open spec fn flatten_stmts(inputs: Seq<Text>, var: Text, wrap: bool) -> Seq<Text> {
    if inputs.len() == 0 {
        seq!["let "@ + var + " = value(());"@]
    } else {
        zip_stmts(inputs, var, wrap, inputs.len()).push(flatten_stmt(inputs, var))
    }
}

/// Generates launcher code to zip inputs, then flatten them into a flat tuple.
///
/// Similar to [`zip_cons`] but adds a final step that flattens the nested cons-cell structure
/// into a regular flat tuple.
pub fn zip_and_then_flatten(inputs: &[String], var_name: &str, wrap_as_val: bool) -> (r: Vec<String>)
    ensures
        texts(r@) == flatten_stmts(texts(inputs@), var_name@, wrap_as_val),
{
    if inputs.len() == 0 {
        let mut stmts: Vec<String> = Vec::new();
        let text = cat3("let ", var_name, " = value(());");
        stmts.push(text);
        assert(texts(stmts@) =~= seq![text@]);
        return stmts;
    }
    let mut stmts = zip_cons(inputs, var_name, wrap_as_val);
    let nested = join_as_cons_tuple(inputs);
    let flat = to_tuple_string(inputs);
    let head = cat6("let ", var_name, " = ", var_name, ".then(|", nested.as_str());
    let text = cat4(head.as_str(), "| { value(", flat.as_str(), ") });");
    let ghost prev = stmts@;
    stmts.push(text);
    proof {
        lemma_texts_push(prev, text);
    }
    stmts
}

// ---------------------------------------------------------------------------
// Names of arguments
// ---------------------------------------------------------------------------

/// Generates a type alias name for a kernel argument: `"LauncherNameArgN"`.
pub fn kernel_arg_alias(launcher_name: &str, i: usize) -> (r: String)
    ensures
        r@ == launcher_name@ + "Arg"@ + decimal_text(i as nat),
{
    let d = decimal(i);
    cat3(launcher_name, "Arg", d.as_str())
}

} // verus!
