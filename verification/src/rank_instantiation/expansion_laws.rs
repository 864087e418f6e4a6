//! What holds of the arrays that an item declares and of the constructors of its copies.
use super::bindings::{var_cgas, RankBindingsS, VarCgaS};
use super::bodies::{expand_shape, tokens_args};
use super::signatures::param_verdict;
use super::types::args_verdict;
use super::variadic::{
    all_args, all_constructors, all_params, array_constructors, array_params, constructor_impl,
    has_dims_field, is_dims_field, struct_constructors,
};
use crate::ast::{MacroTokenS, TypeS};
use crate::error::ErrorS;
use crate::grammar::{
    digit_value, digits_value, expr_refusal, generic_args_refusal, generic_param_refusal,
    numbered_word, simple_args, simple_elems, tokenizes, u32_value,
};
use crate::items::{FieldS, GenericParamS, ItemStructS};
use crate::lists::{collect, concat};
use crate::print::{expr_text, type_text};
use crate::text::{decimal_text, join_text, Text};
use vstd::prelude::*;

verus! {

// ---------------------------------------------------------------------------
// Arrays
// ---------------------------------------------------------------------------

proof fn lemma_var_cgas_prefix(params: Seq<GenericParamS>, p: GenericParamS, k: nat)
    requires
        k <= params.len(),
    ensures
        var_cgas(params.push(p), k) == var_cgas(params, k),
    decreases k,
{
    if k > 0 {
        lemma_var_cgas_prefix(params, p, (k - 1) as nat);
        assert(params.push(p)[k - 1] == params[k - 1]);
    }
}

/// The arrays of an item are its constants of an array type, in their order, each with the text
/// of its length and of its element type.
pub proof fn law_arrays_are_declared(params: Seq<GenericParamS>, p: GenericParamS)
    ensures
        var_cgas(seq![], 0) == Seq::<VarCgaS>::empty(),
        match p {
            GenericParamS::Const { ident, ty: TypeS::Array { elem, len }, .. } => {
                let v = var_cgas(params.push(p), params.len() + 1);
                &&& v.len() == var_cgas(params, params.len()).len() + 1
                &&& v.drop_last() == var_cgas(params, params.len())
                &&& v.last().name == ident
                &&& v.last().length_var == expr_text(*len)
                &&& v.last().element_type == type_text(*elem)
            },
            _ => var_cgas(params.push(p), params.len() + 1) == var_cgas(params, params.len()),
        },
{
    lemma_var_cgas_prefix(params, p, params.len());
    let rest = var_cgas(params, params.len());
    if let GenericParamS::Const { ident, ty: TypeS::Array { elem, len }, rest: _ } = p {
        assert(var_cgas(params.push(p), params.len() + 1).drop_last() =~= rest);
    }
}

/// New arrays are in scope with the lengths that are given, in their order, and so are their
/// length variables; a variable that is bound already is refused.
pub proof fn law_new_arrays_come_into_scope(
    b: RankBindingsS,
    lengths: Seq<u32>,
    cgas: Seq<VarCgaS>,
    i: nat,
    k: int,
)
    requires
        lengths.len() <= cgas.len(),
        i <= k < lengths.len(),
        forall|j: int| k < j < lengths.len() ==> (#[trigger] cgas[j]).name != cgas[k].name,
    ensures
        b.inst_u32.contains_key(cgas[k].length_var) ==> b.with_new_var_cgas(lengths, cgas, i) is Err,
        b.with_new_var_cgas(lengths, cgas, i) matches Ok(r) ==> {
            &&& r.inst_u32.contains_key(cgas[k].length_var)
            &&& r.inst_u32[cgas[k].length_var] == lengths[k]
            &&& r.inst_array.contains_key(cgas[k].name)
            &&& r.inst_array[cgas[k].name].name == cgas[k].name
            &&& r.inst_array[cgas[k].name].length == lengths[k]
            &&& r.inst_array[cgas[k].name].element_type == cgas[k].element_type
        },
    decreases lengths.len() - i,
{
    let cga = cgas[i as int];
    let n = lengths[i as int];
    if !b.inst_u32.contains_key(cga.length_var) {
        let next = b.with_length(cga.length_var, n).with_array(cga, n as nat);
        if i == k {
            lemma_new_arrays_keep(next, lengths, cgas, i + 1, cga.length_var, cga.name);
        } else {
            law_new_arrays_come_into_scope(next, lengths, cgas, i + 1, k);
        }
    }
}

proof fn lemma_new_arrays_keep(
    b: RankBindingsS,
    lengths: Seq<u32>,
    cgas: Seq<VarCgaS>,
    i: nat,
    var: Text,
    name: Text,
)
    requires
        lengths.len() <= cgas.len(),
        i <= lengths.len(),
        b.inst_u32.contains_key(var),
        b.inst_array.contains_key(name),
        forall|j: int| i <= j < lengths.len() ==> (#[trigger] cgas[j]).name != name,
    ensures
        b.with_new_var_cgas(lengths, cgas, i) matches Ok(r) ==> {
            &&& r.inst_u32.contains_key(var)
            &&& r.inst_u32[var] == b.inst_u32[var]
            &&& r.inst_array.contains_key(name)
            &&& r.inst_array[name] == b.inst_array[name]
        },
    decreases lengths.len() - i,
{
    if i < lengths.len() {
        let cga = cgas[i as int];
        let n = lengths[i as int];
        if !b.inst_u32.contains_key(cga.length_var) {
            let next = b.with_length(cga.length_var, n).with_array(cga, n as nat);
            lemma_new_arrays_keep(next, lengths, cgas, i + 1, var, name);
        }
    }
}

/// The lengths of arrays can be bound exactly if each is given for the array's own length
/// variable and agrees with what is bound for that variable, before and among themselves.
pub proof fn law_lengths_must_agree(
    b: RankBindingsS,
    cgas: Seq<VarCgaS>,
    lengths: Seq<(Text, u32)>,
    i: nat,
)
    requires
        lengths.len() == cgas.len(),
        i <= cgas.len(),
    ensures
        b.with_cga_lengths(cgas, lengths, i) is Ok <==> {
            &&& forall|j: int|
                i <= j < cgas.len() ==> (#[trigger] lengths[j]).0 == cgas[j].length_var
            &&& forall|j: int|
                i <= j < cgas.len() && b.inst_u32.contains_key((#[trigger] lengths[j]).0)
                    ==> b.inst_u32[lengths[j].0] == lengths[j].1
            &&& forall|j: int, k: int|
                i <= j < k < cgas.len() && (#[trigger] lengths[j]).0 == (#[trigger] lengths[k]).0
                    ==> lengths[j].1 == lengths[k].1
        },
        i < cgas.len() && lengths[i as int].0 != cgas[i as int].length_var ==> b.with_cga_lengths(
            cgas,
            lengths,
            i,
        ) == Err::<RankBindingsS, ErrorS>(
            ErrorS {
                at: ""@,
                message: "CGA length var name mismatch: expected '"@ + cgas[i as int].length_var
                    + "', got '"@ + lengths[i as int].0 + "'"@,
            },
        ),
        i < cgas.len() && lengths[i as int].0 == cgas[i as int].length_var
            && b.inst_u32.contains_key(lengths[i as int].0) && b.inst_u32[lengths[i as int].0]
            != lengths[i as int].1 ==> b.with_cga_lengths(cgas, lengths, i) == Err::<
            RankBindingsS,
            ErrorS,
        >(
            ErrorS {
                at: ""@,
                message: "CGA length instance mismatch for '"@ + lengths[i as int].0
                    + "': expected "@ + decimal_text(b.inst_u32[lengths[i as int].0] as nat)
                    + ", got "@ + decimal_text(lengths[i as int].1 as nat),
            },
        ),
    decreases cgas.len() - i,
{
    if i < cgas.len() {
        let cga = cgas[i as int];
        let (var, n) = lengths[i as int];
        assert(lengths[i as int].0 == var);
        if var == cga.length_var && (b.inst_u32.contains_key(var) ==> b.inst_u32[var] == n) {
            let next = b.with_length(var, n).with_array(cga, n as nat);
            law_lengths_must_agree(next, cgas, lengths, i + 1);
            lemma_lengths_agree_from(b, next, lengths, i);
        }
    }
}

/// The lengths from `i` on agree with each other and with `b`.
pub open spec fn lengths_agree(b: RankBindingsS, lengths: Seq<(Text, u32)>, i: nat) -> bool {
    &&& forall|j: int|
        i <= j < lengths.len() && b.inst_u32.contains_key((#[trigger] lengths[j]).0)
            ==> b.inst_u32[lengths[j].0] == lengths[j].1
    &&& forall|j: int, k: int|
        i <= j < k < lengths.len() && (#[trigger] lengths[j]).0 == (#[trigger] lengths[k]).0
            ==> lengths[j].1 == lengths[k].1
}

proof fn lemma_lengths_agree_from(
    b: RankBindingsS,
    next: RankBindingsS,
    lengths: Seq<(Text, u32)>,
    i: nat,
)
    requires
        i < lengths.len(),
        b.inst_u32.contains_key(lengths[i as int].0) ==> b.inst_u32[lengths[i as int].0]
            == lengths[i as int].1,
        next.inst_u32 == b.inst_u32.insert(lengths[i as int].0, lengths[i as int].1),
    ensures
        lengths_agree(b, lengths, i) <==> lengths_agree(next, lengths, i + 1),
{
    let (var, n) = lengths[i as int];
    if lengths_agree(b, lengths, i) {
        assert forall|j: int|
            i + 1 <= j < lengths.len() && next.inst_u32.contains_key((#[trigger] lengths[j]).0)
            implies next.inst_u32[lengths[j].0] == lengths[j].1 by {
            if lengths[j].0 == var {
                assert(lengths[i as int].0 == lengths[j].0);
            }
        }
    }
    if lengths_agree(next, lengths, i + 1) {
        assert forall|j: int|
            i <= j < lengths.len() && b.inst_u32.contains_key((#[trigger] lengths[j]).0)
            implies b.inst_u32[lengths[j].0] == lengths[j].1 by {
            if j > i {
                assert(next.inst_u32.contains_key(lengths[j].0));
            }
        }
        assert forall|j: int, k: int|
            i <= j < k < lengths.len() && (#[trigger] lengths[j]).0 == (#[trigger] lengths[k]).0
            implies lengths[j].1 == lengths[k].1 by {
            if j == i {
                assert(next.inst_u32.contains_key(lengths[k].0));
            }
        }
    }
}

// ---------------------------------------------------------------------------
// Constructors
// ---------------------------------------------------------------------------

/// A copy of length `n` has a constructor for every number of dimensions up to `n`, and one that
/// takes none: `c_0`, `const_c`, `c_1`, …, `c_n`. Each takes an array of its own number.
pub proof fn law_one_constructor_per_length(constructor: Text, name: Text, n: nat, i: int)
    requires
        0 <= i <= n,
    ensures
        ({
            let v = array_constructors(constructor, name, n);
            let d = decimal_text(i as nat);
            &&& v.len() == n + 2
            &&& v[1] == "pub fn const_"@ + constructor + "() -> Self { "@ + name
                + " { dims: &[] } }"@
            &&& v[if i == 0 { 0 } else { i + 1 }] == "pub fn "@ + constructor + "_"@ + d
                + "(dims: &'a [i32; "@ + d + "]) -> Self { "@ + name + " { dims: dims } }"@
        }),
{
}

/// The impl of the constructors declares a constant for each dimension of each array, and hands
/// exactly those to the type, in the same order; it has the constructors of each array in turn.
pub proof fn law_constructors_fit_their_type(
    name: Text,
    constructor: Text,
    cgas: Seq<VarCgaS>,
    lengths: Seq<u32>,
)
    requires
        lengths.len() == cgas.len(),
    ensures
        constructor_impl(name, constructor, cgas, lengths) == "impl<'a, "@ + join_text(
            all_params(cgas, lengths),
            ","@,
        ) + "> "@ + name + "<'a, "@ + join_text(all_args(cgas, lengths), ","@) + "> { "@ + join_text(
            all_constructors(constructor, name, lengths),
            "\n"@,
        ) + " }"@,
        all_params(cgas, lengths).len() == all_args(cgas, lengths).len(),
        cgas.len() > 0 ==> all_constructors(constructor, name, lengths) == all_constructors(
            constructor,
            name,
            lengths.drop_last(),
        ) + array_constructors(constructor, name, lengths.last() as nat),
        cgas.len() > 0 ==> ({
            let before = all_args(cgas.drop_last(), lengths.drop_last());
            let params = all_params(cgas.drop_last(), lengths.drop_last());
            let cga = cgas.last();
            &&& all_args(cgas, lengths).len() == before.len() + lengths.last()
            &&& all_args(cgas, lengths).take(before.len() as int) == before
            &&& all_params(cgas, lengths).take(before.len() as int) == params
            &&& forall|i: int|
                0 <= i < lengths.last() ==> #[trigger] all_args(cgas, lengths)[before.len() + i]
                    == cga.name + "_"@ + decimal_text(i as nat)
            &&& forall|i: int|
                0 <= i < lengths.last() ==> #[trigger] all_params(cgas, lengths)[before.len() + i]
                    == "const "@ + (cga.name + "_"@ + decimal_text(i as nat)) + ": "@
                    + cga.element_type
        }),
    decreases cgas.len(),
{
    if cgas.len() > 0 {
        let fewer = cgas.drop_last();
        let before = lengths.drop_last();
        law_constructors_fit_their_type(name, constructor, fewer, before);
        let n = cgas.len();
        let params = Seq::new(n, |i: int| array_params(cgas[i], lengths[i] as nat));
        let args = Seq::new(
            n,
            |i: int| super::bindings::dim_texts(cgas[i].name, lengths[i] as nat),
        );
        let made = Seq::new(
            n,
            |i: int| array_constructors(constructor, name, lengths[i] as nat),
        );
        assert(params.drop_last() =~= Seq::new(
            fewer.len(),
            |i: int| array_params(fewer[i], before[i] as nat),
        ));
        assert(args.drop_last() =~= Seq::new(
            fewer.len(),
            |i: int| super::bindings::dim_texts(fewer[i].name, before[i] as nat),
        ));
        assert(made.drop_last() =~= Seq::new(
            fewer.len(),
            |i: int| array_constructors(constructor, name, before[i] as nat),
        ));
        assert(all_args(cgas, lengths) == all_args(fewer, before) + args.last());
        assert(all_params(cgas, lengths) == all_params(fewer, before) + params.last());
        assert(all_args(cgas, lengths).take(all_args(fewer, before).len() as int) =~= all_args(
            fewer,
            before,
        ));
        assert(all_params(cgas, lengths).take(all_params(fewer, before).len() as int)
            =~= all_params(fewer, before));
    }
}

/// A copy has constructors exactly if the struct is to have them, has a field `dims` that is a
/// slice by reference, and declares an array.
pub proof fn law_constructors_are_made(
    at: Text,
    name: Text,
    constructor: Option<Text>,
    item: ItemStructS,
    cgas: Seq<VarCgaS>,
    lengths: Seq<u32>,
)
    ensures
        struct_constructors(at, name, constructor, has_dims_field(item), cgas, lengths) matches Ok(c)
            ==> (c is Some <==> constructor is Some && cgas.len() > 0 && item.style is Named
            && exists|i: int|
            0 <= i < item.fields.len() && is_slice_named_dims(#[trigger] item.fields[i])),
        struct_constructors(at, name, constructor, has_dims_field(item), cgas, lengths) matches Ok(
            Some(t),
        ) ==> t == constructor_impl(name, constructor->Some_0, cgas, lengths),
{
    if has_dims_field(item) {
        let i = choose|i: int| 0 <= i < item.fields.len() && is_dims_field(#[trigger] item.fields[i]);
        assert(is_slice_named_dims(item.fields[i]));
    } else {
        assert forall|i: int| 0 <= i < item.fields.len() && item.style is Named implies !is_slice_named_dims(
            #[trigger] item.fields[i],
        ) by {
            assert(!is_dims_field(item.fields[i]));
        }
    }
}

pub open spec fn is_slice_named_dims(f: FieldS) -> bool {
    f.ident == Some("dims"@) && f.ty is Reference && *f.ty->Reference_elem is Slice
}

// ---------------------------------------------------------------------------
// Numbers
// ---------------------------------------------------------------------------

proof fn lemma_digits_read_back(n: nat)
    ensures
        digits_value(decimal_text(n)) == Some(n),
        decimal_text(n).len() > 0,
        '0' <= decimal_text(n)[0] <= '9',
    decreases n,
{
    let t = decimal_text(n);
    if n < 10 {
        assert(t.drop_last() =~= Seq::<char>::empty());
        assert(digits_value(t.drop_last()) == Some(0nat));
        assert(digit_value(t.last()) == Some(n));
    } else {
        lemma_digits_read_back(n / 10);
        assert(t.drop_last() =~= decimal_text(n / 10));
        assert(digit_value(t.last()) == Some(n % 10));
        assert(n == (n / 10) * 10 + n % 10);
    }
}

/// A number that is written in decimal reads back as itself, with or without a plus sign, unless
/// it is too large.
pub proof fn law_number_reads_back(n: nat)
    ensures
        u32_value(decimal_text(n)) == if n <= u32::MAX { Some(n as u32) } else { None },
        u32_value(seq!['+'] + decimal_text(n)) == u32_value(decimal_text(n)),
        u32_value(seq![]) is None,
        u32_value(seq!['-'] + decimal_text(n)) is None,
{
    lemma_digits_read_back(n);
    let t = decimal_text(n);
    assert((seq!['+'] + t).drop_first() =~= t);
    lemma_minus_is_no_digit(t);
}

proof fn lemma_minus_is_no_digit(t: Text)
    ensures
        digits_value(seq!['-'] + t) is None,
    decreases t.len(),
{
    let u = seq!['-'] + t;
    if t.len() == 0 {
        assert(u.last() == '-');
    } else {
        assert(u.drop_last() =~= seq!['-'] + t.drop_last());
        lemma_minus_is_no_digit(t.drop_last());
    }
}

// ---------------------------------------------------------------------------
// Readings
// ---------------------------------------------------------------------------

/// Generic arguments and parameters are accepted exactly if they are plain words, or can be read:
/// arguments as `<a,b>`, a parameter as `const name: ty`.
pub proof fn law_what_can_be_read_is_accepted(at: Text, args: Seq<Text>, name: Text, ty: Text)
    ensures
        ({
            let source = "<"@ + join_text(args, ","@) + ">"@;
            args_verdict(at, args) is Ok <==> simple_args(args) || tokenizes(source)
                && generic_args_refusal(source) is None
        }),
        ({
            let source = "const "@ + name + ": "@ + ty;
            param_verdict(at, name, ty) is Ok <==> numbered_word(name) && ty == "i32"@ || tokenizes(
                source,
            ) && generic_param_refusal(source) is None
        }),
{
}

/// A shape macro whose tokens all write something is refused only if the call that it stands for,
/// `Ty::<{[a, b]}>::const_new()`, cannot be read.
pub proof fn law_shape_that_can_be_read_is_accepted(
    kind: Text,
    tokens: Seq<MacroTokenS>,
    source: Text,
    b: RankBindingsS,
)
    ensures
        collect(tokens_args(tokens, kind, source, b)) matches Ok(lists) ==> {
            let call = (if kind == "const_shape"@ { "Shape"@ } else { "Array"@ }) + "::<{["@
                + join_text(concat(lists), ", "@) + "]}>::const_new()"@;
            expand_shape(kind, tokens, source, b) is Ok <==> simple_elems(concat(lists))
                || expr_refusal(call) is None
        },
{
}

} // verus!
