//! What holds of all combinations of lengths together.
use super::bindings::{MetaS, RankBindingsS, VarCgaS};
use super::lengths::{
    add_listed, add_used, cga_pairs, countable, digits, entry, item_at, lemma_digits,
    lemma_entry_digits, lemma_entry_insert, lemma_place, lemma_product_positive, lemma_with,
    length_space, length_vars, lengths_fit, listed_fit, listed_vars, place, product, used_fit,
    LengthsS, VariadicLengthIteratorS,
};
use crate::error::ErrorS;
use crate::shadow_dispatch::laws::lemma_next_digit;
use crate::text::{before, lemma_before_is_total_order, Text};
use vstd::prelude::*;

verus! {

/// Every variable can take at least one length.
pub open spec fn inhabited(v: Seq<(Text, nat)>) -> bool {
    forall|j: int| 0 <= j < v.len() ==> 0 < (#[trigger] v[j]).1 <= i32::MAX
}

/// Two different numbers stand for two different combinations.
pub proof fn law_combinations_are_distinct(i: nat, j: nat, v: Seq<(Text, nat)>)
    requires
        inhabited(v),
        i < product(v),
        j < product(v),
        i != j,
    ensures
        digits(i, v) != digits(j, v),
    decreases v.len(),
{
    if v.len() > 0 {
        let n = v[0].1;
        let rest = v.drop_first();
        assert(inhabited(rest)) by {
            assert forall|k: int| 0 <= k < rest.len() implies 0 < (#[trigger] rest[k]).1
                <= i32::MAX by {
                assert(rest[k] == v[k + 1]);
            }
        }
        assert(0 <= i % n < n && 0 <= j % n < n && i == n * (i / n) + i % n && j == n * (j / n) + j
            % n) by (nonlinear_arith)
            requires
                n > 0,
        ;
        let p = product(rest);
        assert(i / n < p && j / n < p) by (nonlinear_arith)
            requires
                n > 0,
                i < n * p,
                j < n * p,
        ;
        let a = digits(i, v);
        let b = digits(j, v);
        let ra = digits(i / n, rest);
        let rb = digits(j / n, rest);
        assert(a == seq![(v[0].0, (i % n) as u32)] + ra);
        assert(b == seq![(v[0].0, (j % n) as u32)] + rb);
        if a == b {
            assert(a[0] == b[0]);
            assert(i % n == j % n);
            if i / n == j / n {
                assert(i == j);
            } else {
                law_combinations_are_distinct(i / n, j / n, rest);
                assert(ra =~= a.skip(1));
                assert(rb =~= b.skip(1));
            }
        }
    }
}

/// The number of a combination.
pub open spec fn number_of(d: Seq<(Text, u32)>, v: Seq<(Text, nat)>) -> nat
    decreases v.len(),
{
    if v.len() == 0 {
        0
    } else {
        d[0].1 as nat + v[0].1 * number_of(d.drop_first(), v.drop_first())
    }
}

/// A choice of a length for each variable.
pub open spec fn is_choice(d: Seq<(Text, u32)>, v: Seq<(Text, nat)>) -> bool {
    &&& d.len() == v.len()
    &&& forall|j: int|
        0 <= j < v.len() ==> (#[trigger] d[j]).0 == v[j].0 && d[j].1 < v[j].1
}

/// Every choice of a length for each variable is a combination.
pub proof fn law_combinations_are_complete(d: Seq<(Text, u32)>, v: Seq<(Text, nat)>)
    requires
        inhabited(v),
        is_choice(d, v),
    ensures
        number_of(d, v) < product(v),
        digits(number_of(d, v), v) == d,
    decreases v.len(),
{
    if v.len() == 0 {
        assert(digits(0, v) =~= d);
    } else {
        let n = v[0].1;
        let rest = v.drop_first();
        let tail = d.drop_first();
        assert(inhabited(rest)) by {
            assert forall|k: int| 0 <= k < rest.len() implies 0 < (#[trigger] rest[k]).1
                <= i32::MAX by {
                assert(rest[k] == v[k + 1]);
            }
        }
        assert(is_choice(tail, rest)) by {
            assert forall|k: int| 0 <= k < rest.len() implies (#[trigger] tail[k]).0 == rest[k].0
                && tail[k].1 < rest[k].1 by {
                assert(tail[k] == d[k + 1]);
            }
        }
        law_combinations_are_complete(tail, rest);
        let x = d[0].1 as nat;
        let m = number_of(tail, rest);
        let p = product(rest);
        let i = number_of(d, v);
        assert(d[0].0 == v[0].0 && d[0].1 < v[0].1);
        assert(i == x + n * m);
        assert(i % n == x && i / n == m && i < n * p) by (nonlinear_arith)
            requires
                0 <= x < n,
                0 <= m < p,
                i == x + n * m,
        ;
        assert(digits(i, v) == seq![(v[0].0, (i % n) as u32)] + digits(i / n, rest));
        assert(digits(i, v) =~= d);
    }
}

/// Arrays with the same length variable have the same length in every combination.
pub proof fn law_shared_variable_shared_length(
    i: nat,
    lengths: Seq<(Text, nat)>,
    vars: Seq<Text>,
    a: int,
    b: int,
)
    requires
        0 <= a < vars.len(),
        0 <= b < vars.len(),
        vars[a] == vars[b],
    ensures
        item_at(i, lengths, vars).cgas[a] == item_at(i, lengths, vars).cgas[b],
{
}

proof fn lemma_entry_at(v: Seq<(Text, nat)>, d: Seq<(Text, u32)>, k: int)
    requires
        d.len() == v.len(),
        forall|j: int| 0 <= j < v.len() ==> (#[trigger] d[j]).0 == v[j].0,
        forall|i: int, j: int|
            0 <= i < j < v.len() ==> before((#[trigger] v[i]).0, (#[trigger] v[j]).0),
        0 <= k < v.len(),
    ensures
        entry(d, v[k].0) == Some(d[k].1),
    decreases v.len(),
{
    if k > 0 {
        lemma_before_is_total_order(v[0].0, v[k].0, v[k].0);
        assert(d[0].0 != v[k].0);
        let vr = v.drop_first();
        let dr = d.drop_first();
        assert forall|j: int| 0 <= j < vr.len() implies (#[trigger] dr[j]).0 == vr[j].0 by {
            assert(dr[j] == d[j + 1]);
        }
        lemma_entry_at(vr, dr, k - 1);
        assert(vr[k - 1] == v[k]);
        assert(dr[k - 1] == d[k]);
    } else {
        assert(d[0].0 == v[0].0);
    }
}

/// Binding the variables of a combination binds each to its value.
proof fn lemma_with_lengths(b: RankBindingsS, d: Seq<(Text, u32)>, i: nat, key: Text)
    requires
        i <= d.len(),
        forall|x: int, y: int| 0 <= x < y < d.len() ==> (#[trigger] d[x]).0 != (#[trigger] d[y]).0,
    ensures
        ({
            let r = b.with_lengths(d, i);
            &&& r.var_arrays == b.var_arrays
            &&& r.inst_array == b.inst_array
            &&& forall|k: int|
                i <= k < d.len() && (#[trigger] d[k]).0 == key ==> r.inst_u32.contains_key(key)
                    && r.inst_u32[key] == d[k].1
            &&& (forall|k: int| i <= k < d.len() ==> (#[trigger] d[k]).0 != key)
                ==> r.inst_u32.contains_key(key) == b.inst_u32.contains_key(key)
                && r.inst_u32[key] == b.inst_u32[key]
        }),
    decreases d.len() - i,
{
    if i < d.len() {
        let (var, n) = d[i as int];
        lemma_with_lengths(b.with_length(var, n), d, i + 1, key);
        if var == key {
            assert forall|k: int| i + 1 <= k < d.len() implies (#[trigger] d[k]).0 != key by {
                assert(d[i as int].0 != d[k].0);
            }
        }
    }
}

proof fn lemma_with_cga_lengths(
    b: RankBindingsS,
    cgas: Seq<VarCgaS>,
    pairs: Seq<(Text, u32)>,
    i: nat,
)
    requires
        i <= cgas.len(),
        pairs.len() == cgas.len(),
        forall|k: int|
            i <= k < cgas.len() ==> {
                &&& (#[trigger] pairs[k]).0 == cgas[k].length_var
                &&& b.inst_u32.contains_key(pairs[k].0)
                &&& b.inst_u32[pairs[k].0] == pairs[k].1
            },
    ensures
        b.with_cga_lengths(cgas, pairs, i) matches Ok(r) && {
            &&& r.inst_u32 == b.inst_u32
            &&& forall|k: int|
                i <= k < cgas.len() && (forall|m: int|
                    k < m < cgas.len() ==> (#[trigger] cgas[m]).name != cgas[k].name)
                    ==> r.inst_array.contains_key((#[trigger] cgas[k]).name)
                    && r.inst_array[cgas[k].name] == cgas[k].instance(pairs[k].1 as nat)
            &&& forall|name: Text|
                (forall|k: int| i <= k < cgas.len() ==> (#[trigger] cgas[k]).name != name) ==> (
                #[trigger] r.inst_array.contains_key(name)) == b.inst_array.contains_key(name)
                    && r.inst_array[name] == b.inst_array[name]
        },
    decreases cgas.len() - i,
{
    if i < cgas.len() {
        let cga = cgas[i as int];
        let (var, n) = pairs[i as int];
        let next = b.with_length(var, n).with_array(cga, n as nat);
        assert(next.inst_u32 =~= b.inst_u32);
        lemma_with_cga_lengths(next, cgas, pairs, i + 1);
        let r = next.with_cga_lengths(cgas, pairs, i + 1)->Ok_0;
        assert(b.with_cga_lengths(cgas, pairs, i) == Ok::<RankBindingsS, ErrorS>(r));
        assert forall|k: int|
            i <= k < cgas.len() && (forall|m: int|
                k < m < cgas.len() ==> (#[trigger] cgas[m]).name != cgas[k].name) implies
            r.inst_array.contains_key((#[trigger] cgas[k]).name) && r.inst_array[cgas[k].name]
            == cgas[k].instance(pairs[k].1 as nat) by {
            if k == i {
                assert(r.inst_array.contains_key(cga.name) == next.inst_array.contains_key(
                    cga.name,
                ));
            }
        }
    }
}

/// A combination can always be bound to the arrays that it was made for: every length
/// variable gets its value, and every array the value of its length variable.
pub proof fn law_combination_binds(space: LengthsS, cgas: Seq<VarCgaS>, i: nat)
    requires
        space.wf(),
        inhabited(space.lengths),
        forall|k: int|
            0 <= k < cgas.len() ==> entry(space.lengths, (#[trigger] cgas[k]).length_var) is Some,
        forall|x: int, y: int|
            0 <= x < y < cgas.len() ==> (#[trigger] cgas[x]).name != (#[trigger] cgas[y]).name,
    ensures
        ({
            let item = item_at(i, space.lengths, length_vars(cgas));
            RankBindingsS::from_variadic(item, cgas) matches Ok(b) && {
                &&& forall|k: int|
                    0 <= k < space.lengths.len() ==> b.inst_u32.contains_key(
                        (#[trigger] space.lengths[k]).0,
                    ) && b.inst_u32[space.lengths[k].0] == item.unique[k].1
                &&& forall|k: int|
                    0 <= k < cgas.len() ==> b.inst_array.contains_key((#[trigger] cgas[k]).name)
                        && b.inst_array[cgas[k].name] == cgas[k].instance(item.cgas[k].1 as nat)
            }
        }),
{
    let v = space.lengths;
    let d = digits(i, v);
    let pairs = cga_pairs(d, length_vars(cgas));
    lemma_digits(i, v);
    assert forall|x: int, y: int| 0 <= x < y < d.len() implies (#[trigger] d[x]).0 != (
    #[trigger] d[y]).0 by {
        assert(d[x].0 == v[x].0 && d[y].0 == v[y].0);
        lemma_before_is_total_order(v[x].0, v[y].0, v[y].0);
    }
    let b0 = RankBindingsS::empty().with_lengths(d, 0);
    assert forall|k: int| 0 <= k < v.len() implies b0.inst_u32.contains_key((#[trigger] v[k]).0)
        && b0.inst_u32[v[k].0] == d[k].1 by {
        lemma_with_lengths(RankBindingsS::empty(), d, 0, v[k].0);
        assert(d[k].0 == v[k].0);
    }
    assert forall|k: int| 0 <= k < cgas.len() implies {
        &&& (#[trigger] pairs[k]).0 == cgas[k].length_var
        &&& b0.inst_u32.contains_key(pairs[k].0)
        &&& b0.inst_u32[pairs[k].0] == pairs[k].1
    } by {
        let var = cgas[k].length_var;
        assert(entry(v, cgas[k].length_var) is Some);
        let j = lemma_entry_index(v, var);
        lemma_entry_at(v, d, j);
        assert(v[j].0 == var);
    }
    lemma_with_cga_lengths(b0, cgas, pairs, 0);
}

proof fn lemma_entry_index(v: Seq<(Text, nat)>, key: Text) -> (i: int)
    requires
        entry(v, key) is Some,
    ensures
        0 <= i < v.len(),
        v[i].0 == key,
    decreases v.len(),
{
    if v[0].0 == key {
        0
    } else {
        let i = lemma_entry_index(v.drop_first(), key);
        assert(v.drop_first()[i] == v[i + 1]);
        i + 1
    }
}

// ---------------------------------------------------------------------------
// Iteration
// ---------------------------------------------------------------------------

/// `seen` with the names from index `i` on, as far as they are new, in order.
pub open spec fn with_names(seen: Seq<Text>, names: Seq<Text>, i: nat) -> Seq<Text>
    decreases names.len() - i,
{
    if i >= names.len() {
        seen
    } else if seen.contains(names[i as int]) {
        with_names(seen, names, i + 1)
    } else {
        with_names(seen.push(names[i as int]), names, i + 1)
    }
}

/// The length variables that an attribute lists or an array uses, each once.
pub open spec fn distinct_vars(attributes: MetaS, cgas: Seq<VarCgaS>) -> Seq<Text> {
    with_names(with_names(seq![], listed_vars(attributes), 0), length_vars(cgas), 0)
}

/// How many lengths a variable can take: from zero to the value of the attribute.
pub open spec fn length_count(attributes: MetaS, var: Text) -> nat {
    (attributes.ints[var] + 1) as nat
}

/// The product of the numbers of lengths of some variables.
pub open spec fn counts_product(attributes: MetaS, vars: Seq<Text>) -> nat
    decreases vars.len(),
{
    if vars.len() == 0 {
        1
    } else {
        counts_product(attributes, vars.drop_last()) * length_count(attributes, vars.last())
    }
}

proof fn lemma_with_names(seen: Seq<Text>, names: Seq<Text>, i: nat)
    requires
        seen.no_duplicates(),
    ensures
        with_names(seen, names, i).no_duplicates(),
        forall|v: Text|
            #[trigger] with_names(seen, names, i).contains(v) <==> seen.contains(v) || exists|j: int|
                i <= j < names.len() && names[j] == v,
    decreases names.len() - i,
{
    if i < names.len() {
        let name = names[i as int];
        let next = if seen.contains(name) { seen } else { seen.push(name) };
        assert forall|v: Text| next.contains(v) <==> seen.contains(v) || v == name by {
            if next != seen {
                assert(next.last() == name);
                if seen.contains(v) {
                    let k = choose|k: int| 0 <= k < seen.len() && seen[k] == v;
                    assert(next[k] == v);
                }
            }
        }
        lemma_with_names(next, names, i + 1);
        let out = with_names(seen, names, i);
        assert forall|v: Text| #[trigger] out.contains(v) <==> seen.contains(v) || exists|j: int|
            i <= j < names.len() && names[j] == v by {
            assert(out.contains(v) <==> next.contains(v) || exists|j: int|
                i + 1 <= j < names.len() && names[j] == v);
            if v == name {
                assert(names[i as int] == v);
            }
        }
    }
}

/// The space holds exactly the variables in `seen`, with their numbers of lengths.
spec fn holds(s: LengthsS, seen: Seq<Text>, attributes: MetaS) -> bool {
    &&& s.total == counts_product(attributes, seen)
    &&& forall|v: Text|
        #[trigger] entry(s.lengths, v) == if seen.contains(v) {
            Some(length_count(attributes, v))
        } else {
            None
        }
}

proof fn lemma_holds_with(s: LengthsS, seen: Seq<Text>, attributes: MetaS, var: Text)
    requires
        holds(s, seen, attributes),
        !seen.contains(var),
    ensures
        holds(s.with(var, length_count(attributes, var)), seen.push(var), attributes),
{
    let len = length_count(attributes, var);
    let next = seen.push(var);
    assert(entry(s.lengths, var) is None);
    lemma_place(s.lengths, var);
    assert(next.drop_last() =~= seen);
    assert forall|v: Text| #[trigger] entry(s.with(var, len).lengths, v) == if next.contains(v) {
        Some(length_count(attributes, v))
    } else {
        None
    } by {
        lemma_entry_insert(s.lengths, place(s.lengths, var) as int, (var, len), v);
        if v == var {
            assert(next.last() == v);
        } else if seen.contains(v) {
            let k = choose|k: int| 0 <= k < seen.len() && seen[k] == v;
            assert(next[k] == v);
        } else {
            assert(!next.contains(v));
        }
    }
}

proof fn lemma_listed_holds(
    attributes: MetaS,
    vars: Seq<Text>,
    s: LengthsS,
    seen: Seq<Text>,
    i: nat,
)
    requires
        holds(s, seen, attributes),
    ensures
        add_listed(attributes, vars, s, i) matches Ok(r) ==> holds(
            r,
            with_names(seen, vars, i),
            attributes,
        ),
    decreases vars.len() - i,
{
    if i < vars.len() {
        let var = vars[i as int];
        assert(entry(s.lengths, var) is Some <==> seen.contains(var));
        if !seen.contains(var) {
            lemma_holds_with(s, seen, attributes, var);
            lemma_listed_holds(
                attributes,
                vars,
                s.with(var, length_count(attributes, var)),
                seen.push(var),
                i + 1,
            );
        }
    }
}

proof fn lemma_used_holds(
    attributes: MetaS,
    cgas: Seq<VarCgaS>,
    s: LengthsS,
    seen: Seq<Text>,
    i: nat,
)
    requires
        holds(s, seen, attributes),
    ensures
        add_used(attributes, cgas, s, i) matches Ok(r) ==> holds(
            r,
            with_names(seen, length_vars(cgas), i),
            attributes,
        ),
    decreases cgas.len() - i,
{
    if i < cgas.len() {
        let var = cgas[i as int].length_var;
        assert(length_vars(cgas)[i as int] == var);
        assert(entry(s.lengths, var) is Some <==> seen.contains(var));
        if seen.contains(var) {
            lemma_used_holds(attributes, cgas, s, seen, i + 1);
        } else {
            lemma_holds_with(s, seen, attributes, var);
            lemma_used_holds(
                attributes,
                cgas,
                s.with(var, length_count(attributes, var)),
                seen.push(var),
                i + 1,
            );
        }
    }
}

/// The length variables of an item are those that its attribute lists and those that its arrays
/// use, each once, and each can take the lengths from zero to its value. There are as many
/// combinations as the product of these numbers.
pub proof fn law_number_of_combinations(attributes: MetaS, cgas: Seq<VarCgaS>, v: Text)
    requires
        length_space(attributes, cgas) is Ok,
    ensures
        ({
            let space = length_space(attributes, cgas)->Ok_0;
            let vars = distinct_vars(attributes, cgas);
            &&& space.total == counts_product(attributes, vars)
            &&& vars.no_duplicates()
            &&& vars.contains(v) <==> listed_vars(attributes).contains(v) || length_vars(
                cgas,
            ).contains(v)
            &&& entry(space.lengths, v) == if vars.contains(v) {
                Some(length_count(attributes, v))
            } else {
                None
            }
        }),
{
    let none = Seq::<Text>::empty();
    let listed = listed_vars(attributes);
    let used = length_vars(cgas);
    let first = with_names(none, listed, 0);
    assert(holds(LengthsS::empty(), none, attributes));
    lemma_listed_holds(attributes, listed, LengthsS::empty(), none, 0);
    let s = add_listed(attributes, listed, LengthsS::empty(), 0)->Ok_0;
    lemma_used_holds(attributes, cgas, s, first, 0);
    lemma_with_names(none, listed, 0);
    lemma_with_names(first, used, 0);
    let vars = distinct_vars(attributes, cgas);
    assert(first.contains(v) <==> listed.contains(v)) by {
        if listed.contains(v) {
            let j = choose|j: int| 0 <= j < listed.len() && listed[j] == v;
            assert(0 <= j < listed.len() && listed[j] == v);
        }
    }
    assert(vars.contains(v) <==> first.contains(v) || used.contains(v)) by {
        if used.contains(v) {
            let j = choose|j: int| 0 <= j < used.len() && used[j] == v;
            assert(0 <= j < used.len() && used[j] == v);
        }
    }
}

proof fn lemma_listed_wf(attributes: MetaS, vars: Seq<Text>, s: LengthsS, i: nat)
    requires
        s.wf(),
        listed_fit(attributes, vars, s, i),
    ensures
        add_listed(attributes, vars, s, i) matches Ok(r) ==> r.wf(),
    decreases vars.len() - i,
{
    if i < vars.len() {
        let var = vars[i as int];
        if attributes.ints.contains_key(var) && entry(s.lengths, var) is None {
            let len = length_count(attributes, var);
            assert(countable(attributes, var));
            lemma_with(s, var, len);
            lemma_listed_wf(attributes, vars, s.with(var, len), i + 1);
        }
    }
}

proof fn lemma_used_wf(attributes: MetaS, cgas: Seq<VarCgaS>, s: LengthsS, i: nat)
    requires
        s.wf(),
        used_fit(attributes, cgas, s, i),
    ensures
        add_used(attributes, cgas, s, i) matches Ok(r) ==> r.wf(),
    decreases cgas.len() - i,
{
    if i < cgas.len() {
        let var = cgas[i as int].length_var;
        if attributes.ints.contains_key(var) {
            assert(countable(attributes, var));
            if entry(s.lengths, var) is None {
                let len = length_count(attributes, var);
                lemma_with(s, var, len);
                lemma_used_wf(attributes, cgas, s.with(var, len), i + 1);
            } else {
                lemma_used_wf(attributes, cgas, s, i + 1);
            }
        }
    }
}

/// The length variables of an item are in order, and their combinations are counted.
pub proof fn lemma_length_space(attributes: MetaS, cgas: Seq<VarCgaS>)
    requires
        lengths_fit(attributes, cgas),
    ensures
        length_space(attributes, cgas) matches Ok(space) ==> space.wf(),
{
    let listed = listed_vars(attributes);
    assert(LengthsS::empty().wf());
    lemma_listed_wf(attributes, listed, LengthsS::empty(), 0);
    if let Ok(s) = add_listed(attributes, listed, LengthsS::empty(), 0) {
        lemma_used_wf(attributes, cgas, s, 0);
    }
}

proof fn lemma_after_calls(it: VariadicLengthIteratorS, k: nat)
    requires
        it.i == 0,
    ensures
        it.after_calls(k) == (VariadicLengthIteratorS {
            i: if k < it.space.total { k } else { it.space.total },
            ..it
        }),
    decreases k,
{
    if k > 0 {
        lemma_after_calls(it, (k - 1) as nat);
    }
}

/// Iteration gives every combination in its turn, as many as there are, and nothing after that.
pub proof fn law_iteration_ends(it: VariadicLengthIteratorS, k: nat)
    requires
        it.i == 0,
    ensures
        it.after_calls(k).item() == if k < it.space.total {
            Some(item_at(k, it.space.lengths, it.vars))
        } else {
            None
        },
{
    lemma_after_calls(it, k);
}

/// Every choice of a length for each variable comes up in exactly one call.
pub proof fn law_each_choice_comes_up_once(
    it: VariadicLengthIteratorS,
    d: Seq<(Text, u32)>,
    k: nat,
)
    requires
        it.i == 0,
        it.wf(),
        is_choice(d, it.space.lengths),
    ensures
        ({
            let n = number_of(d, it.space.lengths);
            &&& it.after_calls(n).item() matches Some(x) && x.unique == d
            &&& it.after_calls(k).item() matches Some(x) ==> (x.unique == d ==> k == n)
        }),
{
    let v = it.space.lengths;
    let n = number_of(d, v);
    assert forall|j: int| 0 <= j < v.len() implies 0 < (#[trigger] v[j]).1 <= i32::MAX by {
        assert(d[j].1 < v[j].1);
    }
    law_combinations_are_complete(d, v);
    law_iteration_ends(it, n);
    law_iteration_ends(it, k);
    if k < it.space.total && k != n {
        law_combinations_are_distinct(k, n, v);
    }
}

/// In every combination an array has the length of its length variable.
pub proof fn law_arrays_take_their_length(it: VariadicLengthIteratorS, k: nat, a: int)
    requires
        it.i == 0,
        it.wf(),
        0 <= a < it.vars.len(),
    ensures
        it.after_calls(k).item() matches Some(x) ==> {
            &&& x.cgas.len() == it.vars.len()
            &&& entry(x.unique, it.vars[a]) is Some
            &&& x.cgas[a] == (it.vars[a], entry(x.unique, it.vars[a])->Some_0)
        },
{
    law_iteration_ends(it, k);
    if k < it.space.total {
        let v = it.space.lengths;
        lemma_product_positive(v);
        assert(entry(v, it.vars[a]) is Some);
        lemma_entry_digits(k, v, it.vars[a]);
    }
}

proof fn lemma_listed_refused(
    attributes: MetaS,
    vars: Seq<Text>,
    s: LengthsS,
    seen: Seq<Text>,
    i: nat,
)
    requires
        holds(s, seen, attributes),
        i <= vars.len(),
    ensures
        add_listed(attributes, vars, s, i) is Ok <==> (forall|j: int|
            i <= j < vars.len() ==> attributes.ints.contains_key(#[trigger] vars[j])
                && !seen.contains(vars[j])) && forall|j: int, k: int|
            i <= j < k < vars.len() ==> #[trigger] vars[j] != #[trigger] vars[k],
    decreases vars.len() - i,
{
    if i < vars.len() {
        let var = vars[i as int];
        assert(entry(s.lengths, var) is Some <==> seen.contains(var));
        if attributes.ints.contains_key(var) && !seen.contains(var) {
            let next = seen.push(var);
            lemma_holds_with(s, seen, attributes, var);
            lemma_listed_refused(
                attributes,
                vars,
                s.with(var, length_count(attributes, var)),
                next,
                i + 1,
            );
            assert forall|v: Text| #[trigger] next.contains(v) <==> seen.contains(v) || v == var by {
                assert(next.last() == var);
                if seen.contains(v) {
                    let k = choose|k: int| 0 <= k < seen.len() && seen[k] == v;
                    assert(next[k] == v);
                }
            }
            if add_listed(attributes, vars, s, i) is Ok {
                assert forall|j: int, k: int| i <= j < k < vars.len() implies #[trigger] vars[j]
                    != #[trigger] vars[k] by {
                    if j == i {
                        assert(!next.contains(vars[k]));
                    }
                }
                assert forall|j: int| i <= j < vars.len() implies attributes.ints.contains_key(
                    #[trigger] vars[j],
                ) && !seen.contains(vars[j]) by {
                    if j > i {
                        assert(!next.contains(vars[j]));
                    }
                }
            } else {
                if forall|j: int|
                    i <= j < vars.len() ==> attributes.ints.contains_key(#[trigger] vars[j])
                        && !seen.contains(vars[j]) {
                    if forall|j: int, k: int|
                        i <= j < k < vars.len() ==> #[trigger] vars[j] != #[trigger] vars[k] {
                        assert forall|j: int|
                            i + 1 <= j < vars.len() implies attributes.ints.contains_key(
                            #[trigger] vars[j],
                        ) && !next.contains(vars[j]) by {
                            assert(vars[i as int] != vars[j]);
                        }
                        assert(false);
                    }
                }
            }
        } else {
            assert(attributes.ints.contains_key(vars[i as int]) ==> seen.contains(
                vars[i as int],
            ));
        }
    }
}

proof fn lemma_used_refused(
    attributes: MetaS,
    cgas: Seq<VarCgaS>,
    s: LengthsS,
    seen: Seq<Text>,
    i: nat,
)
    requires
        holds(s, seen, attributes),
        i <= cgas.len(),
    ensures
        add_used(attributes, cgas, s, i) is Ok <==> forall|j: int|
            i <= j < cgas.len() ==> attributes.ints.contains_key((#[trigger] cgas[j]).length_var),
    decreases cgas.len() - i,
{
    if i < cgas.len() {
        let var = cgas[i as int].length_var;
        assert(entry(s.lengths, var) is Some <==> seen.contains(var));
        if attributes.ints.contains_key(var) {
            if seen.contains(var) {
                assert(entry(s.lengths, var) == Some(length_count(attributes, var)));
                lemma_used_refused(attributes, cgas, s, seen, i + 1);
            } else {
                lemma_holds_with(s, seen, attributes, var);
                lemma_used_refused(
                    attributes,
                    cgas,
                    s.with(var, length_count(attributes, var)),
                    seen.push(var),
                    i + 1,
                );
            }
        }
    }
}

/// The lengths can be counted exactly if every variable that is listed or used has a value, and
/// none is listed twice.
pub proof fn law_lengths_are_refused(attributes: MetaS, cgas: Seq<VarCgaS>)
    ensures
        length_space(attributes, cgas) is Ok <==> {
            let listed = listed_vars(attributes);
            &&& forall|j: int|
                0 <= j < listed.len() ==> attributes.ints.contains_key(#[trigger] listed[j])
            &&& listed.no_duplicates()
            &&& forall|j: int|
                0 <= j < cgas.len() ==> attributes.ints.contains_key(
                    (#[trigger] cgas[j]).length_var,
                )
        },
{
    let listed = listed_vars(attributes);
    let none = Seq::<Text>::empty();
    assert(holds(LengthsS::empty(), none, attributes));
    lemma_listed_refused(attributes, listed, LengthsS::empty(), none, 0);
    lemma_listed_holds(attributes, listed, LengthsS::empty(), none, 0);
    if let Ok(s) = add_listed(attributes, listed, LengthsS::empty(), 0) {
        lemma_used_refused(attributes, cgas, s, with_names(none, listed, 0), 0);
    }
    if listed.no_duplicates() {
        assert forall|j: int, k: int| 0 <= j < k < listed.len() implies #[trigger] listed[j]
            != #[trigger] listed[k] by {}
    }
}

/// Combinations are counted through like an odometer: all lengths start at zero, that of the
/// first variable goes up by one from each combination to the next, and when it starts over the
/// others go on to their next combination.
pub proof fn law_first_variable_varies_fastest(i: nat, v: Seq<(Text, nat)>)
    requires
        v.len() > 0,
        inhabited(v),
    ensures
        ({
            let d = digits(i, v);
            let e = digits(i + 1, v);
            &&& d.len() == e.len() && d.len() > 0
            &&& d[0].0 == v[0].0 && e[0].0 == v[0].0
            &&& digits(0, v)[0].1 == 0
            &&& d.drop_first() == digits(i / v[0].1, v.drop_first())
            &&& d[0].1 + 1 < v[0].1 ==> e[0].1 == d[0].1 + 1 && e.drop_first() == d.drop_first()
            &&& d[0].1 + 1 == v[0].1 ==> e[0].1 == 0 && e.drop_first() == digits(
                i / v[0].1 + 1,
                v.drop_first(),
            )
        }),
{
    let n = v[0].1;
    let d = digits(i, v);
    let e = digits(i + 1, v);
    let rest = v.drop_first();
    assert forall|j: int| 0 <= j < rest.len() implies 0 < (#[trigger] rest[j]).1 <= i32::MAX by {
        assert(rest[j] == v[j + 1]);
    }
    lemma_next_digit(i, n);
    assert(0nat % n == 0) by (nonlinear_arith)
        requires
            n > 0,
    ;
    assert(d.drop_first() =~= digits(i / n, v.drop_first()));
    assert(e.drop_first() =~= digits((i + 1) / n, v.drop_first()));
    lemma_digits_len(i / n, v.drop_first());
    lemma_digits_len((i + 1) / n, v.drop_first());
}

proof fn lemma_digits_len(i: nat, v: Seq<(Text, nat)>)
    requires
        inhabited(v),
    ensures
        digits(i, v).len() == v.len(),
    decreases v.len(),
{
    if v.len() > 0 {
        assert(0 < v[0].1);
        let rest = v.drop_first();
        assert forall|j: int| 0 <= j < rest.len() implies 0 < (#[trigger] rest[j]).1 <= i32::MAX by {
            assert(rest[j] == v[j + 1]);
        }
        lemma_digits_len(i / v[0].1, rest);
    }
}

} // verus!
