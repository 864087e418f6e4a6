//! What holds of shadow dispatch as a whole.
use super::emit::{
    dependent_types, extra_count, extra_names, extra_types, method_inputs, trait_generics,
    trait_instance_args, wrapper_trait_args,
};
use super::lifetimes::{
    bound, bound_arg, bound_args, bound_segment, bound_segments, bound_types, replaced,
    replaced_arg, replaced_args, replaced_segment, replaced_segments, replaced_types,
};
use super::op_spec::{ParsedArgS, RankPolyOpSpecS};
use super::ranks::{
    base_digits, combo_at, declared_cgas, group_index, grouped, groups_of, map_groups, map_names,
    param_cga, params_cgas, suffixed, with_cga, CgaInfoS, LengthGroupS, RankComboS,
};
use super::types::{
    arg_cga, cga_named, expansion, first_arg_cga, first_literal, literal_dims, name_consts, rank_arg,
    rank_args, rank_len, rank_segment, rank_segments, rank_type, rank_types, ranked_arguments,
    segment_rank, Expansion,
};
use super::variadic_traits::{
    all_args, bound_count, classify, declares_cga, impl_plan, impl_sigs, in_types, other_params,
    shadow_generics, trait_ref_path, trait_shape, trait_sigs, CgaRoleS,
};
use crate::ast::{ArgS, ArgumentsS, PathS, SegmentS, TypeS};
use crate::error::ErrorS;
use crate::items::{GenericParamS, ItemImplS, ItemTraitS};
use crate::lists::{collect, concat, lemma_collect, lemma_concat_step};
use crate::print::path_ident;
use crate::rank_instantiation::laws::law_decimal_is_injective;
use crate::rank_instantiation::signatures::name_arg;
use crate::rank_instantiation::types::name_path;
use crate::text::{decimal_text, filled, Text};
use vstd::arithmetic::power::pow;
use vstd::prelude::*;

verus! {

// ---------------------------------------------------------------------------
// Groups
// ---------------------------------------------------------------------------

/// The names of the arrays among the first `k` that have the given length, in order.
pub open spec fn members(cgas: Seq<CgaInfoS>, length: Text, k: nat) -> Seq<Text>
    decreases k,
{
    if k == 0 {
        seq![]
    } else {
        let rest = members(cgas, length, (k - 1) as nat);
        if cgas[k - 1].length_ident == length { rest.push(cgas[k - 1].cga_ident) } else { rest }
    }
}

/// The groups of the first `k` arrays are sound: no length has two groups, and a group holds
/// exactly the arrays of its length.
pub open spec fn groups_sound(groups: Seq<LengthGroupS>, cgas: Seq<CgaInfoS>, k: nat) -> bool {
    &&& forall|i: int, j: int|
        0 <= i < j < groups.len() ==> (#[trigger] groups[i]).length_ident != (
        #[trigger] groups[j]).length_ident
    &&& forall|i: int|
        0 <= i < groups.len() ==> (#[trigger] groups[i]).cgas == members(
            cgas,
            groups[i].length_ident,
            k,
        )
    &&& forall|a: int|
        0 <= a < k ==> group_index(groups, (#[trigger] cgas[a]).length_ident, 0) < groups.len()
    &&& forall|i: int| 0 <= i < groups.len() ==> (#[trigger] groups[i]).cgas.len() > 0
}

proof fn lemma_group_index(groups: Seq<LengthGroupS>, length: Text, i: nat)
    requires
        i <= groups.len(),
    ensures
        i <= group_index(groups, length, i) <= groups.len(),
        group_index(groups, length, i) < groups.len() ==> groups[group_index(
            groups,
            length,
            i,
        ) as int].length_ident == length,
        forall|j: int|
            i <= j < group_index(groups, length, i) ==> (#[trigger] groups[j]).length_ident
                != length,
    decreases groups.len() - i,
{
    if i < groups.len() && groups[i as int].length_ident != length {
        lemma_group_index(groups, length, i + 1);
    }
}

proof fn lemma_members_none(cgas: Seq<CgaInfoS>, length: Text, k: nat)
    requires
        k <= cgas.len(),
        forall|a: int| 0 <= a < k ==> (#[trigger] cgas[a]).length_ident != length,
    ensures
        members(cgas, length, k) == Seq::<Text>::empty(),
    decreases k,
{
    if k > 0 {
        lemma_members_none(cgas, length, (k - 1) as nat);
    }
}

proof fn lemma_grouped(cgas: Seq<CgaInfoS>, k: nat)
    requires
        k <= cgas.len(),
    ensures
        groups_sound(grouped(cgas, k), cgas, k),
    decreases k,
{
    if k > 0 {
        lemma_grouped(cgas, (k - 1) as nat);
        let old_groups = grouped(cgas, (k - 1) as nat);
        let cga = cgas[k - 1];
        let groups = with_cga(old_groups, cga);
        let g = group_index(old_groups, cga.length_ident, 0);
        lemma_group_index(old_groups, cga.length_ident, 0);
        if g < old_groups.len() {
            assert forall|i: int| 0 <= i < groups.len() implies (#[trigger] groups[i]).cgas
                == members(cgas, groups[i].length_ident, k) && groups[i].cgas.len() > 0 by {
                assert(groups[i].length_ident == old_groups[i].length_ident);
                if i != g {
                    assert(groups[i] == old_groups[i]);
                    assert(old_groups[i].length_ident != old_groups[g as int].length_ident);
                }
            }
            assert forall|i: int, j: int| 0 <= i < j < groups.len() implies (
            #[trigger] groups[i]).length_ident != (#[trigger] groups[j]).length_ident by {
                assert(groups[i].length_ident == old_groups[i].length_ident);
                assert(groups[j].length_ident == old_groups[j].length_ident);
            }
        } else {
            assert forall|a: int| 0 <= a < k - 1 implies (#[trigger] cgas[a]).length_ident
                != cga.length_ident by {
                assert(group_index(old_groups, cgas[a].length_ident, 0) < old_groups.len());
            }
            lemma_members_none(cgas, cga.length_ident, (k - 1) as nat);
            assert forall|i: int| 0 <= i < groups.len() implies (#[trigger] groups[i]).cgas
                == members(cgas, groups[i].length_ident, k) && groups[i].cgas.len() > 0 by {
                if i < old_groups.len() {
                    assert(groups[i] == old_groups[i]);
                    assert(old_groups[i].length_ident != cga.length_ident);
                } else {
                    assert(groups[i].cgas =~= members(cgas, cga.length_ident, k));
                }
            }
            assert forall|i: int, j: int| 0 <= i < j < groups.len() implies (
            #[trigger] groups[i]).length_ident != (#[trigger] groups[j]).length_ident by {
                assert(groups[i] == old_groups[i]);
                if j < old_groups.len() {
                    assert(groups[j] == old_groups[j]);
                }
            }
        }
        assert forall|a: int| 0 <= a < k implies group_index(
            groups,
            (#[trigger] cgas[a]).length_ident,
            0,
        ) < groups.len() by {
            let l = cgas[a].length_ident;
            lemma_group_index(groups, l, 0);
            let h = if a < k - 1 {
                lemma_group_index(old_groups, l, 0);
                group_index(old_groups, l, 0)
            } else {
                g
            };
            assert(groups[h as int].length_ident == l);
        }
    }
}

/// Grouping by length is a partition: no length has two groups, every group holds exactly the
/// arrays of its length in declaration order, and every array is in a group.
pub proof fn law_groups_partition_arrays(cgas: Seq<CgaInfoS>)
    ensures
        groups_sound(groups_of(cgas), cgas, cgas.len()),
{
    lemma_grouped(cgas, cgas.len());
}

proof fn lemma_groups_in_order(cgas: Seq<CgaInfoS>, k: nat, i: int, j: int, a: int) -> (b: int)
    requires
        k <= cgas.len(),
        0 <= i < j < grouped(cgas, k).len(),
        0 <= a < k,
        cgas[a].length_ident == grouped(cgas, k)[j].length_ident,
    ensures
        0 <= b < a,
        cgas[b].length_ident == grouped(cgas, k)[i].length_ident,
    decreases k,
{
    let m = (k - 1) as nat;
    let before = grouped(cgas, m);
    let groups = grouped(cgas, k);
    let cga = cgas[k - 1];
    lemma_grouped(cgas, m);
    lemma_group_index(before, cga.length_ident, 0);
    assert(i < before.len() && groups[i].length_ident == before[i].length_ident);
    if a == k - 1 {
        assert(before[i].cgas.len() > 0);
        lemma_members_from(cgas, before[i].length_ident, m, 0)
    } else {
        if j == before.len() {
            assert(group_index(before, cgas[a].length_ident, 0) < before.len());
        }
        assert(groups[j].length_ident == before[j].length_ident);
        lemma_groups_in_order(cgas, m, i, j, a)
    }
}

/// Groups come in the order in which their lengths first appear: before every array of a later
/// group stands one of each earlier group.
pub proof fn law_groups_keep_first_appearance(cgas: Seq<CgaInfoS>, i: int, j: int, a: int)
    requires
        0 <= i < j < groups_of(cgas).len(),
        0 <= a < cgas.len(),
        cgas[a].length_ident == groups_of(cgas)[j].length_ident,
    ensures
        exists|b: int|
            0 <= b < a && (#[trigger] cgas[b]).length_ident == groups_of(cgas)[i].length_ident,
{
    let b = lemma_groups_in_order(cgas, cgas.len(), i, j, a);
    assert(cgas[b].length_ident == groups_of(cgas)[i].length_ident);
}

// ---------------------------------------------------------------------------
// Combinations of ranks
// ---------------------------------------------------------------------------

/// Two different numbers stand for two different combinations of ranks.
pub proof fn law_rank_combinations_are_distinct(a: nat, b: nat, base: nat, n: nat)
    requires
        base > 0,
        a < pow(base as int, n),
        b < pow(base as int, n),
        a != b,
    ensures
        base_digits(a, base, n) != base_digits(b, base, n),
    decreases n,
{
    vstd::arithmetic::power::lemma_pow0(base as int);
    if n > 0 {
        let m = (n - 1) as nat;
        let p = pow(base as int, m);
        vstd::arithmetic::power::lemma_pow_adds(base as int, 1, m);
        vstd::arithmetic::power::lemma_pow1(base as int);
        assert(pow(base as int, n) == base * p);
        assert(a / base < p && b / base < p && 0 <= a % base < base && 0 <= b % base < base && a
            == base * (a / base) + a % base && b == base * (b / base) + b % base)
            by (nonlinear_arith)
            requires
                base > 0,
                a < base * p,
                b < base * p,
        ;
        let da = base_digits(a, base, n);
        let db = base_digits(b, base, n);
        let ra = base_digits(a / base, base, m);
        let rb = base_digits(b / base, base, m);
        assert(da == seq![a % base] + ra);
        assert(db == seq![b % base] + rb);
        if da == db {
            assert(da[0] == db[0]);
            if a / base == b / base {
                assert(a == b);
            } else {
                law_rank_combinations_are_distinct(a / base, b / base, base, m);
                assert(ra =~= da.skip(1));
                assert(rb =~= db.skip(1));
            }
        }
    }
}

/// The number of a combination of ranks.
pub open spec fn code_of(ranks: Seq<nat>, base: nat) -> nat
    decreases ranks.len(),
{
    if ranks.len() == 0 { 0 } else { ranks[0] + base * code_of(ranks.drop_first(), base) }
}

/// Every choice of a rank for each group is a combination.
pub proof fn law_rank_combinations_are_complete(ranks: Seq<nat>, base: nat)
    requires
        base > 0,
        forall|i: int| 0 <= i < ranks.len() ==> (#[trigger] ranks[i]) < base,
    ensures
        code_of(ranks, base) < pow(base as int, ranks.len()),
        base_digits(code_of(ranks, base), base, ranks.len()) == ranks,
    decreases ranks.len(),
{
    vstd::arithmetic::power::lemma_pow0(base as int);
    if ranks.len() == 0 {
        assert(base_digits(0, base, 0) =~= ranks);
    } else {
        let tail = ranks.drop_first();
        let m = tail.len();
        assert forall|i: int| 0 <= i < tail.len() implies (#[trigger] tail[i]) < base by {
            assert(tail[i] == ranks[i + 1]);
        }
        law_rank_combinations_are_complete(tail, base);
        let p = pow(base as int, m);
        vstd::arithmetic::power::lemma_pow_adds(base as int, 1, m);
        vstd::arithmetic::power::lemma_pow1(base as int);
        let x = ranks[0];
        let c = code_of(tail, base);
        let code = code_of(ranks, base);
        assert(code == x + base * c);
        assert(code % base == x && code / base == c && code < base * p) by (nonlinear_arith)
            requires
                0 <= x < base,
                0 <= c < p,
                code == x + base * c,
        ;
        assert(base_digits(code, base, ranks.len()) == seq![code % base] + base_digits(
            code / base,
            base,
            m,
        ));
        assert(base_digits(code, base, ranks.len()) =~= ranks);
    }
}

proof fn lemma_map_names_has(m: Map<Text, usize>, names: Seq<Text>, group: usize, j: nat, x: int)
    requires
        0 <= x < j <= names.len(),
    ensures
        map_names(m, names, group, j).contains_key(names[x]),
        map_names(m, names, group, j)[names[x]] == group,
    decreases j,
{
    if x < j - 1 {
        lemma_map_names_has(m, names, group, (j - 1) as nat, x);
    }
}

proof fn lemma_map_names_other(m: Map<Text, usize>, names: Seq<Text>, group: usize, j: nat, key: Text)
    requires
        j <= names.len(),
        forall|x: int| 0 <= x < names.len() ==> #[trigger] names[x] != key,
    ensures
        map_names(m, names, group, j).contains_key(key) == m.contains_key(key),
        map_names(m, names, group, j)[key] == m[key],
    decreases j,
{
    if j > 0 {
        lemma_map_names_other(m, names, group, (j - 1) as nat, key);
    }
}

proof fn lemma_members_has(cgas: Seq<CgaInfoS>, k: nat, a: int) -> (x: int)
    requires
        0 <= a < k <= cgas.len(),
    ensures
        0 <= x < members(cgas, cgas[a].length_ident, k).len(),
        members(cgas, cgas[a].length_ident, k)[x] == cgas[a].cga_ident,
    decreases k,
{
    let length = cgas[a].length_ident;
    if a == k - 1 {
        members(cgas, length, (k - 1) as nat).len() as int
    } else {
        lemma_members_has(cgas, (k - 1) as nat, a)
    }
}

proof fn lemma_members_from(cgas: Seq<CgaInfoS>, length: Text, k: nat, x: int) -> (a: int)
    requires
        k <= cgas.len(),
        0 <= x < members(cgas, length, k).len(),
    ensures
        0 <= a < k,
        cgas[a].length_ident == length,
        cgas[a].cga_ident == members(cgas, length, k)[x],
    decreases k,
{
    let rest = members(cgas, length, (k - 1) as nat);
    if cgas[k - 1].length_ident == length && x == rest.len() {
        k - 1
    } else {
        lemma_members_from(cgas, length, (k - 1) as nat, x)
    }
}

proof fn lemma_group_of(cgas: Seq<CgaInfoS>, k: nat, a: int)
    requires
        0 <= a < cgas.len(),
        groups_of(cgas).len() <= usize::MAX,
        forall|x: int, y: int|
            0 <= x < y < cgas.len() ==> (#[trigger] cgas[x]).cga_ident != (
            #[trigger] cgas[y]).cga_ident,
        group_index(groups_of(cgas), cgas[a].length_ident, 0) < k <= groups_of(cgas).len(),
    ensures
        map_groups(groups_of(cgas), k).contains_key(cgas[a].cga_ident),
        map_groups(groups_of(cgas), k)[cgas[a].cga_ident] == group_index(
            groups_of(cgas),
            cgas[a].length_ident,
            0,
        ),
    decreases k,
{
    let groups = groups_of(cgas);
    let name = cgas[a].cga_ident;
    let g = group_index(groups, cgas[a].length_ident, 0);
    law_groups_partition_arrays(cgas);
    lemma_group_index(groups, cgas[a].length_ident, 0);
    let last = groups[k - 1];
    let prev = map_groups(groups, (k - 1) as nat);
    if g == k - 1 {
        let x = lemma_members_has(cgas, cgas.len(), a);
        assert(last.cgas == members(cgas, last.length_ident, cgas.len()));
        lemma_map_names_has(prev, last.cgas, (k - 1) as usize, last.cgas.len(), x);
    } else {
        lemma_group_of(cgas, (k - 1) as nat, a);
        assert forall|x: int| 0 <= x < last.cgas.len() implies #[trigger] last.cgas[x] != name by {
            assert(last.cgas == members(cgas, last.length_ident, cgas.len()));
            let c = lemma_members_from(cgas, last.length_ident, cgas.len(), x);
            assert(groups[g as int].length_ident != last.length_ident);
            if c < a {
                assert(cgas[c].cga_ident != cgas[a].cga_ident);
            } else if a < c {
                assert(cgas[a].cga_ident != cgas[c].cga_ident);
            }
        }
        lemma_map_names_other(prev, last.cgas, (k - 1) as usize, last.cgas.len(), name);
    }
}

/// Combinations are counted through like an odometer: all ranks start at zero, the rank of the
/// first group goes up by one from each combination to the next, and when it starts over the
/// others go on to their next combination.
pub proof fn law_first_group_varies_fastest(code: nat, base: nat, n: nat)
    requires
        base > 0,
        n > 0,
    ensures
        ({
            let d = base_digits(code, base, n);
            let e = base_digits(code + 1, base, n);
            &&& base_digits(0, base, n)[0] == 0
            &&& base_digits(0, base, n).drop_first() == base_digits(0, base, (n - 1) as nat)
            &&& d.len() == e.len() && d[0] < base
            &&& d.drop_first() == base_digits(code / base, base, (n - 1) as nat)
            &&& d[0] + 1 < base ==> e[0] == d[0] + 1 && e.drop_first() == d.drop_first()
            &&& d[0] + 1 == base ==> e[0] == 0 && e.drop_first() == base_digits(
                code / base + 1,
                base,
                (n - 1) as nat,
            )
        }),
{
    let d = base_digits(code, base, n);
    let e = base_digits(code + 1, base, n);
    lemma_next_digit(code, base);
    assert(0nat / base == 0) by (nonlinear_arith)
        requires
            base > 0,
    ;
    assert(0nat % base == 0) by (nonlinear_arith)
        requires
            base > 0,
    ;
    assert(base_digits(0, base, n).drop_first() =~= base_digits(0, base, (n - 1) as nat));
    assert(d.drop_first() =~= base_digits(code / base, base, (n - 1) as nat));
    assert(e.drop_first() =~= base_digits((code + 1) / base, base, (n - 1) as nat));
    lemma_digits_len(code / base, base, (n - 1) as nat);
    lemma_digits_len((code + 1) / base, base, (n - 1) as nat);
}

proof fn lemma_digits_len(code: nat, base: nat, n: nat)
    requires
        base > 0,
    ensures
        base_digits(code, base, n).len() == n,
    decreases n,
{
    if n > 0 {
        lemma_digits_len(code / base, base, (n - 1) as nat);
    }
}

/// Counting on by one carries exactly when the last digit is the highest.
pub proof fn lemma_next_digit(code: nat, base: nat)
    requires
        base > 0,
    ensures
        code % base < base,
        code % base + 1 < base ==> (code + 1) % base == code % base + 1 && (code + 1) / base == code
            / base,
        code % base + 1 == base ==> (code + 1) % base == 0 && (code + 1) / base == code / base + 1,
{
    let q = (code / base) as int;
    let r = (code % base) as int;
    vstd::arithmetic::div_mod::lemma_fundamental_div_mod(code as int, base as int);
    if r + 1 < base {
        vstd::arithmetic::div_mod::lemma_fundamental_div_mod_converse(
            (code + 1) as int,
            base as int,
            q,
            r + 1,
        );
    } else {
        assert(base as int * (q + 1) == base * q + base) by (nonlinear_arith);
        vstd::arithmetic::div_mod::lemma_fundamental_div_mod_converse(
            (code + 1) as int,
            base as int,
            q + 1,
            0,
        );
    }
}

/// Arrays that share a length have the same rank in every combination, and the rank of an array
/// is that of its length's group.
pub proof fn law_shared_length_shared_rank(cgas: Seq<CgaInfoS>, max_rank: nat, code: nat, a: int, b: int)
    requires
        0 <= a < cgas.len(),
        0 <= b < cgas.len(),
        cgas.len() <= usize::MAX,
        cgas[a].length_ident == cgas[b].length_ident,
        forall|x: int, y: int|
            0 <= x < y < cgas.len() ==> (#[trigger] cgas[x]).cga_ident != (
            #[trigger] cgas[y]).cga_ident,
    ensures
        combo_at(cgas, max_rank, code).rank_of(cgas[a].cga_ident) == combo_at(
            cgas,
            max_rank,
            code,
        ).rank_of(cgas[b].cga_ident),
        combo_at(cgas, max_rank, code).rank_of(cgas[a].cga_ident) == combo_at(
            cgas,
            max_rank,
            code,
        ).ranks[group_index(groups_of(cgas), cgas[a].length_ident, 0) as int],
{
    law_groups_partition_arrays(cgas);
    lemma_groups_len(cgas, cgas.len());
    let n = groups_of(cgas).len();
    assert(group_index(groups_of(cgas), cgas[a].length_ident, 0) < n);
    lemma_group_of(cgas, n, a);
    lemma_group_of(cgas, n, b);
}

proof fn lemma_groups_len(cgas: Seq<CgaInfoS>, k: nat)
    requires
        k <= cgas.len(),
    ensures
        grouped(cgas, k).len() <= k,
    decreases k,
{
    if k > 0 {
        lemma_groups_len(cgas, (k - 1) as nat);
    }
}

// ---------------------------------------------------------------------------
// Types
// ---------------------------------------------------------------------------

/// All of the flags are set.
pub open spec fn all(v: Seq<bool>) -> bool {
    forall|i: int| 0 <= i < v.len() ==> #[trigger] v[i]
}

/// No array and no length of a combination occurs in a type, and no literal array: names of
/// arrays as arguments, literal arrays as arguments and lengths of array types are absent at
/// every depth.
pub open spec fn type_unranked(t: TypeS, c: RankComboS) -> bool
    decreases t,
{
    match t {
        TypeS::Path(p) => all(segments_unranked(p.segments, c)),
        TypeS::Reference { elem, .. } => type_unranked(*elem, c),
        TypeS::Array { elem, len } => type_unranked(*elem, c) && rank_len(*len, c) == *len,
        TypeS::Tuple(elems) => all(types_unranked(elems, c)),
        _ => true,
    }
}

pub open spec fn segments_unranked(v: Seq<SegmentS>, c: RankComboS) -> Seq<bool>
    decreases v,
{
    Seq::new(v.len(), |i: int| if 0 <= i < v.len() { segment_unranked(v[i], c) } else { true })
}

pub open spec fn segment_unranked(s: SegmentS, c: RankComboS) -> bool
    decreases s,
{
    match s.arguments {
        ArgumentsS::AngleBracketed { turbofish: _, args } => all(args_unranked(args, c)),
        _ => true,
    }
}

pub open spec fn args_unranked(v: Seq<ArgS>, c: RankComboS) -> Seq<bool>
    decreases v,
{
    Seq::new(v.len(), |i: int| if 0 <= i < v.len() { arg_unranked(v[i], c) } else { true })
}

pub open spec fn arg_unranked(a: ArgS, c: RankComboS) -> bool
    decreases a,
{
    &&& arg_cga(a, c.cgas) is None
    &&& literal_dims(a, c) is None
    &&& a matches ArgS::Type(t) ==> type_unranked(t, c)
}

pub open spec fn types_unranked(v: Seq<TypeS>, c: RankComboS) -> Seq<bool>
    decreases v,
{
    Seq::new(v.len(), |i: int| if 0 <= i < v.len() { type_unranked(v[i], c) } else { true })
}

proof fn lemma_no_arg_cga(args: Seq<ArgS>, c: RankComboS, i: nat)
    requires
        all(args_unranked(args, c)),
    ensures
        first_arg_cga(args, c.cgas, i) is None,
        first_literal(args, c, i) is None,
    decreases args.len() - i,
{
    if i < args.len() {
        assert(args_unranked(args, c)[i as int]);
        lemma_no_arg_cga(args, c, i + 1);
    }
}

proof fn lemma_singletons(lists: Seq<Seq<ArgS>>, args: Seq<ArgS>, k: nat)
    requires
        k <= args.len(),
        lists.len() == args.len(),
        forall|i: int| 0 <= i < args.len() ==> #[trigger] lists[i] == seq![args[i]],
    ensures
        concat(lists.take(k as int)) == args.take(k as int),
    decreases k,
{
    if k == 0 {
        assert(concat(lists.take(0)) =~= args.take(0));
    } else {
        lemma_singletons(lists, args, (k - 1) as nat);
        lemma_concat_step(lists, k - 1);
        assert(args.take(k - 1) + seq![args[k - 1]] =~= args.take(k as int));
    }
}

/// A type that mentions no array, no length and no literal array is not changed.
pub proof fn law_unrelated_type_is_unchanged(t: TypeS, c: RankComboS)
    requires
        type_unranked(t, c),
    ensures
        rank_type(t, c) == t,
    decreases t,
{
    match t {
        TypeS::Path(p) => {
            let v = p.segments;
            assert forall|i: int| 0 <= i < v.len() implies rank_segments(v, c)[i] == v[i] by {
                assert(segments_unranked(v, c)[i]);
                lemma_segment_unchanged(v[i], c);
            }
            assert(rank_segments(v, c) =~= v);
        },
        TypeS::Reference { elem, .. } => {
            law_unrelated_type_is_unchanged(*elem, c);
        },
        TypeS::Array { elem, .. } => {
            law_unrelated_type_is_unchanged(*elem, c);
        },
        TypeS::Tuple(elems) => {
            assert forall|i: int| 0 <= i < elems.len() implies rank_types(elems, c)[i]
                == elems[i] by {
                assert(types_unranked(elems, c)[i]);
                law_unrelated_type_is_unchanged(elems[i], c);
            }
            assert(rank_types(elems, c) =~= elems);
        },
        _ => {},
    }
}

proof fn lemma_segment_unchanged(s: SegmentS, c: RankComboS)
    requires
        segment_unranked(s, c),
    ensures
        rank_segment(s, c) == s,
    decreases s,
{
    match s.arguments {
        ArgumentsS::AngleBracketed { turbofish, args } => {
            lemma_no_arg_cga(args, c, 0);
            let lists = rank_args(args, c, Expansion::Nothing);
            assert forall|i: int| 0 <= i < args.len() implies #[trigger] lists[i]
                == seq![args[i]] by {
                assert(args_unranked(args, c)[i]);
                assert(lists[i] == rank_arg(args[i], c, Expansion::Nothing));
                match args[i] {
                    ArgS::Type(t) => {
                        law_unrelated_type_is_unchanged(t, c);
                    },
                    _ => {},
                }
            }
            lemma_singletons(lists, args, args.len());
            assert(lists.take(args.len() as int) =~= lists);
            assert(args.take(args.len() as int) =~= args);
        },
        _ => {},
    }
}

/// No element of a literal array in the type is itself a block.
pub open spec fn type_flat(t: TypeS) -> bool
    decreases t,
{
    match t {
        TypeS::Path(p) => all(segments_flat(p.segments)),
        TypeS::Reference { elem, .. } => type_flat(*elem),
        TypeS::Array { elem, .. } => type_flat(*elem),
        TypeS::Tuple(elems) => all(types_flat(elems)),
        _ => true,
    }
}

pub open spec fn types_flat(v: Seq<TypeS>) -> Seq<bool>
    decreases v,
{
    Seq::new(v.len(), |i: int| if 0 <= i < v.len() { type_flat(v[i]) } else { true })
}

pub open spec fn segment_flat(s: SegmentS) -> bool
    decreases s,
{
    match s.arguments {
        ArgumentsS::AngleBracketed { turbofish: _, args } => all(args_flat(args)),
        _ => true,
    }
}

pub open spec fn segments_flat(v: Seq<SegmentS>) -> Seq<bool>
    decreases v,
{
    Seq::new(v.len(), |i: int| if 0 <= i < v.len() { segment_flat(v[i]) } else { true })
}

pub open spec fn arg_flat(a: ArgS) -> bool
    decreases a,
{
    match a {
        ArgS::Type(t) => type_flat(t),
        _ => literal_dims(a, RankComboS::none()) matches Some(dims) ==> forall|i: int|
            0 <= i < dims.len() ==> !((#[trigger] dims[i]) is Block),
    }
}

pub open spec fn args_flat(v: Seq<ArgS>) -> Seq<bool>
    decreases v,
{
    Seq::new(v.len(), |i: int| if 0 <= i < v.len() { arg_flat(v[i]) } else { true })
}

proof fn lemma_concat_unranked(lists: Seq<Seq<ArgS>>, c: RankComboS)
    requires
        forall|i: int| 0 <= i < lists.len() ==> all(args_unranked(#[trigger] lists[i], c)),
    ensures
        all(args_unranked(concat(lists), c)),
    decreases lists.len(),
{
    if lists.len() > 0 {
        let front = lists.drop_last();
        assert forall|i: int| 0 <= i < front.len() implies all(
            args_unranked(#[trigger] front[i], c),
        ) by {
            assert(front[i] == lists[i]);
        }
        lemma_concat_unranked(front, c);
        let head = concat(front);
        let last = lists[lists.len() - 1];
        let whole = concat(lists);
        assert forall|i: int| 0 <= i < whole.len() implies #[trigger] args_unranked(whole, c)[i] by {
            if i < head.len() {
                assert(whole[i] == head[i]);
                assert(args_unranked(head, c)[i]);
            } else {
                assert(whole[i] == last[i - head.len()]);
                assert(args_unranked(last, c)[i - head.len()]);
            }
        }
    }
}

proof fn lemma_no_literal(args: Seq<ArgS>, c: RankComboS, i: nat)
    requires
        first_literal(args, c, i) is None,
    ensures
        forall|j: int| i <= j < args.len() ==> literal_dims(#[trigger] args[j], c) is None,
    decreases args.len() - i,
{
    if i < args.len() {
        lemma_no_literal(args, c, i + 1);
    }
}

proof fn lemma_no_named(args: Seq<ArgS>, i: nat)
    ensures
        first_arg_cga(args, RankComboS::none().cgas, i) is None,
    decreases args.len() - i,
{
    if i < args.len() {
        lemma_no_named(args, i + 1);
    }
}

/// What a flat argument becomes holds no literal array.
proof fn lemma_flat_arg(a: ArgS, e: Expansion)
    requires
        arg_flat(a),
        e is Literal || literal_dims(a, RankComboS::none()) is None,
        !(e is Named),
    ensures
        all(args_unranked(rank_arg(a, RankComboS::none(), e), RankComboS::none())),
    decreases a, 0nat,
{
    let c = RankComboS::none();
    let out = rank_arg(a, c, e);
    assert forall|i: int| 0 <= i < out.len() implies #[trigger] args_unranked(out, c)[i] by {
        if let ArgS::Type(t) = a {
            lemma_flat_type(t);
            assert(out[i] == ArgS::Type(rank_type(t, c)));
        } else if let Some(dims) = literal_dims(a, c) {
            assert(out[i] == ArgS::Const(dims[i]));
            assert(!(dims[i] is Block));
        } else {
            assert(out[i] == a);
        }
        assert(arg_cga(out[i], c.cgas) is None);
        assert(arg_unranked(out[i], c));
    }
}

proof fn lemma_flat_segment(s: SegmentS)
    requires
        segment_flat(s),
    ensures
        segment_unranked(rank_segment(s, RankComboS::none()), RankComboS::none()),
    decreases s, 0nat,
{
    let c = RankComboS::none();
    if let ArgumentsS::AngleBracketed { turbofish, args } = s.arguments {
        lemma_no_named(args, 0);
        let e = expansion(args, c);
        if first_literal(args, c, 0) is None {
            lemma_no_literal(args, c, 0);
        }
        let lists = rank_args(args, c, e);
        assert forall|i: int| 0 <= i < lists.len() implies all(
            args_unranked(#[trigger] lists[i], c),
        ) by {
            assert(args_flat(args)[i]);
            assert(lists[i] == rank_arg(args[i], c, e));
            lemma_flat_arg(args[i], e);
        }
        lemma_concat_unranked(lists, c);
        let done = concat(lists);
        let bound = seq![ArgS::Lifetime("_"@)] + done;
        assert forall|i: int| 0 <= i < bound.len() implies #[trigger] args_unranked(bound, c)[i] by {
            if i > 0 {
                assert(bound[i] == done[i - 1]);
                assert(args_unranked(done, c)[i - 1]);
            } else {
                assert(arg_unranked(bound[0], c));
            }
        }
        assert(all(args_unranked(done, c)));
        assert(all(args_unranked(bound, c)));
        let r = rank_segment(s, c);
        if segment_rank(args, c) is Some {
            assert(r.arguments == ranked_arguments(s.ident, turbofish, args, done));
        } else {
            assert(r.arguments == ArgumentsS::AngleBracketed { turbofish, args: done });
        }
        assert(segment_unranked(r, c));
    }
}

proof fn lemma_flat_type(t: TypeS)
    requires
        type_flat(t),
    ensures
        type_unranked(rank_type(t, RankComboS::none()), RankComboS::none()),
    decreases t, 0nat,
{
    let c = RankComboS::none();
    match t {
        TypeS::Path(p) => {
            let out = rank_segments(p.segments, c);
            assert forall|i: int| 0 <= i < out.len() implies #[trigger] segments_unranked(
                out,
                c,
            )[i] by {
                assert(segments_flat(p.segments)[i]);
                lemma_flat_segment(p.segments[i]);
                assert(out[i] == rank_segment(p.segments[i], c));
            }
            assert(rank_type(t, c)->Path_0.segments == out);
            assert(all(segments_unranked(out, c)));
        },
        TypeS::Reference { elem, .. } => {
            lemma_flat_type(*elem);
        },
        TypeS::Array { elem, .. } => {
            lemma_flat_type(*elem);
        },
        TypeS::Tuple(elems) => {
            let out = rank_types(elems, c);
            assert forall|i: int| 0 <= i < out.len() implies #[trigger] types_unranked(out, c)[i] by {
                assert(types_flat(elems)[i]);
                lemma_flat_type(elems[i]);
                assert(out[i] == rank_type(elems[i], c));
            }
            assert(all(types_unranked(out, c)));
        },
        _ => {},
    }
}

/// Rewriting literal arrays a second time changes nothing more: no rank is added twice. This is
/// so where no element of a literal array is itself a block.
pub proof fn law_rewriting_literals_is_idempotent(t: TypeS)
    requires
        type_flat(t),
    ensures
        rank_type(rank_type(t, RankComboS::none()), RankComboS::none()) == rank_type(
            t,
            RankComboS::none(),
        ),
{
    lemma_flat_type(t);
    law_unrelated_type_is_unchanged(rank_type(t, RankComboS::none()), RankComboS::none());
}

/// A type with one array argument among plain names, such as `Tile<E, S>`, becomes
/// `Tile_R<E, S_0, …>`.
pub proof fn law_tile_gets_its_rank(base: Text, elem: Text, cga: CgaInfoS, c: RankComboS)
    requires
        c.cgas.contains(cga),
        cga_named(c.cgas, elem, 0) is None,
        cga_named(c.cgas, cga.cga_ident, 0) matches Some(i) ==> c.cgas[i as int] == cga,
        !super::types::lifetime_bearing(base),
    ensures
        rank_segment(
            SegmentS {
                ident: base,
                arguments: ArgumentsS::AngleBracketed {
                    turbofish: false,
                    args: seq![name_arg(elem), name_arg(cga.cga_ident)],
                },
            },
            c,
        ) == (SegmentS {
            ident: suffixed(base, c.rank_of(cga.cga_ident)),
            arguments: ArgumentsS::AngleBracketed {
                turbofish: false,
                args: seq![ArgS::Type(rank_type(TypeS::Path(name_path(elem)), c))] + name_consts(
                    c.dim_names(cga.cga_ident),
                ),
            },
        }),
{
    let args = seq![name_arg(elem), name_arg(cga.cga_ident)];
    let at = choose|i: int| 0 <= i < c.cgas.len() && c.cgas[i] == cga;
    lemma_cga_named(c.cgas, cga.cga_ident, 0, at);
    assert(path_ident(name_path(elem)) == Some(elem));
    assert(path_ident(name_path(cga.cga_ident)) == Some(cga.cga_ident));
    assert(first_arg_cga(args, c.cgas, 1) == arg_cga(args[1], c.cgas));
    assert(first_arg_cga(args, c.cgas, 0) == arg_cga(args[1], c.cgas));
    let lists = rank_args(args, c, Expansion::Named);
    let first = seq![ArgS::Type(rank_type(TypeS::Path(name_path(elem)), c))];
    let dims = name_consts(c.dim_names(cga.cga_ident));
    assert(lists[0] == rank_arg(args[0], c, Expansion::Named));
    assert(lists[0] == first);
    assert(lists[1] == rank_arg(args[1], c, Expansion::Named));
    assert(lists[1] == dims);
    lemma_concat_step(lists, 0);
    lemma_concat_step(lists, 1);
    assert(lists.take(2) =~= lists);
    assert(lists.take(0) =~= Seq::<Seq<ArgS>>::empty());
    assert(concat(lists.take(1)) =~= first);
    assert(concat(lists) =~= first + dims);
    assert((first + dims).len() > 0);
}

proof fn lemma_cga_named(cgas: Seq<CgaInfoS>, name: Text, i: nat, at: int)
    requires
        i <= at < cgas.len(),
        cgas[at].cga_ident == name,
    ensures
        cga_named(cgas, name, i) matches Some(k) && k < cgas.len(),
    decreases cgas.len() - i,
{
    if cgas[i as int].cga_ident != name {
        lemma_cga_named(cgas, name, i + 1, at);
    }
}

// ---------------------------------------------------------------------------
// Lifetimes
// ---------------------------------------------------------------------------

/// Binding anonymous lifetimes a second time changes nothing more.
pub proof fn law_binding_lifetimes_is_idempotent(t: TypeS, lt: Text)
    ensures
        bound(bound(t, lt), lt) == bound(t, lt),
    decreases t,
{
    match t {
        TypeS::Path(p) => {
            let v = p.segments;
            let w = bound_segments(v, lt);
            assert forall|i: int| 0 <= i < v.len() implies bound_segments(w, lt)[i] == w[i] by {
                lemma_bound_segment(v[i], lt);
                assert(w[i] == bound_segment(v[i], lt));
            }
            assert(bound_segments(w, lt) =~= w);
        },
        TypeS::Reference { elem, .. } => {
            law_binding_lifetimes_is_idempotent(*elem, lt);
        },
        TypeS::Array { elem, .. } => {
            law_binding_lifetimes_is_idempotent(*elem, lt);
        },
        TypeS::Tuple(v) => {
            let w = bound_types(v, lt);
            assert forall|i: int| 0 <= i < v.len() implies bound_types(w, lt)[i] == w[i] by {
                law_binding_lifetimes_is_idempotent(v[i], lt);
                assert(w[i] == bound(v[i], lt));
            }
            assert(bound_types(w, lt) =~= w);
        },
        _ => {},
    }
}

proof fn lemma_bound_segment(s: SegmentS, lt: Text)
    ensures
        bound_segment(bound_segment(s, lt), lt) == bound_segment(s, lt),
    decreases s,
{
    match s.arguments {
        ArgumentsS::AngleBracketed { turbofish, args } => {
            let w = bound_args(args, lt);
            assert forall|i: int| 0 <= i < args.len() implies bound_args(w, lt)[i] == w[i] by {
                assert(w[i] == bound_arg(args[i], lt));
                match args[i] {
                    ArgS::Type(t) => {
                        law_binding_lifetimes_is_idempotent(t, lt);
                    },
                    _ => {},
                }
            }
            assert(bound_args(w, lt) =~= w);
        },
        _ => {},
    }
}

/// A type names a lifetime, in a reference or as an argument, at any depth.
pub open spec fn names_lifetime(t: TypeS, l: Text) -> bool
    decreases t,
{
    match t {
        TypeS::Path(p) => segments_name(p.segments, l).contains(true),
        TypeS::Reference { lifetime, mutable: _, elem } => lifetime == Some(l) || names_lifetime(
            *elem,
            l,
        ),
        TypeS::Array { elem, len: _ } => names_lifetime(*elem, l),
        TypeS::Tuple(elems) => types_name(elems, l).contains(true),
        _ => false,
    }
}

pub open spec fn types_name(v: Seq<TypeS>, l: Text) -> Seq<bool>
    decreases v,
{
    Seq::new(v.len(), |i: int| if 0 <= i < v.len() { names_lifetime(v[i], l) } else { false })
}

pub open spec fn segments_name(v: Seq<SegmentS>, l: Text) -> Seq<bool>
    decreases v,
{
    Seq::new(v.len(), |i: int| if 0 <= i < v.len() { segment_names(v[i], l) } else { false })
}

pub open spec fn segment_names(s: SegmentS, l: Text) -> bool
    decreases s,
{
    match s.arguments {
        ArgumentsS::AngleBracketed { turbofish: _, args } => args_name(args, l).contains(true),
        _ => false,
    }
}

pub open spec fn args_name(v: Seq<ArgS>, l: Text) -> Seq<bool>
    decreases v,
{
    Seq::new(v.len(), |i: int| if 0 <= i < v.len() { arg_names_lifetime(v[i], l) } else { false })
}

pub open spec fn arg_names_lifetime(a: ArgS, l: Text) -> bool
    decreases a,
{
    match a {
        ArgS::Lifetime(x) => x == l,
        ArgS::Type(t) => names_lifetime(t, l),
        _ => false,
    }
}

/// A replaced lifetime is gone from the type.
pub proof fn law_replaced_lifetimes_are_gone(t: TypeS, dead: Seq<Text>, lt: Text, l: Text)
    requires
        dead.contains(l),
        l != lt,
    ensures
        !names_lifetime(replaced(t, dead, lt), l),
    decreases t,
{
    match t {
        TypeS::Path(p) => {
            let v = p.segments;
            let w = replaced_segments(v, dead, lt);
            assert forall|i: int| 0 <= i < w.len() implies !(#[trigger] segments_name(w, l)[i]) by {
                lemma_segment_replaced(v[i], dead, lt, l);
                assert(w[i] == replaced_segment(v[i], dead, lt));
            }
            assert(!segments_name(w, l).contains(true));
            assert(replaced(t, dead, lt) == TypeS::Path(PathS { segments: w, ..p }));
        },
        TypeS::Reference { elem, .. } => {
            law_replaced_lifetimes_are_gone(*elem, dead, lt, l);
        },
        TypeS::Array { elem, .. } => {
            law_replaced_lifetimes_are_gone(*elem, dead, lt, l);
        },
        TypeS::Tuple(v) => {
            let w = replaced_types(v, dead, lt);
            assert forall|i: int| 0 <= i < w.len() implies !(#[trigger] types_name(w, l)[i]) by {
                law_replaced_lifetimes_are_gone(v[i], dead, lt, l);
                assert(w[i] == replaced(v[i], dead, lt));
            }
            assert(!types_name(w, l).contains(true));
            assert(replaced(t, dead, lt) == TypeS::Tuple(w));
        },
        _ => {},
    }
}

proof fn lemma_segment_replaced(s: SegmentS, dead: Seq<Text>, lt: Text, l: Text)
    requires
        dead.contains(l),
        l != lt,
    ensures
        !segment_names(replaced_segment(s, dead, lt), l),
    decreases s,
{
    match s.arguments {
        ArgumentsS::AngleBracketed { turbofish, args } => {
            let w = replaced_args(args, dead, lt);
            assert forall|i: int| 0 <= i < w.len() implies !(#[trigger] args_name(w, l)[i]) by {
                assert(w[i] == replaced_arg(args[i], dead, lt));
                match args[i] {
                    ArgS::Type(t) => {
                        law_replaced_lifetimes_are_gone(t, dead, lt, l);
                    },
                    _ => {},
                }
            }
            assert(!args_name(w, l).contains(true));
            assert(replaced_segment(s, dead, lt).arguments == ArgumentsS::AngleBracketed {
                turbofish,
                args: w,
            });
        },
        _ => {},
    }
}

/// Replacing lifetimes a second time changes nothing more.
pub proof fn law_replacing_lifetimes_is_idempotent(t: TypeS, dead: Seq<Text>, lt: Text)
    ensures
        replaced(replaced(t, dead, lt), dead, lt) == replaced(t, dead, lt),
    decreases t,
{
    match t {
        TypeS::Path(p) => {
            let v = p.segments;
            let w = replaced_segments(v, dead, lt);
            assert forall|i: int| 0 <= i < v.len() implies replaced_segments(w, dead, lt)[i]
                == w[i] by {
                lemma_replaced_segment(v[i], dead, lt);
                assert(w[i] == replaced_segment(v[i], dead, lt));
            }
            assert(replaced_segments(w, dead, lt) =~= w);
        },
        TypeS::Reference { elem, .. } => {
            law_replacing_lifetimes_is_idempotent(*elem, dead, lt);
        },
        TypeS::Array { elem, .. } => {
            law_replacing_lifetimes_is_idempotent(*elem, dead, lt);
        },
        TypeS::Tuple(v) => {
            let w = replaced_types(v, dead, lt);
            assert forall|i: int| 0 <= i < v.len() implies replaced_types(w, dead, lt)[i]
                == w[i] by {
                law_replacing_lifetimes_is_idempotent(v[i], dead, lt);
                assert(w[i] == replaced(v[i], dead, lt));
            }
            assert(replaced_types(w, dead, lt) =~= w);
        },
        _ => {},
    }
}

proof fn lemma_replaced_segment(s: SegmentS, dead: Seq<Text>, lt: Text)
    ensures
        replaced_segment(replaced_segment(s, dead, lt), dead, lt) == replaced_segment(s, dead, lt),
    decreases s,
{
    match s.arguments {
        ArgumentsS::AngleBracketed { turbofish, args } => {
            let w = replaced_args(args, dead, lt);
            assert forall|i: int| 0 <= i < args.len() implies replaced_args(w, dead, lt)[i]
                == w[i] by {
                assert(w[i] == replaced_arg(args[i], dead, lt));
                match args[i] {
                    ArgS::Type(t) => {
                        law_replacing_lifetimes_is_idempotent(t, dead, lt);
                    },
                    _ => {},
                }
            }
            assert(replaced_args(w, dead, lt) =~= w);
        },
        _ => {},
    }
}

// ---------------------------------------------------------------------------
// Operations
// ---------------------------------------------------------------------------

proof fn lemma_extra_types_len(args: Seq<ParsedArgS>, c: RankComboS, k: nat)
    requires
        k <= args.len(),
    ensures
        extra_types(args, c, k).len() == extra_count(args, k),
    decreases k,
{
    if k > 0 {
        lemma_extra_types_len(args, c, (k - 1) as nat);
    }
}

proof fn lemma_dependent_types_len(s: RankPolyOpSpecS, c: RankComboS, k: nat)
    requires
        k <= s.rank_dep_arg_idents.len(),
    ensures
        dependent_types(s, c, k).len() == filled(s.rank_dep_arg_idents, k).len(),
    decreases k,
{
    if k > 0 {
        lemma_dependent_types_len(s, c, (k - 1) as nat);
    }
}

/// The shadow trait is declared, implemented at every combination of ranks, and referred to by
/// the wrapper with the same number of generics.
pub proof fn law_trait_arity_agrees(s: RankPolyOpSpecS, c: RankComboS)
    requires
        s.wf(),
    ensures
        trait_instance_args(s, c).len() == trait_generics(s).len(),
        wrapper_trait_args(s).len() == trait_generics(s).len(),
{
    lemma_extra_types_len(s.args, c, s.args.len());
    lemma_dependent_types_len(s, c, s.args.len());
}

/// A method takes `self` first and one further argument for each other argument of the
/// operation.
pub proof fn law_receiver_comes_first(s: RankPolyOpSpecS, types: Seq<Text>)
    requires
        s.wf(),
    ensures
        method_inputs(s, types)[0] == "self"@,
        method_inputs(s, types).len() == s.args.len(),
{
}

/// The generics that stand for shape-bearing arguments have different names.
pub proof fn law_shape_generics_are_distinct(args: Seq<ParsedArgS>, i: int, j: int)
    requires
        0 <= i < j < extra_names(args).len(),
    ensures
        extra_names(args)[i] != extra_names(args)[j],
{
    if extra_names(args)[i] == extra_names(args)[j] {
        let h = "Sh"@;
        assert(decimal_text(i as nat) =~= extra_names(args)[i].skip(h.len() as int));
        assert(decimal_text(j as nat) =~= extra_names(args)[j].skip(h.len() as int));
        law_decimal_is_injective(i as nat, j as nat);
    }
}

// ---------------------------------------------------------------------------
// Rank-polymorphic traits
// ---------------------------------------------------------------------------

/// An array is free exactly if no argument mentions it; the others get the generics `Sh0`,
/// `Sh1`, … in declaration order.
pub proof fn law_roles_follow_arguments(
    cgas: Seq<CgaInfoS>,
    args: Seq<TypeS>,
    outputs: Seq<TypeS>,
    i: int,
)
    requires
        0 <= i < cgas.len(),
    ensures
        ({
            let shape = classify(cgas, args, outputs);
            &&& shape.roles.len() == cgas.len()
            &&& shape.roles[i] is Free <==> !in_types(args, cgas[i].cga_ident)
            &&& shape.roles[i] matches CgaRoleS::ShapeBound { sh_ident } ==> {
                let k = bound_count(cgas, args, i as nat);
                &&& k < shape.sh_idents.len()
                &&& sh_ident == shape.sh_idents[k as int]
            }
            &&& shape.roles[i] is Free ==> shape.has_free_cga
        }),
{
    lemma_bound_count(cgas, args, i as nat, cgas.len());
}

proof fn lemma_bound_count(cgas: Seq<CgaInfoS>, args: Seq<TypeS>, i: nat, k: nat)
    requires
        i < k <= cgas.len(),
    ensures
        bound_count(cgas, args, i) <= bound_count(cgas, args, k),
        in_types(args, cgas[i as int].cga_ident) ==> bound_count(cgas, args, i) < bound_count(
            cgas,
            args,
            k,
        ),
    decreases k,
{
    if i + 1 < k {
        lemma_bound_count(cgas, args, i, (k - 1) as nat);
    }
}

/// The types of all arguments of all methods of a trait.
pub open spec fn trait_args(decl: ItemTraitS) -> Seq<TypeS> {
    let sigs = trait_sigs(decl.items, decl.items.len());
    all_args(sigs, sigs.len())
}

/// A trait and an impl with the same method signatures agree on the shape of the shadow trait.
pub proof fn law_decl_and_impl_agree(decl: ItemTraitS, item: ItemImplS, cgas: Seq<CgaInfoS>)
    requires
        trait_sigs(decl.items, decl.items.len()) == impl_sigs(item.items, item.items.len()),
    ensures
        impl_plan(item, cgas).shape == trait_shape(decl, cgas),
{
}

proof fn lemma_concat_origin(lists: Seq<Seq<CgaInfoS>>, x: CgaInfoS)
    requires
        concat(lists).contains(x),
    ensures
        exists|m: int| 0 <= m < lists.len() && (#[trigger] lists[m]).contains(x),
    decreases lists.len(),
{
    if lists.len() > 0 {
        let front = concat(lists.drop_last());
        let j = choose|j: int| 0 <= j < concat(lists).len() && concat(lists)[j] == x;
        if j < front.len() {
            assert(front[j] == x);
            lemma_concat_origin(lists.drop_last(), x);
            let m = choose|m: int|
                0 <= m < lists.drop_last().len() && (#[trigger] lists.drop_last()[m]).contains(x);
            assert(lists[m].contains(x));
        } else {
            assert(lists.last()[j - front.len()] == x);
            assert(lists[lists.len() - 1].contains(x));
        }
    }
}

proof fn lemma_concat_member(lists: Seq<Seq<CgaInfoS>>, m: int, x: CgaInfoS)
    requires
        0 <= m < lists.len(),
        lists[m].contains(x),
    ensures
        concat(lists).contains(x),
    decreases lists.len(),
{
    let front = concat(lists.drop_last());
    if m < lists.len() - 1 {
        assert(lists.drop_last()[m] == lists[m]);
        lemma_concat_member(lists.drop_last(), m, x);
        let j = choose|j: int| 0 <= j < front.len() && front[j] == x;
        assert(concat(lists)[j] == x);
    } else {
        let k = choose|k: int| 0 <= k < lists[m].len() && lists[m][k] == x;
        assert(concat(lists)[front.len() + k] == x);
    }
}

/// No two constants among the parameters have the same name.
pub open spec fn distinct_constants(params: Seq<GenericParamS>) -> bool {
    forall|i: int, j: int|
        0 <= i < j < params.len() && (#[trigger] params[i]) is Const && (
        #[trigger] params[j]) is Const ==> params[i].name() != params[j].name()
}

proof fn lemma_other_params(
    params: Seq<GenericParamS>,
    lists: Seq<Seq<CgaInfoS>>,
    cgas: Seq<CgaInfoS>,
    k: nat,
)
    requires
        k <= params.len(),
        lists.len() == params.len(),
        cgas == concat(lists),
        distinct_constants(params),
        forall|i: int|
            0 <= i < params.len() ==> param_cga(params[i]) == Ok::<Seq<CgaInfoS>, ErrorS>(
                #[trigger] lists[i],
            ),
    ensures
        other_params(params, cgas, k).len() + concat(lists.take(k as int)).len() == k,
    decreases k,
{
    if k == 0 {
        assert(lists.take(0) =~= Seq::<Seq<CgaInfoS>>::empty());
    } else {
        let i = k - 1;
        lemma_other_params(params, lists, cgas, (k - 1) as nat);
        lemma_concat_step(lists, i);
        assert(param_cga(params[i]) == Ok::<Seq<CgaInfoS>, ErrorS>(lists[i]));
        if lists[i].len() > 0 {
            assert(lists[i].contains(lists[i][0]));
            lemma_concat_member(lists, i, lists[i][0]);
            assert(declares_cga(params[i], cgas));
        } else if declares_cga(params[i], cgas) {
            let name = params[i].name();
            let j = choose|j: int| 0 <= j < cgas.len() && (#[trigger] cgas[j]).cga_ident == name;
            assert(cgas.contains(cgas[j]));
            lemma_concat_origin(lists, cgas[j]);
            let m = choose|m: int|
                0 <= m < lists.len() && (#[trigger] lists[m]).contains(cgas[j]);
            assert(param_cga(params[m]) == Ok::<Seq<CgaInfoS>, ErrorS>(lists[m]));
            assert(params[m] is Const && params[m].name() == name);
            assert(params[i] is Const);
            assert(m == i);
            assert(false);
        }
    }
}

proof fn lemma_bound_or_free(cgas: Seq<CgaInfoS>, args: Seq<TypeS>, k: nat)
    requires
        k <= cgas.len(),
        at_most_one_free(cgas, args),
    ensures
        bound_count(cgas, args, k) + (if exists|i: int|
            0 <= i < k && !in_types(args, (#[trigger] cgas[i]).cga_ident) {
            1nat
        } else {
            0nat
        }) == k,
    decreases k,
{
    if k > 0 {
        lemma_bound_or_free(cgas, args, (k - 1) as nat);
        if !in_types(args, cgas[k - 1].cga_ident) {
            assert forall|i: int| 0 <= i < k - 1 implies in_types(
                args,
                (#[trigger] cgas[i]).cga_ident,
            ) by {
                assert(cgas[i].cga_ident == cgas[i].cga_ident);
            }
        }
    }
}

/// At most one array is mentioned by no argument.
pub open spec fn at_most_one_free(cgas: Seq<CgaInfoS>, args: Seq<TypeS>) -> bool {
    forall|i: int, j: int|
        0 <= i < j < cgas.len() ==> in_types(args, (#[trigger] cgas[i]).cga_ident) || in_types(
            args,
            (#[trigger] cgas[j]).cga_ident,
        )
}

/// A trait reference with an argument for each parameter of the trait has, in every impl, an
/// argument for each generic of the shadow trait. This is so where at most one array is free
/// and a return type mentions an array if one is.
pub proof fn law_trait_reference_fits(
    decl: ItemTraitS,
    item: ItemImplS,
    cgas: Seq<CgaInfoS>,
    path: PathS,
    c: RankComboS,
)
    requires
        declared_cgas(decl.generics.params) == Ok::<Seq<CgaInfoS>, ErrorS>(cgas),
        distinct_constants(decl.generics.params),
        at_most_one_free(cgas, trait_args(decl)),
        trait_shape(decl, cgas).has_free_cga ==> trait_shape(decl, cgas).any_return_uses_cga,
        path.segments.len() > 0,
        path.segments.last().arguments matches ArgumentsS::AngleBracketed { args, .. }
            && args.len() == decl.generics.params.len(),
    ensures
        trait_ref_path(path, impl_plan(item, cgas), c).segments.last().arguments matches
            ArgumentsS::AngleBracketed { args, .. } && args.len() == shadow_generics(
            decl,
            cgas,
            trait_shape(decl, cgas),
        ).len(),
{
    let params = decl.generics.params;
    let results = params_cgas(params);
    lemma_collect(results);
    let lists = collect(results)->Ok_0;
    assert forall|i: int| 0 <= i < params.len() implies param_cga(params[i]) == Ok::<
        Seq<CgaInfoS>,
        ErrorS,
    >(#[trigger] lists[i]) by {
        assert(results[i] == Ok::<Seq<CgaInfoS>, ErrorS>(lists[i]));
    }
    lemma_other_params(params, lists, cgas, params.len());
    assert(lists.take(params.len() as int) =~= lists);
    lemma_bound_or_free(cgas, trait_args(decl), cgas.len());
}

} // verus!
