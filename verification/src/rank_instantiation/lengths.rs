//! All combinations of const generic array lengths.
use super::bindings::{call_error, MetaS, SingleMetaList, VarCGAParameter, VarCgaS};
use crate::error::{CallSite, Error, ErrorS, SpannedError};
use crate::items::views;
use crate::text::{before, cat3, comes_before, lemma_before_is_total_order, same, texts, Text};
use vstd::prelude::*;

verus! {

// ---------------------------------------------------------------------------
// Length variables
// ---------------------------------------------------------------------------

/// The length variables, ordered by name, each with the number of lengths it can
/// take, and the number of combinations.
pub struct LengthsS {
    pub total: nat,
    pub lengths: Seq<(Text, nat)>,
}

pub open spec fn lengths_s(v: Seq<(String, usize)>) -> Seq<(Text, nat)> {
    Seq::new(v.len(), |i: int| (v[i].0@, v[i].1 as nat))
}

pub open spec fn pairs_s(v: Seq<(String, u32)>) -> Seq<(Text, u32)> {
    Seq::new(v.len(), |i: int| (v[i].0@, v[i].1))
}

/// How many variables at the front come before `key`.
pub open spec fn place(v: Seq<(Text, nat)>, key: Text) -> nat
    decreases v.len(),
{
    if v.len() == 0 || !before(v[0].0, key) {
        0
    } else {
        1 + place(v.drop_first(), key)
    }
}

/// The number under `key`, if it is there.
pub open spec fn entry<T>(v: Seq<(Text, T)>, key: Text) -> Option<T>
    decreases v.len(),
{
    if v.len() == 0 {
        None
    } else if v[0].0 == key {
        Some(v[0].1)
    } else {
        entry(v.drop_first(), key)
    }
}

impl LengthsS {
    pub open spec fn empty() -> LengthsS {
        LengthsS { total: 1, lengths: seq![] }
    }

    /// With one more variable.
    pub open spec fn with(self, var: Text, len: nat) -> LengthsS {
        LengthsS {
            total: self.total * len,
            lengths: self.lengths.insert(place(self.lengths, var) as int, (var, len)),
        }
    }
}

pub open spec fn missing_value_text(var: Text) -> Text {
    "Missing attribute value for '"@ + var + "'"@
}

pub open spec fn duplicate_var_text(var: Text) -> Text {
    "Duplicate variadic_length_var '"@ + var + "'"@
}

pub open spec fn length_mismatch_text(var: Text) -> Text {
    "Variadic length mismatch for '"@ + var + "'"@
}

/// The length variables that an attribute lists.
pub open spec fn listed_vars(attributes: MetaS) -> Seq<Text> {
    if attributes.lists.contains_key("variadic_length_vars"@) {
        attributes.lists["variadic_length_vars"@]
    } else {
        seq![]
    }
}

/// Adds the listed variables from index `i` on. Each needs a value, and none may be
/// listed twice. A value of `n` stands for the lengths `0` to `n`.
pub open spec fn add_listed(attributes: MetaS, vars: Seq<Text>, s: LengthsS, i: nat) -> Result<
    LengthsS,
    ErrorS,
>
    decreases vars.len() - i,
{
    if i >= vars.len() {
        Ok(s)
    } else {
        let var = vars[i as int];
        if !attributes.ints.contains_key(var) {
            Err(call_error(missing_value_text(var)))
        } else if entry(s.lengths, var) is Some {
            Err(call_error(duplicate_var_text(var)))
        } else {
            add_listed(attributes, vars, s.with(var, (attributes.ints[var] + 1) as nat), i + 1)
        }
    }
}

/// Adds the length variables of the arrays from index `i` on, as far as they are
/// not there yet. Each needs a value.
pub open spec fn add_used(attributes: MetaS, cgas: Seq<VarCgaS>, s: LengthsS, i: nat) -> Result<
    LengthsS,
    ErrorS,
>
    decreases cgas.len() - i,
{
    if i >= cgas.len() {
        Ok(s)
    } else {
        let var = cgas[i as int].length_var;
        if !attributes.ints.contains_key(var) {
            Err(call_error(missing_value_text(var)))
        } else {
            let len = (attributes.ints[var] + 1) as nat;
            match entry(s.lengths, var) {
                Some(l) => if l != len {
                    Err(call_error(length_mismatch_text(var)))
                } else {
                    add_used(attributes, cgas, s, i + 1)
                },
                None => add_used(attributes, cgas, s.with(var, len), i + 1),
            }
        }
    }
}

/// The length variables of an item, from its attribute and its arrays.
pub open spec fn length_space(attributes: MetaS, cgas: Seq<VarCgaS>) -> Result<LengthsS, ErrorS> {
    match add_listed(attributes, listed_vars(attributes), LengthsS::empty(), 0) {
        Err(e) => Err(e),
        Ok(s) => add_used(attributes, cgas, s, 0),
    }
}

/// The number of lengths of a variable can be counted.
pub open spec fn countable(attributes: MetaS, var: Text) -> bool {
    attributes.ints.contains_key(var) ==> -1 <= attributes.ints[var] < i32::MAX
}

/// At no point are there more combinations than a `usize` can count.
pub open spec fn listed_fit(attributes: MetaS, vars: Seq<Text>, s: LengthsS, i: nat) -> bool
    decreases vars.len() - i,
{
    &&& s.total <= usize::MAX
    &&& i < vars.len() ==> {
        let var = vars[i as int];
        &&& countable(attributes, var)
        &&& attributes.ints.contains_key(var) ==> listed_fit(
            attributes,
            vars,
            s.with(var, (attributes.ints[var] + 1) as nat),
            i + 1,
        )
    }
}

pub open spec fn used_fit(attributes: MetaS, cgas: Seq<VarCgaS>, s: LengthsS, i: nat) -> bool
    decreases cgas.len() - i,
{
    &&& s.total <= usize::MAX
    &&& i < cgas.len() ==> {
        let var = cgas[i as int].length_var;
        &&& countable(attributes, var)
        &&& attributes.ints.contains_key(var) ==> used_fit(
            attributes,
            cgas,
            if entry(s.lengths, var) is Some {
                s
            } else {
                s.with(var, (attributes.ints[var] + 1) as nat)
            },
            i + 1,
        )
    }
}

/// The combinations of lengths that an attribute asks for can be counted.
pub open spec fn lengths_fit(attributes: MetaS, cgas: Seq<VarCgaS>) -> bool {
    &&& listed_fit(attributes, listed_vars(attributes), LengthsS::empty(), 0)
    &&& add_listed(attributes, listed_vars(attributes), LengthsS::empty(), 0) matches Ok(s)
        ==> used_fit(attributes, cgas, s, 0)
}

// ---------------------------------------------------------------------------
// Combinations
// ---------------------------------------------------------------------------

/// The product of the numbers of lengths.
pub open spec fn product(v: Seq<(Text, nat)>) -> nat
    decreases v.len(),
{
    if v.len() == 0 {
        1
    } else {
        v[0].1 * product(v.drop_first())
    }
}

/// The `i`-th combination: the digits of `i`, lowest first, where the digit of each
/// variable runs through its lengths.
pub open spec fn digits(i: nat, v: Seq<(Text, nat)>) -> Seq<(Text, u32)>
    decreases v.len(),
{
    if v.len() == 0 {
        seq![]
    } else {
        seq![(v[0].0, (i % v[0].1) as u32)] + digits(i / v[0].1, v.drop_first())
    }
}

/// The lengths of the arrays from index `i` on, under a combination.
pub open spec fn cga_pairs(unique: Seq<(Text, u32)>, vars: Seq<Text>) -> Seq<(Text, u32)> {
    Seq::new(vars.len(), |i: int| (vars[i], entry(unique, vars[i])->Some_0))
}

/// A single combination of length variable values: one value for each variable,
/// ordered by name, and one for each array, in declaration order.
pub struct VariadicLengthItemS {
    pub unique: Seq<(Text, u32)>,
    pub cgas: Seq<(Text, u32)>,
}

pub open spec fn item_at(i: nat, lengths: Seq<(Text, nat)>, vars: Seq<Text>) -> VariadicLengthItemS {
    VariadicLengthItemS { unique: digits(i, lengths), cgas: cga_pairs(digits(i, lengths), vars) }
}

/// A single combination of length variable values produced by
/// [`VariadicLengthIterator`].
#[derive(Debug)]
pub struct VariadicLengthItem {
    variadic_length_instance: Vec<(String, u32)>,
    cga_length_instance: Vec<(String, u32)>,
}

impl View for VariadicLengthItem {
    type V = VariadicLengthItemS;

    closed spec fn view(&self) -> VariadicLengthItemS {
        VariadicLengthItemS {
            unique: pairs_s(self.variadic_length_instance@),
            cgas: pairs_s(self.cga_length_instance@),
        }
    }
}

/// The numbers of a list of pairs.
pub open spec fn second(v: Seq<(Text, u32)>) -> Seq<u32> {
    Seq::new(v.len(), |i: int| v[i].1)
}

fn seconds(v: &Vec<(String, u32)>) -> (r: Vec<u32>)
    ensures
        r@ == second(pairs_s(v@)),
{
    let mut out: Vec<u32> = Vec::new();
    let mut i: usize = 0;
    while i < v.len()
        invariant
            i <= v@.len(),
            out@.len() == i,
            forall|j: int| 0 <= j < i ==> #[trigger] out@[j] == v@[j].1,
        decreases v@.len() - i,
    {
        out.push(v[i].1);
        i = i + 1;
    }
    assert(out@ =~= second(pairs_s(v@)));
    out
}

impl VariadicLengthItem {
    /// Returns CGA lengths as a vector, ordered by CGA declaration order.
    pub fn vec_of_cga_lengths(&self) -> (r: Vec<u32>)
        ensures
            r@ == second(self@.cgas),
    {
        seconds(&self.cga_length_instance)
    }

    /// Returns unique length variable values, ordered by variable name.
    pub fn vec_of_unique_lengths(&self) -> (r: Vec<u32>)
        ensures
            r@ == second(self@.unique),
    {
        seconds(&self.variadic_length_instance)
    }

    /// The length variables with their values.
    pub fn unique_lengths(&self) -> (r: &Vec<(String, u32)>)
        ensures
            pairs_s(r@) == self@.unique,
    {
        &self.variadic_length_instance
    }

    /// The length variable of each array with its value.
    pub fn cga_lengths(&self) -> (r: &Vec<(String, u32)>)
        ensures
            pairs_s(r@) == self@.cgas,
    {
        &self.cga_length_instance
    }
}

/// Generates all combinations of const generic array lengths.
///
/// For `#[variadic_struct(N=4)]` with two arrays depending on N, this generates
/// `(0, 0)`, `(1, 1)`, ..., `(4, 4)`: 5 combinations in all.
#[derive(Debug)]
pub struct VariadicLengthIterator {
    i: usize,
    i_max: usize,
    variadic_lengths: Vec<(String, usize)>,
    cga_length_vars: Vec<String>,
}

/// The state of a [`VariadicLengthIterator`]: the number of the next combination,
/// the length variables and the length variable of each array.
pub struct VariadicLengthIteratorS {
    pub i: nat,
    pub space: LengthsS,
    pub vars: Seq<Text>,
}

impl View for VariadicLengthIterator {
    type V = VariadicLengthIteratorS;

    closed spec fn view(&self) -> VariadicLengthIteratorS {
        VariadicLengthIteratorS {
            i: self.i as nat,
            space: LengthsS {
                total: self.i_max as nat,
                lengths: lengths_s(self.variadic_lengths@),
            },
            vars: texts(self.cga_length_vars@),
        }
    }
}

/// The length variables of the arrays.
pub open spec fn length_vars(cgas: Seq<VarCgaS>) -> Seq<Text> {
    Seq::new(cgas.len(), |i: int| cgas[i].length_var)
}

impl LengthsS {
    /// The variables are ordered by name, with no name twice, and the total is the
    /// product of their numbers of lengths.
    pub open spec fn wf(self) -> bool {
        &&& self.total == product(self.lengths)
        &&& forall|i: int, j: int|
            0 <= i < j < self.lengths.len() ==> before(
                (#[trigger] self.lengths[i]).0,
                (#[trigger] self.lengths[j]).0,
            )
        &&& forall|i: int| 0 <= i < self.lengths.len() ==> (#[trigger] self.lengths[i]).1 <= i32::MAX
    }
}

impl VariadicLengthIteratorS {
    /// What the next call gives: the combination whose turn it is, if there is one left.
    pub open spec fn item(self) -> Option<VariadicLengthItemS> {
        if self.i < self.space.total {
            Some(item_at(self.i, self.space.lengths, self.vars))
        } else {
            None
        }
    }

    /// The state after the next call.
    pub open spec fn after(self) -> VariadicLengthIteratorS {
        if self.i < self.space.total {
            VariadicLengthIteratorS { i: self.i + 1, ..self }
        } else {
            self
        }
    }

    /// The state after the next `k` calls.
    pub open spec fn after_calls(self, k: nat) -> VariadicLengthIteratorS
        decreases k,
    {
        if k == 0 { self } else { self.after_calls((k - 1) as nat).after() }
    }

    /// Every array has a length variable that is counted.
    pub open spec fn wf(self) -> bool {
        &&& self.i <= self.space.total
        &&& self.space.wf()
        &&& forall|j: int|
            0 <= j < self.vars.len() ==> entry(self.space.lengths, #[trigger] self.vars[j]) is Some
    }
}

// ---------------------------------------------------------------------------
// Facts
// ---------------------------------------------------------------------------

pub proof fn lemma_place(v: Seq<(Text, nat)>, key: Text)
    ensures
        place(v, key) <= v.len(),
        forall|i: int| 0 <= i < place(v, key) ==> before((#[trigger] v[i]).0, key),
        place(v, key) < v.len() ==> !before(v[place(v, key) as int].0, key),
    decreases v.len(),
{
    if v.len() > 0 && before(v[0].0, key) {
        let rest = v.drop_first();
        lemma_place(rest, key);
        assert forall|i: int| 0 <= i < place(v, key) implies before((#[trigger] v[i]).0, key) by {
            if i > 0 {
                assert(rest[i - 1] == v[i]);
            }
        }
        if place(v, key) < v.len() {
            assert(rest[place(rest, key) as int] == v[place(v, key) as int]);
        }
    }
}

proof fn lemma_entry<T>(v: Seq<(Text, T)>, key: Text)
    ensures
        entry(v, key) matches Some(x) ==> exists|i: int|
            0 <= i < v.len() && (#[trigger] v[i]).0 == key && v[i].1 == x,
        entry(v, key) is None ==> forall|i: int| 0 <= i < v.len() ==> (#[trigger] v[i]).0 != key,
    decreases v.len(),
{
    if v.len() > 0 && v[0].0 != key {
        let rest = v.drop_first();
        lemma_entry(rest, key);
        if entry(rest, key) is Some {
            let i = choose|i: int|
                0 <= i < rest.len() && (#[trigger] rest[i]).0 == key && rest[i].1 == entry(
                    rest,
                    key,
                )->Some_0;
            assert(v[i + 1] == rest[i]);
        } else {
            assert forall|i: int| 0 <= i < v.len() implies (#[trigger] v[i]).0 != key by {
                if i > 0 {
                    assert(rest[i - 1] == v[i]);
                }
            }
        }
    }
}

proof fn lemma_product_insert(v: Seq<(Text, nat)>, p: int, x: (Text, nat))
    requires
        0 <= p <= v.len(),
    ensures
        product(v.insert(p, x)) == product(v) * x.1,
    decreases p,
{
    let w = v.insert(p, x);
    if p == 0 {
        assert(w.drop_first() =~= v);
        assert(x.1 * product(v) == product(v) * x.1) by (nonlinear_arith);
    } else {
        let rest = v.drop_first();
        lemma_product_insert(rest, p - 1, x);
        assert(w.drop_first() =~= rest.insert(p - 1, x));
        assert(v[0].1 * (product(rest) * x.1) == (v[0].1 * product(rest)) * x.1) by (nonlinear_arith);
    }
}

pub proof fn lemma_entry_insert(v: Seq<(Text, nat)>, p: int, x: (Text, nat), key: Text)
    requires
        0 <= p <= v.len(),
        entry(v, x.0) is None,
    ensures
        key != x.0 ==> entry(v.insert(p, x), key) == entry(v, key),
        entry(v.insert(p, x), x.0) == Some(x.1),
    decreases p,
{
    let w = v.insert(p, x);
    if p == 0 {
        assert(w.drop_first() =~= v);
    } else {
        let rest = v.drop_first();
        lemma_entry_insert(rest, p - 1, x, key);
        assert(w.drop_first() =~= rest.insert(p - 1, x));
        assert(w[0] == v[0]);
    }
}

/// A new length variable keeps the order of the names and multiplies the number of
/// combinations.
pub proof fn lemma_with(s: LengthsS, var: Text, len: nat)
    requires
        s.wf(),
        entry(s.lengths, var) is None,
        len <= i32::MAX,
    ensures
        s.with(var, len).wf(),
        entry(s.with(var, len).lengths, var) == Some(len),
        forall|key: Text|
            key != var ==> #[trigger] entry(s.with(var, len).lengths, key) == entry(
                s.lengths,
                key,
            ),
{
    let v = s.lengths;
    let p = place(v, var) as int;
    let w = s.with(var, len).lengths;
    lemma_place(v, var);
    lemma_entry(v, var);
    lemma_product_insert(v, p, (var, len));
    assert forall|i: int, j: int| 0 <= i < j < w.len() implies before(
        (#[trigger] w[i]).0,
        (#[trigger] w[j]).0,
    ) by {
        if i < p && j == p {
            assert(w[i] == v[i]);
        } else if i == p {
            assert(w[j] == v[j - 1]);
            lemma_before_is_total_order(v[p].0, var, v[j - 1].0);
            lemma_before_is_total_order(var, v[p].0, v[j - 1].0);
            if j - 1 > p {
                assert(before(v[p].0, v[j - 1].0));
            }
        } else {
            let a = if i < p { i } else { i - 1 };
            let b = if j < p { j } else { j - 1 };
            assert(w[i] == v[a] && w[j] == v[b]);
        }
    }
    assert forall|i: int| 0 <= i < w.len() implies (#[trigger] w[i]).1 <= i32::MAX by {
        if i < p {
            assert(w[i] == v[i]);
        } else if i > p {
            assert(w[i] == v[i - 1]);
        }
    }
    assert forall|key: Text| key != var implies #[trigger] entry(w, key) == entry(v, key) by {
        lemma_entry_insert(v, p, (var, len), key);
    }
    lemma_entry_insert(v, p, (var, len), var);
}

/// Where there are combinations, every variable has at least one length.
pub proof fn lemma_product_positive(v: Seq<(Text, nat)>)
    requires
        product(v) > 0,
    ensures
        forall|i: int| 0 <= i < v.len() ==> (#[trigger] v[i]).1 > 0,
        v.len() > 0 ==> product(v.drop_first()) > 0,
    decreases v.len(),
{
    if v.len() > 0 {
        let rest = v.drop_first();
        assert(v[0].1 > 0 && product(rest) > 0) by (nonlinear_arith)
            requires
                v[0].1 * product(rest) > 0,
                v[0].1 >= 0,
                product(rest) >= 0,
        ;
        lemma_product_positive(rest);
        assert forall|i: int| 0 <= i < v.len() implies (#[trigger] v[i]).1 > 0 by {
            if i > 0 {
                assert(rest[i - 1] == v[i]);
            }
        }
    }
}

/// A combination has a value for each variable, under its name and below its number
/// of lengths.
pub proof fn lemma_digits(i: nat, v: Seq<(Text, nat)>)
    requires
        forall|j: int| 0 <= j < v.len() ==> 0 < (#[trigger] v[j]).1 <= i32::MAX,
    ensures
        digits(i, v).len() == v.len(),
        forall|j: int|
            0 <= j < v.len() ==> (#[trigger] digits(i, v)[j]).0 == v[j].0 && digits(i, v)[j].1
                < v[j].1,
    decreases v.len(),
{
    if v.len() > 0 {
        let rest = v.drop_first();
        assert forall|j: int| 0 <= j < rest.len() implies 0 < (#[trigger] rest[j]).1 <= i32::MAX by {
            assert(rest[j] == v[j + 1]);
        }
        lemma_digits(i / v[0].1, rest);
        assert(v[0].1 > 0);
        assert(0 <= i % v[0].1 < v[0].1) by (nonlinear_arith)
            requires
                v[0].1 > 0,
        ;
        let d = digits(i, v);
        assert forall|j: int| 0 <= j < v.len() implies (#[trigger] d[j]).0 == v[j].0 && d[j].1
            < v[j].1 by {
            if j > 0 {
                assert(d[j] == digits(i / v[0].1, rest)[j - 1]);
                assert(rest[j - 1] == v[j]);
            }
        }
    }
}

pub proof fn lemma_entry_digits(i: nat, v: Seq<(Text, nat)>, key: Text)
    requires
        forall|j: int| 0 <= j < v.len() ==> 0 < (#[trigger] v[j]).1 <= i32::MAX,
    ensures
        entry(digits(i, v), key) is Some <==> entry(v, key) is Some,
    decreases v.len(),
{
    if v.len() > 0 {
        let rest = v.drop_first();
        assert forall|j: int| 0 <= j < rest.len() implies 0 < (#[trigger] rest[j]).1 <= i32::MAX by {
            assert(rest[j] == v[j + 1]);
        }
        lemma_entry_digits(i / v[0].1, rest, key);
        let d = (v[0].0, (i % v[0].1) as u32);
        assert(digits(i, v) == seq![d] + digits(i / v[0].1, rest));
        assert(digits(i, v).drop_first() =~= digits(i / v[0].1, rest));
    }
}

// ---------------------------------------------------------------------------
// The iterator
// ---------------------------------------------------------------------------

fn insert_ordered(v: &mut Vec<(String, usize)>, key: &str, len: usize)
    ensures
        lengths_s(final(v)@) == lengths_s(old(v)@).insert(
            place(lengths_s(old(v)@), key@) as int,
            (key@, len as nat),
        ),
{
    let ghost all = lengths_s(v@);
    let mut p: usize = 0;
    assert(all.skip(0) =~= all);
    while p < v.len() && comes_before(v[p].0.as_str(), key)
        invariant
            p <= v@.len(),
            v@ == old(v)@,
            all == lengths_s(v@),
            place(all, key@) == p + place(all.skip(p as int), key@),
        decreases v@.len() - p,
    {
        assert(all.skip(p as int).drop_first() =~= all.skip(p + 1));
        p = p + 1;
    }
    v.insert(p, (key.to_owned(), len));
    assert(lengths_s(v@) =~= all.insert(p as int, (key@, len as nat)));
}

fn find_length(v: &Vec<(String, usize)>, key: &str) -> (r: Option<usize>)
    ensures
        match r {
            Some(n) => entry(lengths_s(v@), key@) == Some(n as nat),
            None => entry(lengths_s(v@), key@) is None,
        },
{
    let ghost all = lengths_s(v@);
    let mut i: usize = 0;
    assert(all.skip(0) =~= all);
    while i < v.len()
        invariant
            i <= v@.len(),
            all == lengths_s(v@),
            entry(all, key@) == entry(all.skip(i as int), key@),
        decreases v@.len() - i,
    {
        if same(v[i].0.as_str(), key) {
            return Some(v[i].1);
        }
        assert(all.skip(i as int).drop_first() =~= all.skip(i + 1));
        i = i + 1;
    }
    None
}

fn find_pair(v: &Vec<(String, u32)>, key: &str) -> (r: Option<u32>)
    ensures
        r == entry(pairs_s(v@), key@),
{
    let ghost all = pairs_s(v@);
    let mut i: usize = 0;
    assert(all.skip(0) =~= all);
    while i < v.len()
        invariant
            i <= v@.len(),
            all == pairs_s(v@),
            entry(all, key@) == entry(all.skip(i as int), key@),
        decreases v@.len() - i,
    {
        if same(v[i].0.as_str(), key) {
            return Some(v[i].1);
        }
        assert(all.skip(i as int).drop_first() =~= all.skip(i + 1));
        i = i + 1;
    }
    None
}

impl VariadicLengthIterator {
    /// Starts at the first combination of the lengths that the attribute gives for
    /// the arrays.
    pub fn new(attribute_list: &SingleMetaList, arrays: &Vec<VarCGAParameter>) -> (r: Result<
        VariadicLengthIterator,
        Error,
    >)
        requires
            lengths_fit(attribute_list@, views(arrays@)),
        ensures
            match r {
                Ok(it) => {
                    &&& length_space(attribute_list@, views(arrays@)) == Ok::<LengthsS, ErrorS>(
                        it@.space,
                    )
                    &&& it@.vars == length_vars(views(arrays@))
                    &&& it@.i == 0
                    &&& it@.wf()
                },
                Err(e) => length_space(attribute_list@, views(arrays@)) == Err::<LengthsS, ErrorS>(
                    e@,
                ),
            },
    {
        let ghost attributes = attribute_list@;
        let ghost cgas = views(arrays@);
        let mut i_max: usize = 1;
        let mut variadic_lengths: Vec<(String, usize)> = Vec::new();
        assert(lengths_s(variadic_lengths@) =~= LengthsS::empty().lengths);
        let listed: Vec<String> = match attribute_list.parse_string_arr("variadic_length_vars") {
            Some(v) => v,
            None => Vec::new(),
        };
        assert(texts(listed@) =~= listed_vars(attributes));
        let ghost vars = listed_vars(attributes);
        let ghost declared = add_listed(attributes, vars, LengthsS::empty(), 0);
        let mut i: usize = 0;
        while i < listed.len()
            invariant
                i <= listed@.len(),
                vars == texts(listed@),
                attributes == attribute_list@,
                length_space(attributes, cgas) == (match declared {
                    Err(e) => Err(e),
                    Ok(s) => add_used(attributes, cgas, s, 0),
                }),
                cgas == views(arrays@),
                ({
                    let s = LengthsS {
                        total: i_max as nat,
                        lengths: lengths_s(variadic_lengths@),
                    };
                    &&& declared == add_listed(attributes, vars, s, i as nat)
                    &&& listed_fit(attributes, vars, s, i as nat)
                    &&& s.wf()
                }),
            decreases listed@.len() - i,
        {
            let var = listed[i].as_str();
            let ghost s = LengthsS { total: i_max as nat, lengths: lengths_s(variadic_lengths@) };
            match attribute_list.parse_int(var) {
                None => {
                    let m = cat3("Missing attribute value for '", var, "'");
                    return CallSite.err(m.as_str());
                },
                Some(value) => {
                    let len: usize = (value + 1) as usize;
                    assert(listed_fit(attributes, vars, s.with(var@, len as nat), (i + 1) as nat));
                    i_max = i_max * len;
                    if find_length(&variadic_lengths, var).is_some() {
                        let m = cat3("Duplicate variadic_length_var '", var, "'");
                        return CallSite.err(m.as_str());
                    }
                    insert_ordered(&mut variadic_lengths, var, len);
                    proof {
                        lemma_with(s, var@, len as nat);
                    }
                },
            }
            i = i + 1;
        }
        let ghost space = length_space(attributes, cgas);
        let mut cga_length_vars: Vec<String> = Vec::new();
        let mut i: usize = 0;
        while i < arrays.len()
            invariant
                i <= arrays@.len(),
                cgas == views(arrays@),
                attributes == attribute_list@,
                space == length_space(attributes, cgas),
                cga_length_vars@.len() == i,
                forall|j: int|
                    0 <= j < i ==> (#[trigger] cga_length_vars@[j])@ == cgas[j].length_var,
                forall|j: int|
                    0 <= j < i ==> entry(
                        lengths_s(variadic_lengths@),
                        (#[trigger] cga_length_vars@[j])@,
                    ) is Some,
                ({
                    let s = LengthsS {
                        total: i_max as nat,
                        lengths: lengths_s(variadic_lengths@),
                    };
                    &&& space == add_used(attributes, cgas, s, i as nat)
                    &&& used_fit(attributes, cgas, s, i as nat)
                    &&& s.wf()
                }),
            decreases arrays@.len() - i,
        {
            let var = arrays[i].length_var.as_str();
            let ghost s = LengthsS { total: i_max as nat, lengths: lengths_s(variadic_lengths@) };
            cga_length_vars.push(arrays[i].length_var.clone());
            match attribute_list.parse_int(var) {
                None => {
                    let m = cat3("Missing attribute value for '", var, "'");
                    return CallSite.err(m.as_str());
                },
                Some(value) => {
                    let len: usize = (value + 1) as usize;
                    match find_length(&variadic_lengths, var) {
                        Some(known) => {
                            if known != len {
                                let m = cat3("Variadic length mismatch for '", var, "'");
                                return CallSite.err(m.as_str());
                            }
                        },
                        None => {
                            assert(used_fit(
                                attributes,
                                cgas,
                                s.with(var@, len as nat),
                                (i + 1) as nat,
                            ));
                            i_max = i_max * len;
                            insert_ordered(&mut variadic_lengths, var, len);
                            proof {
                                lemma_with(s, var@, len as nat);
                            }
                        },
                    }
                },
            }
            i = i + 1;
        }
        assert(texts(cga_length_vars@) =~= length_vars(cgas));
        Ok(VariadicLengthIterator { i: 0, i_max, variadic_lengths, cga_length_vars })
    }

    /// The next combination, if there is one.
    pub fn next(&mut self) -> (r: Option<VariadicLengthItem>)
        requires
            old(self)@.wf(),
        ensures
            final(self)@.wf(),
            final(self)@ == old(self)@.after(),
            match r {
                Some(item) => old(self)@.item() == Some(item@),
                None => old(self)@.item() is None,
            },
    {
        if self.i >= self.i_max {
            return None;
        }
        let ghost lengths = lengths_s(self.variadic_lengths@);
        let ghost whole = digits(self.i as nat, lengths);
        proof {
            lemma_product_positive(lengths);
        }
        let mut instance: Vec<(String, u32)> = Vec::new();
        let mut i: usize = self.i;
        let mut k: usize = 0;
        assert(lengths.skip(0) =~= lengths);
        assert(pairs_s(instance@) + whole =~= whole);
        while k < self.variadic_lengths.len()
            invariant
                k <= self.variadic_lengths@.len(),
                lengths == lengths_s(self.variadic_lengths@),
                forall|j: int| 0 <= j < lengths.len() ==> 0 < (#[trigger] lengths[j]).1 <= i32::MAX,
                pairs_s(instance@) + digits(i as nat, lengths.skip(k as int)) == whole,
            decreases self.variadic_lengths@.len() - k,
        {
            let len: usize = self.variadic_lengths[k].1;
            assert(lengths[k as int].1 == len);
            let pos: usize = i % len;
            let ghost done = pairs_s(instance@);
            let ghost tail = digits((i / len) as nat, lengths.skip(k + 1));
            assert(lengths.skip(k as int).drop_first() =~= lengths.skip(k + 1));
            instance.push((self.variadic_lengths[k].0.clone(), pos as u32));
            assert(pairs_s(instance@) =~= done.push((lengths[k as int].0, pos as u32)));
            assert(pairs_s(instance@) + tail =~= done + (seq![(lengths[k as int].0, pos as u32)]
                + tail));
            i = i / len;
            k = k + 1;
        }
        assert(pairs_s(instance@) =~= whole);
        let mut cga_instance: Vec<(String, u32)> = Vec::new();
        let mut k: usize = 0;
        while k < self.cga_length_vars.len()
            invariant
                k <= self.cga_length_vars@.len(),
                pairs_s(instance@) == whole,
                lengths == lengths_s(self.variadic_lengths@),
                whole == digits(self.i as nat, lengths),
                self@ == old(self)@,
                self@.wf(),
                forall|j: int| 0 <= j < lengths.len() ==> 0 < (#[trigger] lengths[j]).1 <= i32::MAX,
                cga_instance@.len() == k,
                forall|j: int|
                    0 <= j < k ==> (#[trigger] cga_instance@[j]).0@ == self.cga_length_vars@[j]@
                        && cga_instance@[j].1 == entry(whole, self.cga_length_vars@[j]@)->Some_0,
            decreases self.cga_length_vars@.len() - k,
        {
            let var = &self.cga_length_vars[k];
            assert(self@.vars[k as int] == var@);
            proof {
                lemma_entry_digits(self.i as nat, lengths, var@);
            }
            match find_pair(&instance, var.as_str()) {
                Some(n) => {
                    cga_instance.push((var.clone(), n));
                },
                None => {},
            }
            k = k + 1;
        }
        assert(pairs_s(cga_instance@) =~= cga_pairs(whole, self@.vars));
        self.i = self.i + 1;
        Some(
            VariadicLengthItem {
                variadic_length_instance: instance,
                cga_length_instance: cga_instance,
            },
        )
    }
}

} // verus!
