//! What is known about const generic arrays while an item is specialised: the
//! value of each length variable and the length of each array.
use super::lengths::{pairs_s, VariadicLengthItem, VariadicLengthItemS};
use crate::ast::{Type, TypeS};
use crate::error::{CallSite, Error, ErrorS, SpannedError};
use crate::items::{views, GenericParam, GenericParamS, Generics};
use crate::print::{expr_text, print_expr, print_type, type_text};
use crate::table::{Duplicate, Names, Table};
use crate::text::{
    cat3, cat4, cat5, clone_strings, decimal, decimal_text, join, join_text, same,
    texts, Text,
};
use vstd::prelude::*;

verus! {

// ---------------------------------------------------------------------------
// Names
// ---------------------------------------------------------------------------

/// The numbers in decimal, with `_` between neighbours.
pub open spec fn rank_suffix_text(n: Seq<u32>) -> Text {
    join_text(Seq::new(n.len(), |i: int| decimal_text(n[i] as nat)), "_"@)
}

/// Rank suffix string from a list of dimension counts:
/// `[2]` → `"2"`, `[2, 3]` → `"2_3"`. Used by [`concrete_name`].
pub fn rank_suffix(n: &[u32]) -> (r: String)
    ensures
        r@ == rank_suffix_text(n@),
{
    let mut parts: Vec<String> = Vec::new();
    let mut i: usize = 0;
    while i < n.len()
        invariant
            i <= n@.len(),
            parts@.len() == i,
            forall|j: int| 0 <= j < i ==> (#[trigger] parts@[j])@ == decimal_text(n@[j] as nat),
        decreases n@.len() - i,
    {
        parts.push(decimal(n[i] as usize));
        i = i + 1;
    }
    assert(texts(parts@) =~= Seq::new(n@.len(), |i: int| decimal_text(n@[i] as nat)));
    join(&parts, "_")
}

pub open spec fn concrete_name_text(name: Text, n: Seq<u32>) -> Text {
    name + "_"@ + rank_suffix_text(n)
}

/// Build a concrete rank-instance type name by appending the rank suffix:
/// `concrete_name("Tile", &[2])` → `"Tile_2"`.
pub fn concrete_name(name: &str, n: &[u32]) -> (r: String)
    ensures
        r@ == concrete_name_text(name@, n@),
{
    let suffix = rank_suffix(n);
    cat3(name, "_", suffix.as_str())
}

/// The name of a type at a single rank.
pub open spec fn ranked_text(name: Text, rank: nat) -> Text {
    name + "_"@ + decimal_text(rank)
}

pub fn ranked(name: &str, rank: u32) -> (r: String)
    ensures
        r@ == ranked_text(name@, rank as nat),
        r@ == concrete_name_text(name@, seq![rank]),
{
    let d = decimal(rank as usize);
    assert(rank_suffix_text(seq![rank]) == d@);
    cat3(name, "_", d.as_str())
}

/// The name of one dimension of an array: `S` at index 2 is `S_2`.
pub open spec fn dim_text(array: Text, index: nat) -> Text {
    array + "_"@ + decimal_text(index)
}

pub fn dim(array: &str, index: u32) -> (r: String)
    ensures
        r@ == dim_text(array@, index as nat),
{
    let d = decimal(index as usize);
    cat3(array, "_", d.as_str())
}

/// The names of all dimensions of an array, in order.
pub open spec fn dim_texts(array: Text, length: nat) -> Seq<Text> {
    Seq::new(length, |i: int| dim_text(array, i as nat))
}

pub fn dims(array: &str, length: u32) -> (r: Vec<String>)
    ensures
        texts(r@) == dim_texts(array@, length as nat),
{
    let mut out: Vec<String> = Vec::new();
    let mut i: u32 = 0;
    while i < length
        invariant
            i <= length,
            out@.len() == i,
            forall|j: int| 0 <= j < i ==> (#[trigger] out@[j])@ == dim_text(array@, j as nat),
        decreases length - i,
    {
        out.push(dim(array, i));
        i = i + 1;
    }
    assert(texts(out@) =~= dim_texts(array@, length as nat));
    out
}

// ---------------------------------------------------------------------------
// Parameters
// ---------------------------------------------------------------------------

/// A const generic array whose length is a variable: `const S: [i32; N]`.
#[derive(Debug)]
pub struct VarCGAParameter {
    pub name: String,
    pub length_var: String,
    pub element_type: String,
}

/// A const generic array of known length: `const S: [i32; 2]`.
#[derive(Debug)]
pub struct CGAParameter {
    pub name: String,
    pub element_type: String,
    pub length: u32,
}

pub struct VarCgaS {
    pub name: Text,
    pub length_var: Text,
    pub element_type: Text,
}

pub struct CgaS {
    pub name: Text,
    pub element_type: Text,
    pub length: nat,
}

impl View for VarCGAParameter {
    type V = VarCgaS;

    open spec fn view(&self) -> VarCgaS {
        VarCgaS {
            name: self.name@,
            length_var: self.length_var@,
            element_type: self.element_type@,
        }
    }
}

impl View for CGAParameter {
    type V = CgaS;

    open spec fn view(&self) -> CgaS {
        CgaS { name: self.name@, element_type: self.element_type@, length: self.length as nat }
    }
}

impl Duplicate for VarCGAParameter {
    fn duplicate(&self) -> (r: VarCGAParameter) {
        VarCGAParameter {
            name: self.name.clone(),
            length_var: self.length_var.clone(),
            element_type: self.element_type.clone(),
        }
    }
}

impl Duplicate for CGAParameter {
    fn duplicate(&self) -> (r: CGAParameter) {
        CGAParameter {
            name: self.name.clone(),
            element_type: self.element_type.clone(),
            length: self.length,
        }
    }
}

impl VarCgaS {
    pub open spec fn instance(self, n: nat) -> CgaS {
        CgaS { name: self.name, element_type: self.element_type, length: n }
    }
}

impl VarCGAParameter {
    /// The array with its length fixed.
    pub fn instance(&self, n: u32) -> (r: CGAParameter)
        ensures
            r@ == self@.instance(n as nat),
    {
        CGAParameter {
            name: self.name.clone(),
            element_type: self.element_type.clone(),
            length: n,
        }
    }
}

/// The arrays of variable length among the first `k` parameters, in order.
pub open spec fn var_cgas(params: Seq<GenericParamS>, k: nat) -> Seq<VarCgaS>
    decreases k,
{
    if k == 0 {
        seq![]
    } else {
        let rest = var_cgas(params, (k - 1) as nat);
        match params[k - 1] {
            GenericParamS::Const { ident, ty, rest: _ } => match ty {
                TypeS::Array { elem, len } => rest.push(
                    VarCgaS {
                        name: ident,
                        length_var: expr_text(*len),
                        element_type: type_text(*elem),
                    },
                ),
                _ => rest,
            },
            _ => rest,
        }
    }
}

/// Extracts variable const generic array parameters from a `Generics` clause.
pub fn cgas_from_generics(generics: &Generics) -> (r: Vec<VarCGAParameter>)
    ensures
        views(r@) == var_cgas(generics@.params, generics@.params.len()),
{
    let mut out: Vec<VarCGAParameter> = Vec::new();
    let mut i: usize = 0;
    while i < generics.params.len()
        invariant
            i <= generics.params@.len(),
            views(out@) =~= var_cgas(generics@.params, i as nat),
        decreases generics.params@.len() - i,
    {
        match &generics.params[i] {
            GenericParam::Const { ident, ty, rest: _ } => match ty {
                Type::Array { elem, len } => {
                    out.push(
                        VarCGAParameter {
                            name: ident.clone(),
                            length_var: print_expr(len),
                            element_type: print_type(elem),
                        },
                    );
                },
                _ => {},
            },
            _ => {},
        }
        i = i + 1;
    }
    out
}

// ---------------------------------------------------------------------------
// Attributes
// ---------------------------------------------------------------------------

/// The `key = value` pairs of an attribute such as
/// `#[cuda_tile::variadic_struct(N = 4, constructor = "new")]`.
#[derive(Debug)]
pub struct SingleMetaList {
    ints: Table<i32>,
    strings: Table<String>,
    lists: Table<Names>,
}

pub struct MetaS {
    pub ints: Map<Text, i32>,
    pub strings: Map<Text, Text>,
    pub lists: Map<Text, Seq<Text>>,
}

impl View for SingleMetaList {
    type V = MetaS;

    closed spec fn view(&self) -> MetaS {
        MetaS { ints: self.ints@, strings: self.strings@, lists: self.lists@ }
    }
}

impl SingleMetaList {
    pub fn new() -> (r: SingleMetaList)
        ensures
            r@ == (MetaS { ints: Map::empty(), strings: Map::empty(), lists: Map::empty() }),
    {
        SingleMetaList { ints: Table::new(), strings: Table::new(), lists: Table::new() }
    }

    /// Sets `key` to a number.
    pub fn set_int(&mut self, key: &str, value: i32)
        ensures
            final(self)@ == (MetaS { ints: old(self)@.ints.insert(key@, value), ..old(self)@ }),
    {
        self.ints.insert(key.to_owned(), value);
    }

    /// Sets `key` to a string.
    pub fn set_string(&mut self, key: &str, value: &str)
        ensures
            final(self)@ == (MetaS {
                strings: old(self)@.strings.insert(key@, value@),
                ..old(self)@
            }),
    {
        self.strings.insert(key.to_owned(), value.to_owned());
    }

    /// Sets `key` to a list of strings.
    pub fn set_string_arr(&mut self, key: &str, value: Vec<String>)
        ensures
            final(self)@ == (MetaS {
                lists: old(self)@.lists.insert(key@, texts(value@)),
                ..old(self)@
            }),
    {
        self.lists.insert(key.to_owned(), Names(value));
    }

    pub fn parse_int(&self, key: &str) -> (r: Option<i32>)
        ensures
            match r {
                Some(v) => self@.ints.contains_key(key@) && self@.ints[key@] == v,
                None => !self@.ints.contains_key(key@),
            },
    {
        match self.ints.get(key) {
            Some(v) => Some(*v),
            None => None,
        }
    }

    pub fn parse_string(&self, key: &str) -> (r: Option<&String>)
        ensures
            match r {
                Some(v) => self@.strings.contains_key(key@) && self@.strings[key@] == v@,
                None => !self@.strings.contains_key(key@),
            },
    {
        self.strings.get(key)
    }

    pub fn parse_string_arr(&self, key: &str) -> (r: Option<Vec<String>>)
        ensures
            match r {
                Some(v) => self@.lists.contains_key(key@) && self@.lists[key@] == texts(v@),
                None => !self@.lists.contains_key(key@),
            },
    {
        match self.lists.get(key) {
            Some(v) => Some(clone_strings(&v.0)),
            None => None,
        }
    }
}

// ---------------------------------------------------------------------------
// Bindings
// ---------------------------------------------------------------------------

/// Tracks const generic array instantiations during macro expansion.
///
/// - `inst_u32`: length variable names (e.g. `"N"`) and their values (e.g. `2`)
/// - `var_arrays`: array names and their parameters of variable length
/// - `inst_array`: array names and their instantiated parameters
#[derive(Debug)]
pub struct RankBindings {
    inst_u32: Table<u32>,
    var_arrays: Table<VarCGAParameter>,
    inst_array: Table<CGAParameter>,
}

pub struct RankBindingsS {
    pub inst_u32: Map<Text, u32>,
    pub var_arrays: Map<Text, VarCgaS>,
    pub inst_array: Map<Text, CgaS>,
}

impl View for RankBindings {
    type V = RankBindingsS;

    closed spec fn view(&self) -> RankBindingsS {
        RankBindingsS {
            inst_u32: self.inst_u32@,
            var_arrays: self.var_arrays@,
            inst_array: self.inst_array@,
        }
    }
}

pub open spec fn call_error(message: Text) -> ErrorS {
    ErrorS { at: ""@, message }
}

impl RankBindingsS {
    pub open spec fn empty() -> RankBindingsS {
        RankBindingsS {
            inst_u32: Map::empty(),
            var_arrays: Map::empty(),
            inst_array: Map::empty(),
        }
    }

    /// With the array `cga` bound to length `n`.
    pub open spec fn with_array(self, cga: VarCgaS, n: nat) -> RankBindingsS {
        RankBindingsS {
            inst_u32: self.inst_u32,
            var_arrays: self.var_arrays.insert(cga.name, cga),
            inst_array: self.inst_array.insert(cga.name, cga.instance(n)),
        }
    }

    /// With the length variable `var` bound to `n`.
    pub open spec fn with_length(self, var: Text, n: u32) -> RankBindingsS {
        RankBindingsS { inst_u32: self.inst_u32.insert(var, n), ..self }
    }

    /// With every array of known length from index `i` on.
    pub open spec fn with_known(self, cgas: Seq<CgaS>, i: nat) -> RankBindingsS
        decreases cgas.len() - i,
    {
        if i >= cgas.len() {
            self
        } else {
            let cga = cgas[i as int];
            RankBindingsS {
                inst_array: self.inst_array.insert(cga.name, cga),
                ..self
            }.with_known(cgas, i + 1)
        }
    }

    /// With every length variable from index `i` on.
    pub open spec fn with_lengths(self, lengths: Seq<(Text, u32)>, i: nat) -> RankBindingsS
        decreases lengths.len() - i,
    {
        if i >= lengths.len() {
            self
        } else {
            let (var, n) = lengths[i as int];
            self.with_length(var, n).with_lengths(lengths, i + 1)
        }
    }

    /// With the arrays from index `i` on bound to the lengths that stand beside them.
    pub open spec fn with_cga_lengths(
        self,
        cgas: Seq<VarCgaS>,
        lengths: Seq<(Text, u32)>,
        i: nat,
    ) -> Result<RankBindingsS, ErrorS>
        decreases cgas.len() - i,
    {
        if i >= cgas.len() || i >= lengths.len() {
            Ok(self)
        } else {
            let cga = cgas[i as int];
            let (var, n) = lengths[i as int];
            if var != cga.length_var {
                Err(call_error(name_mismatch_text(cga.length_var, var)))
            } else if self.inst_u32.contains_key(var) && self.inst_u32[var] != n {
                Err(call_error(length_mismatch_text(var, self.inst_u32[var] as nat, n as nat)))
            } else {
                self.with_length(var, n).with_array(cga, n as nat).with_cga_lengths(
                    cgas,
                    lengths,
                    i + 1,
                )
            }
        }
    }

    /// The bindings for one combination of lengths.
    pub open spec fn from_variadic(item: VariadicLengthItemS, cgas: Seq<VarCgaS>) -> Result<
        RankBindingsS,
        ErrorS,
    > {
        RankBindingsS::empty().with_lengths(item.unique, 0).with_cga_lengths(cgas, item.cgas, 0)
    }

    /// The bindings for an item whose arrays all have a known length.
    pub open spec fn from_generics(cgas: Seq<CgaS>) -> RankBindingsS {
        RankBindingsS::empty().with_known(cgas, 0)
    }

    /// With the arrays of a method from index `i` on; their length variables must be
    /// bound.
    pub open spec fn with_var_cgas(self, cgas: Seq<VarCgaS>, i: nat) -> Result<
        RankBindingsS,
        ErrorS,
    >
        decreases cgas.len() - i,
    {
        if i >= cgas.len() {
            Ok(self)
        } else {
            let cga = cgas[i as int];
            if self.inst_u32.contains_key(cga.length_var) {
                self.with_array(cga, self.inst_u32[cga.length_var] as nat).with_var_cgas(
                    cgas,
                    i + 1,
                )
            } else {
                Err(call_error(missing_length_text(cga.length_var)))
            }
        }
    }

    /// With the arrays from index `i` on, each of which brings a length variable of
    /// its own.
    pub open spec fn with_new_var_cgas(self, n_list: Seq<u32>, cgas: Seq<VarCgaS>, i: nat) -> Result<
        RankBindingsS,
        ErrorS,
    >
        decreases n_list.len() - i,
    {
        if i >= n_list.len() {
            Ok(self)
        } else {
            let cga = cgas[i as int];
            let n = n_list[i as int];
            if self.inst_u32.contains_key(cga.length_var) {
                Err(call_error(taken_length_text(cga.length_var)))
            } else {
                self.with_length(cga.length_var, n).with_array(cga, n as nat).with_new_var_cgas(
                    n_list,
                    cgas,
                    i + 1,
                )
            }
        }
    }
}

pub open spec fn name_mismatch_text(expected: Text, got: Text) -> Text {
    "CGA length var name mismatch: expected '"@ + expected + "', got '"@ + got + "'"@
}

pub open spec fn length_mismatch_text(var: Text, expected: nat, got: nat) -> Text {
    "CGA length instance mismatch for '"@ + var + "': expected "@ + decimal_text(expected)
        + ", got "@ + decimal_text(got)
}

pub open spec fn missing_length_text(var: Text) -> Text {
    "instantiate_var_cgas: Missing inst_u32 entry for '"@ + var + "'"@
}

pub open spec fn taken_length_text(var: Text) -> Text {
    "instantiate_new_var_cgas: inst_u32 already contains entry for '"@ + var + "'"@
}

impl RankBindings {
    pub fn new() -> (r: RankBindings)
        ensures
            r@ == RankBindingsS::empty(),
    {
        RankBindings { inst_u32: Table::new(), var_arrays: Table::new(), inst_array: Table::new() }
    }

    pub fn copy(&self) -> (r: RankBindings)
        ensures
            r@ == self@,
    {
        RankBindings {
            inst_u32: self.inst_u32.copy(),
            var_arrays: self.var_arrays.copy(),
            inst_array: self.inst_array.copy(),
        }
    }

    /// The value of a length variable.
    pub fn length(&self, var: &str) -> (r: Option<u32>)
        ensures
            match r {
                Some(n) => self@.inst_u32.contains_key(var@) && self@.inst_u32[var@] == n,
                None => !self@.inst_u32.contains_key(var@),
            },
    {
        match self.inst_u32.get(var) {
            Some(n) => Some(*n),
            None => None,
        }
    }

    /// The array of a given name.
    pub fn array(&self, name: &str) -> (r: Option<&CGAParameter>)
        ensures
            match r {
                Some(c) => self@.inst_array.contains_key(name@) && self@.inst_array[name@] == c@,
                None => !self@.inst_array.contains_key(name@),
            },
    {
        self.inst_array.get(name)
    }

    fn bind_array(&mut self, cga: &VarCGAParameter, n: u32)
        ensures
            final(self)@ == old(self)@.with_array(cga@, n as nat),
    {
        self.inst_array.insert(cga.name.clone(), cga.instance(n));
        self.var_arrays.insert(cga.name.clone(), cga.duplicate());
    }

    fn bind_length(&mut self, var: &str, n: u32)
        ensures
            final(self)@ == old(self)@.with_length(var@, n),
    {
        self.inst_u32.insert(var.to_owned(), n);
    }

    /// The bindings for one combination of lengths.
    pub fn from_variadic(cga_lengths: &VariadicLengthItem, var_cgas: &Vec<VarCGAParameter>) -> (r:
        Result<RankBindings, Error>)
        ensures
            match r {
                Ok(b) => RankBindingsS::from_variadic(cga_lengths@, views(var_cgas@)) == Ok::<
                    RankBindingsS,
                    ErrorS,
                >(b@),
                Err(e) => RankBindingsS::from_variadic(cga_lengths@, views(var_cgas@)) == Err::<
                    RankBindingsS,
                    ErrorS,
                >(e@),
            },
    {
        let mut b = RankBindings::new();
        let unique = cga_lengths.unique_lengths();
        let ghost pairs = cga_lengths@.unique;
        let ghost bound = b@.with_lengths(pairs, 0);
        let mut i: usize = 0;
        while i < unique.len()
            invariant
                i <= unique@.len(),
                pairs == pairs_s(unique@),
                bound == b@.with_lengths(pairs, i as nat),
            decreases unique@.len() - i,
        {
            b.bind_length(unique[i].0.as_str(), unique[i].1);
            i = i + 1;
        }
        let ghost cgas = views(var_cgas@);
        let ghost pairs = cga_lengths@.cgas;
        let ghost whole = b@.with_cga_lengths(cgas, pairs, 0);
        let lengths = cga_lengths.cga_lengths();
        let mut i: usize = 0;
        while i < var_cgas.len() && i < lengths.len()
            invariant
                i <= var_cgas@.len(),
                i <= lengths@.len(),
                cgas == views(var_cgas@),
                pairs == pairs_s(lengths@),
                whole == b@.with_cga_lengths(cgas, pairs, i as nat),
                whole == RankBindingsS::from_variadic(cga_lengths@, cgas),
            decreases var_cgas@.len() - i,
        {
            let cga = &var_cgas[i];
            let var = &lengths[i].0;
            let n: u32 = lengths[i].1;
            if !same(var.as_str(), cga.length_var.as_str()) {
                let m = cat5(
                    "CGA length var name mismatch: expected '",
                    cga.length_var.as_str(),
                    "', got '",
                    var.as_str(),
                    "'",
                );
                return CallSite.err(m.as_str());
            }
            if let Some(existing) = b.length(var.as_str()) {
                if existing != n {
                    let expected = decimal(existing as usize);
                    let got = decimal(n as usize);
                    let m = cat3("CGA length instance mismatch for '", var.as_str(), "': expected ");
                    let m = cat4(m.as_str(), expected.as_str(), ", got ", got.as_str());
                    return CallSite.err(m.as_str());
                }
            }
            b.bind_length(var.as_str(), n);
            b.bind_array(cga, n);
            i = i + 1;
        }
        Ok(b)
    }

    /// The bindings for an item whose arrays all have a known length.
    pub fn from_generics(cgas: &Vec<CGAParameter>) -> (r: RankBindings)
        ensures
            r@ == RankBindingsS::from_generics(views(cgas@)),
    {
        let mut b = RankBindings::new();
        let mut i: usize = 0;
        while i < cgas.len()
            invariant
                i <= cgas@.len(),
                b@.with_known(views(cgas@), i as nat) == RankBindingsS::from_generics(
                    views(cgas@),
                ),
            decreases cgas@.len() - i,
        {
            b.inst_array.insert(cgas[i].name.clone(), cgas[i].duplicate());
            i = i + 1;
        }
        b
    }

    /// Adds the arrays of a method. Their length variables must be bound already.
    pub fn instantiate_var_cgas(&self, var_cgas: &Vec<VarCGAParameter>) -> (r: Result<
        RankBindings,
        Error,
    >)
        ensures
            match r {
                Ok(b) => self@.with_var_cgas(views(var_cgas@), 0) == Ok::<RankBindingsS, ErrorS>(
                    b@,
                ),
                Err(e) => self@.with_var_cgas(views(var_cgas@), 0) == Err::<RankBindingsS, ErrorS>(
                    e@,
                ),
            },
    {
        let mut b = self.copy();
        let mut i: usize = 0;
        while i < var_cgas.len()
            invariant
                i <= var_cgas@.len(),
                b@.with_var_cgas(views(var_cgas@), i as nat) == self@.with_var_cgas(
                    views(var_cgas@),
                    0,
                ),
            decreases var_cgas@.len() - i,
        {
            let cga = &var_cgas[i];
            match b.length(cga.length_var.as_str()) {
                None => {
                    let m = cat3(
                        "instantiate_var_cgas: Missing inst_u32 entry for '",
                        cga.length_var.as_str(),
                        "'",
                    );
                    return CallSite.err(m.as_str());
                },
                Some(n) => {
                    b.bind_array(cga, n);
                },
            }
            i = i + 1;
        }
        Ok(b)
    }

    /// Adds arrays together with their length variables, which must be new. There is
    /// an array for every length in the list.
    pub fn instantiate_new_var_cgas(&self, n_list: &Vec<u32>, var_cgas: &Vec<VarCGAParameter>) -> (r:
        Result<RankBindings, Error>)
        requires
            n_list@.len() <= var_cgas@.len(),
        ensures
            match r {
                Ok(b) => self@.with_new_var_cgas(n_list@, views(var_cgas@), 0) == Ok::<
                    RankBindingsS,
                    ErrorS,
                >(b@),
                Err(e) => self@.with_new_var_cgas(n_list@, views(var_cgas@), 0) == Err::<
                    RankBindingsS,
                    ErrorS,
                >(e@),
            },
    {
        let mut b = self.copy();
        let mut i: usize = 0;
        while i < n_list.len()
            invariant
                i <= n_list@.len() <= var_cgas@.len(),
                b@.with_new_var_cgas(n_list@, views(var_cgas@), i as nat)
                    == self@.with_new_var_cgas(n_list@, views(var_cgas@), 0),
            decreases n_list@.len() - i,
        {
            let cga = &var_cgas[i];
            if b.length(cga.length_var.as_str()).is_some() {
                let m = cat3(
                    "instantiate_new_var_cgas: inst_u32 already contains entry for '",
                    cga.length_var.as_str(),
                    "'",
                );
                return CallSite.err(m.as_str());
            }
            b.bind_length(cga.length_var.as_str(), n_list[i]);
            b.bind_array(cga, n_list[i]);
            i = i + 1;
        }
        Ok(b)
    }
}

} // verus!
