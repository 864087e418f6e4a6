//! The const generic arrays of an operation and the combinations of ranks that it is
//! emitted for.
use crate::ast::{Expr, ExprS, Type, TypeS};
use crate::error::{error_at, Error, ErrorS, SpannedError};
use crate::items::{views, GenericParam, GenericParamS, Generics};
use crate::lists::{collect, concat, lemma_collect_step};
use crate::print::{get_ident, path_ident, type_text};
use crate::table::{Names, Table};
use crate::text::{cat3, decimal, decimal_text, same, texts, Text};
use vstd::arithmetic::power::pow;
use vstd::prelude::*;

verus! {

/// Maximum rank the emitter produces rank-instance impls for. Must match the range of
/// `Tile_N` variants produced by `#[cuda_tile::variadic_struct]`.
pub const MAX_RANK: usize = 6;

// ---------------------------------------------------------------------------
// Arrays
// ---------------------------------------------------------------------------

/// One CGA generic: `const <cga_ident>: [i32; <length_ident>]`.
#[derive(Debug)]
pub struct CgaInfo {
    pub cga_ident: String,
    pub length_ident: String,
}

pub struct CgaInfoS {
    pub cga_ident: Text,
    pub length_ident: Text,
}

impl View for CgaInfo {
    type V = CgaInfoS;

    open spec fn view(&self) -> CgaInfoS {
        CgaInfoS { cga_ident: self.cga_ident@, length_ident: self.length_ident@ }
    }
}

impl CgaInfo {
    pub fn copy(&self) -> (r: CgaInfo)
        ensures
            r@ == self@,
    {
        CgaInfo { cga_ident: self.cga_ident.clone(), length_ident: self.length_ident.clone() }
    }
}

pub fn copy_cgas(v: &Vec<CgaInfo>) -> (r: Vec<CgaInfo>)
    ensures
        views(r@) == views(v@),
{
    let mut out: Vec<CgaInfo> = Vec::new();
    let mut i: usize = 0;
    while i < v.len()
        invariant
            i <= v@.len(),
            out@.len() == i,
            forall|j: int| 0 <= j < i ==> (#[trigger] out@[j])@ == v@[j]@,
        decreases v@.len() - i,
    {
        out.push(v[i].copy());
        i = i + 1;
    }
    assert(views(out@) =~= views(v@));
    out
}

/// The element type of an array is `i32`.
pub open spec fn is_i32(t: TypeS) -> bool {
    t matches TypeS::Path(p) && path_ident(p) == Some("i32"@)
}

/// The array that a generic parameter declares, if any: it holds `i32` and its length is
/// a name. A length that is any other path is an error.
pub open spec fn param_cga(p: GenericParamS) -> Result<Seq<CgaInfoS>, ErrorS> {
    match p {
        GenericParamS::Const { ident, ty, rest: _ } => match ty {
            TypeS::Array { elem, len } => if !is_i32(*elem) {
                Ok(seq![])
            } else {
                match *len {
                    ExprS::Path(l) => match path_ident(l) {
                        Some(length_ident) => Ok(seq![CgaInfoS { cga_ident: ident, length_ident }]),
                        None => Err(
                            error_at(type_text(ty), "CGA length must be a simple ident"@),
                        ),
                    },
                    _ => Ok(seq![]),
                }
            },
            _ => Ok(seq![]),
        },
        _ => Ok(seq![]),
    }
}

pub open spec fn params_cgas(params: Seq<GenericParamS>) -> Seq<Result<Seq<CgaInfoS>, ErrorS>> {
    Seq::new(params.len(), |i: int| param_cga(params[i]))
}

/// All arrays that a list of parameters declares, in order.
pub open spec fn declared_cgas(params: Seq<GenericParamS>) -> Result<Seq<CgaInfoS>, ErrorS> {
    match collect(params_cgas(params)) {
        Err(e) => Err(e),
        Ok(lists) => Ok(concat(lists)),
    }
}

fn holds_i32(t: &Type) -> (r: bool)
    ensures
        r == is_i32(t@),
{
    match t {
        Type::Path(p) => match get_ident(p) {
            Some(name) => same(name.as_str(), "i32"),
            None => false,
        },
        _ => false,
    }
}

/// Where a type is the type of an array parameter, the name of its length.
fn array_length(ty: &Type) -> (r: Result<Option<String>, Error>)
    ensures
        forall|ident: Text, rest: Text|
            match r {
                Ok(Some(l)) => #[trigger] param_cga(
                    GenericParamS::Const { ident, ty: ty@, rest },
                ) == Ok::<Seq<CgaInfoS>, ErrorS>(
                    seq![CgaInfoS { cga_ident: ident, length_ident: l@ }],
                ),
                Ok(None) => param_cga(GenericParamS::Const { ident, ty: ty@, rest }) == Ok::<
                    Seq<CgaInfoS>,
                    ErrorS,
                >(seq![]),
                Err(e) => param_cga(GenericParamS::Const { ident, ty: ty@, rest }) == Err::<
                    Seq<CgaInfoS>,
                    ErrorS,
                >(e@),
            },
{
    match ty {
        Type::Array { elem, len } => {
            if !holds_i32(elem) {
                return Ok(None);
            }
            path_length(ty, len)
        },
        _ => Ok(None),
    }
}

fn path_length(ty: &Type, len: &Expr) -> (r: Result<Option<String>, Error>)
    ensures
        match (len@, r) {
            (ExprS::Path(p), Ok(Some(l))) => path_ident(p) == Some(l@),
            (ExprS::Path(p), Err(e)) => path_ident(p) is None && e@ == error_at(
                type_text(ty@),
                "CGA length must be a simple ident"@,
            ),
            (ExprS::Path(_), Ok(None)) => false,
            (_, x) => x matches Ok(None),
        },
{
    match len {
        Expr::Path(p) => match get_ident(p) {
            Some(name) => Ok(Some(name.clone())),
            None => ty.err("CGA length must be a simple ident"),
        },
        _ => Ok(None),
    }
}

/// The arrays that a `Generics` clause declares.
pub fn find_cgas(generics: &Generics) -> (r: Result<Vec<CgaInfo>, Error>)
    ensures
        match r {
            Ok(v) => declared_cgas(generics@.params) == Ok::<Seq<CgaInfoS>, ErrorS>(views(v@)),
            Err(e) => declared_cgas(generics@.params) == Err::<Seq<CgaInfoS>, ErrorS>(e@),
        },
{
    let ghost params = generics@.params;
    let ghost results = params_cgas(params);
    let ghost mut lists: Seq<Seq<CgaInfoS>> = seq![];
    let mut out: Vec<CgaInfo> = Vec::new();
    let mut i: usize = 0;
    assert(results.take(0) =~= seq![]);
    assert(views(out@) =~= concat(lists));
    while i < generics.params.len()
        invariant
            i <= generics.params@.len(),
            params == views(generics.params@),
            results == params_cgas(params),
            collect(results.take(i as int)) == Ok::<Seq<Seq<CgaInfoS>>, ErrorS>(lists),
            views(out@) == concat(lists),
        decreases generics.params@.len() - i,
    {
        proof {
            lemma_collect_step(results, i as int);
            assert(results[i as int] == param_cga(generics.params@[i as int]@));
        }
        let ghost prev = out@;
        let ghost mut more: Seq<CgaInfoS> = seq![];
        match &generics.params[i] {
            GenericParam::Const { ident, ty, rest: _ } => match array_length(ty) {
                Ok(Some(length_ident)) => {
                    let cga = CgaInfo { cga_ident: ident.clone(), length_ident };
                    proof {
                        more = seq![cga@];
                    }
                    out.push(cga);
                },
                Ok(None) => {},
                Err(e) => {
                    return Err(e);
                },
            },
            _ => {},
        }
        proof {
            assert(views(out@) =~= views(prev) + more);
            let next = lists.push(more);
            assert(next.drop_last() =~= lists);
            lists = next;
        }
        i = i + 1;
    }
    assert(results.take(i as int) =~= results);
    Ok(out)
}

// ---------------------------------------------------------------------------
// Groups
// ---------------------------------------------------------------------------

/// The arrays that share a length.
#[derive(Debug)]
pub struct LengthGroup {
    pub length_ident: String,
    pub cgas: Vec<String>,
}

pub struct LengthGroupS {
    pub length_ident: Text,
    pub cgas: Seq<Text>,
}

impl View for LengthGroup {
    type V = LengthGroupS;

    open spec fn view(&self) -> LengthGroupS {
        LengthGroupS { length_ident: self.length_ident@, cgas: texts(self.cgas@) }
    }
}

/// The first group from index `i` on with the given length; the number of groups if
/// there is none.
pub open spec fn group_index(groups: Seq<LengthGroupS>, length: Text, i: nat) -> nat
    decreases groups.len() - i,
{
    if i >= groups.len() || groups[i as int].length_ident == length {
        i
    } else {
        group_index(groups, length, i + 1)
    }
}

/// With one more array: it joins the group of its length, or opens a new one at the end.
pub open spec fn with_cga(groups: Seq<LengthGroupS>, cga: CgaInfoS) -> Seq<LengthGroupS> {
    let g = group_index(groups, cga.length_ident, 0);
    if g < groups.len() {
        groups.update(
            g as int,
            LengthGroupS {
                length_ident: groups[g as int].length_ident,
                cgas: groups[g as int].cgas.push(cga.cga_ident),
            },
        )
    } else {
        groups.push(LengthGroupS { length_ident: cga.length_ident, cgas: seq![cga.cga_ident] })
    }
}

/// The first `k` arrays by length.
pub open spec fn grouped(cgas: Seq<CgaInfoS>, k: nat) -> Seq<LengthGroupS>
    decreases k,
{
    if k == 0 {
        seq![]
    } else {
        with_cga(grouped(cgas, (k - 1) as nat), cgas[k - 1])
    }
}

pub open spec fn groups_of(cgas: Seq<CgaInfoS>) -> Seq<LengthGroupS> {
    grouped(cgas, cgas.len())
}

fn find_group(groups: &Vec<LengthGroup>, length: &str) -> (r: usize)
    ensures
        r == group_index(views(groups@), length@, 0),
        r <= groups@.len(),
{
    let mut i: usize = 0;
    while i < groups.len() && !same(groups[i].length_ident.as_str(), length)
        invariant
            i <= groups@.len(),
            group_index(views(groups@), length@, 0) == group_index(
                views(groups@),
                length@,
                i as nat,
            ),
        decreases groups@.len() - i,
    {
        i = i + 1;
    }
    i
}

/// Groups arrays by length. Order preserves first appearance.
pub fn group_cgas_by_length(cgas: &Vec<CgaInfo>) -> (r: Vec<LengthGroup>)
    ensures
        views(r@) == groups_of(views(cgas@)),
{
    let mut groups: Vec<LengthGroup> = Vec::new();
    let mut i: usize = 0;
    assert(views(groups@) =~= seq![]);
    while i < cgas.len()
        invariant
            i <= cgas@.len(),
            views(groups@) == grouped(views(cgas@), i as nat),
        decreases cgas@.len() - i,
    {
        let cga = &cgas[i];
        let g: usize = find_group(&groups, cga.length_ident.as_str());
        let ghost prev = groups@;
        if g < groups.len() {
            let mut names = crate::text::clone_strings(&groups[g].cgas);
            let ghost before = names@;
            names.push(cga.cga_ident.clone());
            proof {
                crate::text::lemma_texts_push(before, names@.last());
            }
            let length_ident = groups[g].length_ident.clone();
            groups.set(g, LengthGroup { length_ident, cgas: names });
        } else {
            let mut names: Vec<String> = Vec::new();
            names.push(cga.cga_ident.clone());
            assert(texts(names@) =~= seq![cga.cga_ident@]);
            groups.push(LengthGroup { length_ident: cga.length_ident.clone(), cgas: names });
        }
        assert(views(groups@) =~= with_cga(views(prev), cga@));
        i = i + 1;
    }
    groups
}

// ---------------------------------------------------------------------------
// Combinations of ranks
// ---------------------------------------------------------------------------

/// The digits of a number in a base, lowest first.
pub open spec fn base_digits(code: nat, base: nat, n: nat) -> Seq<nat>
    decreases n,
{
    if n == 0 {
        seq![]
    } else {
        seq![code % base] + base_digits(code / base, base, (n - 1) as nat)
    }
}

/// One concrete (rank_of_group0, rank_of_group1, ...) combination.
#[derive(Debug)]
pub struct RankCombo {
    ranks_per_group: Vec<usize>,
    cga_to_group: Table<usize>,
    cgas: Vec<CgaInfo>,
}

/// A rank for each group, the group of each array, and the arrays in declaration order.
pub struct RankComboS {
    pub ranks: Seq<nat>,
    pub to_group: Map<Text, usize>,
    pub cgas: Seq<CgaInfoS>,
}

pub open spec fn nats(v: Seq<usize>) -> Seq<nat> {
    Seq::new(v.len(), |i: int| v[i] as nat)
}

impl View for RankCombo {
    type V = RankComboS;

    closed spec fn view(&self) -> RankComboS {
        RankComboS {
            ranks: nats(self.ranks_per_group@),
            to_group: self.cga_to_group@,
            cgas: views(self.cgas@),
        }
    }
}

/// The first array from index `i` on with the given length.
pub open spec fn cga_of_length(cgas: Seq<CgaInfoS>, length: Text, i: nat) -> Option<CgaInfoS>
    decreases cgas.len() - i,
{
    if i >= cgas.len() {
        None
    } else if cgas[i as int].length_ident == length {
        Some(cgas[i as int])
    } else {
        cga_of_length(cgas, length, i + 1)
    }
}

/// The name of one dimension: `S` at index 2 is `S_2`. The `r#` of a raw name is left out.
pub open spec fn suffixed(name: Text, n: nat) -> Text {
    bare(name) + "_"@ + decimal_text(n)
}

/// A name without `r#`.
pub open spec fn bare(name: Text) -> Text {
    if name.len() >= 2 && name[0] == 'r' && name[1] == '#' {
        name.subrange(2, name.len() as int)
    } else {
        name
    }
}

pub fn strip_raw(name: &str) -> (r: String)
    ensures
        r@ == bare(name@),
{
    let n: usize = name.unicode_len();
    if n >= 2 && name.get_char(0) == 'r' && name.get_char(1) == '#' {
        name.substring_char(2, n).to_owned()
    } else {
        name.to_owned()
    }
}

pub fn suffix(name: &str, n: usize) -> (r: String)
    ensures
        r@ == suffixed(name@, n as nat),
{
    let b = strip_raw(name);
    let d = decimal(n);
    cat3(b.as_str(), "_", d.as_str())
}

impl RankComboS {
    /// Every array has a group with a rank.
    pub open spec fn wf(self) -> bool {
        &&& forall|name: Text|
            #[trigger] self.to_group.contains_key(name) ==> self.to_group[name] < self.ranks.len()
        &&& self.cgas.len() > 0 ==> self.ranks.len() > 0
        &&& forall|i: int| 0 <= i < self.ranks.len() ==> (#[trigger] self.ranks[i]) <= usize::MAX
    }

    /// No arrays at all.
    pub open spec fn none() -> RankComboS {
        RankComboS { ranks: seq![], to_group: Map::empty(), cgas: seq![] }
    }

    /// Rank for a given CGA ident.
    pub open spec fn rank_of(self, cga: Text) -> nat {
        self.ranks[if self.to_group.contains_key(cga) { self.to_group[cga] as int } else { 0 }]
    }

    /// Rank for a given CGA-length ident (e.g., `N` → rank of any CGA using N).
    pub open spec fn rank_of_length(self, length: Text) -> Option<nat> {
        match cga_of_length(self.cgas, length, 0) {
            Some(cga) => Some(self.rank_of(cga.cga_ident)),
            None => None,
        }
    }

    /// Dim names for a given CGA. For CGA `S` at rank 2, returns `[S_0, S_1]`.
    pub open spec fn dim_names(self, cga: Text) -> Seq<Text> {
        Seq::new(self.rank_of(cga), |i: int| suffixed(cga, i as nat))
    }

    /// The dimensions of the first `k` arrays, under their names.
    pub open spec fn dim_table(self, k: nat) -> Map<Text, Seq<Text>>
        decreases k,
    {
        if k == 0 {
            Map::empty()
        } else {
            let name = self.cgas[k - 1].cga_ident;
            self.dim_table((k - 1) as nat).insert(name, self.dim_names(name))
        }
    }

    /// `const X_i: i32` for all dimensions of an array.
    pub open spec fn cga_params(self, cga: Text) -> Seq<Text> {
        Seq::new(self.rank_of(cga), |i: int| "const "@ + suffixed(cga, i as nat) + ": i32"@)
    }

    /// The same for all arrays, in declaration order.
    pub open spec fn dim_params(self) -> Seq<Text> {
        concat(Seq::new(self.cgas.len(), |i: int| self.cga_params(self.cgas[i].cga_ident)))
    }
}

impl RankCombo {
    /// No arrays at all.
    pub fn none() -> (r: RankCombo)
        ensures
            r@ == RankComboS::none(),
    {
        let r = RankCombo {
            ranks_per_group: Vec::new(),
            cga_to_group: Table::new(),
            cgas: Vec::new(),
        };
        assert(r@.ranks =~= seq![]);
        assert(r@.cgas =~= seq![]);
        r
    }

    /// The arrays, in declaration order.
    pub fn cgas(&self) -> (r: &Vec<CgaInfo>)
        ensures
            views(r@) == self@.cgas,
    {
        &self.cgas
    }

    /// Rank for a given CGA ident.
    pub fn rank_of(&self, cga_ident: &str) -> (r: usize)
        requires
            self@.wf(),
            self@.cgas.len() > 0,
        ensures
            r == self@.rank_of(cga_ident@),
    {
        let g: usize = match self.cga_to_group.get(cga_ident) {
            Some(g) => {
                assert(self@.to_group.contains_key(cga_ident@));
                *g
            },
            None => 0,
        };
        self.ranks_per_group[g]
    }

    /// Rank for a given CGA-length ident (e.g., `N` → rank of any CGA using N). Used when
    /// rewriting array lengths like `[Tile<i32, {[]}>; N]`.
    pub fn rank_of_length(&self, length_ident: &str) -> (r: Option<usize>)
        requires
            self@.wf(),
        ensures
            match r {
                Some(n) => self@.rank_of_length(length_ident@) == Some(n as nat),
                None => self@.rank_of_length(length_ident@) is None,
            },
    {
        let mut i: usize = 0;
        while i < self.cgas.len()
            invariant
                i <= self.cgas@.len(),
                self@.wf(),
                self@.cgas == views(self.cgas@),
                cga_of_length(self@.cgas, length_ident@, 0) == cga_of_length(
                    self@.cgas,
                    length_ident@,
                    i as nat,
                ),
            decreases self.cgas@.len() - i,
        {
            if same(self.cgas[i].length_ident.as_str(), length_ident) {
                return Some(self.rank_of(self.cgas[i].cga_ident.as_str()));
            }
            i = i + 1;
        }
        None
    }

    /// Dim names for a given CGA. For CGA `S` at rank 2, returns `[S_0, S_1]`.
    pub fn dim_names_for(&self, cga_ident: &str) -> (r: Vec<String>)
        requires
            self@.wf(),
            self@.cgas.len() > 0,
        ensures
            texts(r@) == self@.dim_names(cga_ident@),
    {
        let rank: usize = self.rank_of(cga_ident);
        let mut out: Vec<String> = Vec::new();
        let mut i: usize = 0;
        while i < rank
            invariant
                i <= rank,
                out@.len() == i,
                forall|j: int|
                    0 <= j < i ==> (#[trigger] out@[j])@ == suffixed(cga_ident@, j as nat),
            decreases rank - i,
        {
            out.push(suffix(cga_ident, i));
            i = i + 1;
        }
        assert(texts(out@) =~= self@.dim_names(cga_ident@));
        out
    }

    /// All dim generic names across all CGAs.
    pub fn dim_names_per_cga(&self) -> (r: Table<Names>)
        requires
            self@.wf(),
        ensures
            r@ == self@.dim_table(self@.cgas.len()),
    {
        let mut out: Table<Names> = Table::new();
        let mut i: usize = 0;
        while i < self.cgas.len()
            invariant
                i <= self.cgas@.len(),
                self@.wf(),
                self@.cgas == views(self.cgas@),
                out@ == self@.dim_table(i as nat),
            decreases self.cgas@.len() - i,
        {
            let name = &self.cgas[i].cga_ident;
            assert(self@.cgas[i as int] == self.cgas@[i as int]@);
            out.insert(name.clone(), Names(self.dim_names_for(name.as_str())));
            i = i + 1;
        }
        out
    }

    /// Flattened list of `const X_i: i32` for all dim generics in this combo, in CGA
    /// declaration order.
    pub fn dim_params_tokens(&self) -> (r: Vec<String>)
        requires
            self@.wf(),
        ensures
            texts(r@) == self@.dim_params(),
    {
        let ghost lists = Seq::new(
            self@.cgas.len(),
            |i: int| self@.cga_params(self@.cgas[i].cga_ident),
        );
        let mut out: Vec<String> = Vec::new();
        let mut i: usize = 0;
        assert(texts(out@) =~= concat(lists.take(0)));
        while i < self.cgas.len()
            invariant
                i <= self.cgas@.len(),
                self@.wf(),
                self@.cgas == views(self.cgas@),
                lists == Seq::new(
                    self@.cgas.len(),
                    |i: int| self@.cga_params(self@.cgas[i].cga_ident),
                ),
                texts(out@) == concat(lists.take(i as int)),
            decreases self.cgas@.len() - i,
        {
            proof {
                crate::lists::lemma_concat_step(lists, i as int);
            }
            let name = self.cgas[i].cga_ident.as_str();
            let rank: usize = self.rank_of(name);
            let mut params: Vec<String> = Vec::new();
            let mut k: usize = 0;
            while k < rank
                invariant
                    k <= rank,
                    params@.len() == k,
                    forall|j: int|
                        0 <= j < k ==> (#[trigger] params@[j])@ == "const "@ + suffixed(
                            name@,
                            j as nat,
                        ) + ": i32"@,
                decreases rank - k,
            {
                let d = suffix(name, k);
                params.push(cat3("const ", d.as_str(), ": i32"));
                k = k + 1;
            }
            assert(texts(params@) =~= self@.cga_params(name@));
            crate::text::append_all(&mut out, &params);
            i = i + 1;
        }
        assert(lists.take(i as int) =~= lists);
        out
    }
}

// ---------------------------------------------------------------------------
// The space of combinations
// ---------------------------------------------------------------------------

/// With the first `j` names of a group under its index.
pub open spec fn map_names(m: Map<Text, usize>, names: Seq<Text>, group: usize, j: nat) -> Map<
    Text,
    usize,
>
    decreases j,
{
    if j == 0 {
        m
    } else {
        map_names(m, names, group, (j - 1) as nat).insert(names[j - 1], group)
    }
}

/// The group of each array in the first `k` groups.
pub open spec fn map_groups(groups: Seq<LengthGroupS>, k: nat) -> Map<Text, usize>
    decreases k,
{
    if k == 0 {
        Map::empty()
    } else {
        map_names(
            map_groups(groups, (k - 1) as nat),
            groups[k - 1].cgas,
            (k - 1) as usize,
            groups[k - 1].cgas.len(),
        )
    }
}

/// The combination of the given number: its digits, one for each group.
pub open spec fn combo_at(cgas: Seq<CgaInfoS>, max_rank: nat, code: nat) -> RankComboS {
    let groups = groups_of(cgas);
    RankComboS {
        ranks: base_digits(code, max_rank + 1, groups.len()),
        to_group: map_groups(groups, groups.len()),
        cgas,
    }
}

/// How many combinations there are: one for each choice of a rank from 0 to `max_rank` for
/// each group; none where there is no group.
pub open spec fn combo_count(cgas: Seq<CgaInfoS>, max_rank: nat) -> nat {
    let n = groups_of(cgas).len();
    if n == 0 { 0 } else { pow((max_rank + 1) as int, n) as nat }
}

/// All combinations, in order.
pub open spec fn combos(cgas: Seq<CgaInfoS>, max_rank: nat) -> Seq<RankComboS> {
    Seq::new(combo_count(cgas, max_rank), |i: int| combo_at(cgas, max_rank, i as nat))
}

proof fn lemma_map_names(m: Map<Text, usize>, names: Seq<Text>, group: usize, j: nat, bound: nat)
    requires
        forall|name: Text| #[trigger] m.contains_key(name) ==> m[name] < bound,
        group < bound,
        j <= names.len(),
    ensures
        forall|name: Text|
            #[trigger] map_names(m, names, group, j).contains_key(name) ==> map_names(
                m,
                names,
                group,
                j,
            )[name] < bound,
    decreases j,
{
    if j > 0 {
        lemma_map_names(m, names, group, (j - 1) as nat, bound);
        let prev = map_names(m, names, group, (j - 1) as nat);
        let next = map_names(m, names, group, j);
        assert forall|name: Text| #[trigger] next.contains_key(name) implies next[name] < bound by {
            if name != names[j - 1] {
                assert(prev.contains_key(name));
            }
        }
    }
}

proof fn lemma_map_groups(groups: Seq<LengthGroupS>, k: nat)
    requires
        k <= groups.len() <= usize::MAX,
    ensures
        forall|name: Text|
            #[trigger] map_groups(groups, k).contains_key(name) ==> map_groups(groups, k)[name] < k,
    decreases k,
{
    if k > 0 {
        lemma_map_groups(groups, (k - 1) as nat);
        lemma_map_names(
            map_groups(groups, (k - 1) as nat),
            groups[k - 1].cgas,
            (k - 1) as usize,
            groups[k - 1].cgas.len(),
            k,
        );
    }
}

proof fn lemma_base_digits(code: nat, base: nat, n: nat)
    requires
        base > 0,
    ensures
        base_digits(code, base, n).len() == n,
        forall|i: int| 0 <= i < n ==> (#[trigger] base_digits(code, base, n)[i]) < base,
    decreases n,
{
    if n > 0 {
        lemma_base_digits(code / base, base, (n - 1) as nat);
        assert(code % base < base) by (nonlinear_arith)
            requires
                base > 0,
        ;
        let d = base_digits(code, base, n);
        let rest = base_digits(code / base, base, (n - 1) as nat);
        assert forall|i: int| 0 <= i < n implies (#[trigger] d[i]) < base by {
            if i > 0 {
                assert(d[i] == rest[i - 1]);
            }
        }
    }
}

proof fn lemma_grouped_len(cgas: Seq<CgaInfoS>, k: nat)
    requires
        k <= cgas.len(),
    ensures
        grouped(cgas, k).len() <= k,
        k > 0 ==> grouped(cgas, k).len() > 0,
    decreases k,
{
    if k > 0 {
        lemma_grouped_len(cgas, (k - 1) as nat);
    }
}

/// Every combination gives every array a rank of at most `max_rank`.
pub proof fn lemma_combo_wf(cgas: Seq<CgaInfoS>, max_rank: nat, code: nat)
    requires
        cgas.len() <= usize::MAX,
        max_rank < usize::MAX,
    ensures
        combo_at(cgas, max_rank, code).wf(),
        combo_at(cgas, max_rank, code).ranks.len() == groups_of(cgas).len(),
        forall|cga: Text|
            cgas.len() > 0 ==> #[trigger] combo_at(cgas, max_rank, code).rank_of(cga) <= max_rank,
{
    let groups = groups_of(cgas);
    lemma_grouped_len(cgas, cgas.len());
    lemma_map_groups(groups, groups.len());
    lemma_base_digits(code, max_rank + 1, groups.len());
}

/// Space of rank combinations across length groups. For reshape (2 independent groups),
/// iterates 0..=MAX_RANK × 0..=MAX_RANK. For broadcast (1 group with 2 CGAs sharing N),
/// iterates 0..=MAX_RANK once.
#[derive(Debug)]
pub struct RankSpace {
    groups: Vec<LengthGroup>,
    cgas: Vec<CgaInfo>,
    max_rank: usize,
}

pub struct RankSpaceS {
    pub cgas: Seq<CgaInfoS>,
    pub max_rank: nat,
}

impl View for RankSpace {
    type V = RankSpaceS;

    closed spec fn view(&self) -> RankSpaceS {
        RankSpaceS { cgas: views(self.cgas@), max_rank: self.max_rank as nat }
    }
}

impl RankSpace {
    /// The groups are those of the arrays.
    #[verifier::type_invariant]
    spec fn inv(self) -> bool {
        views(self.groups@) == groups_of(views(self.cgas@))
    }

    pub fn new(cgas: &Vec<CgaInfo>, max_rank: usize) -> (r: RankSpace)
        ensures
            r@ == (RankSpaceS { cgas: views(cgas@), max_rank: max_rank as nat }),
    {
        RankSpace { groups: group_cgas_by_length(cgas), cgas: copy_cgas(cgas), max_rank }
    }

    fn group_table(&self) -> (r: Table<usize>)
        ensures
            r@ == map_groups(groups_of(self@.cgas), groups_of(self@.cgas).len()),
    {
        proof {
            use_type_invariant(self);
        }
        let ghost models = views(self.groups@);
        let mut table: Table<usize> = Table::new();
        let mut g: usize = 0;
        while g < self.groups.len()
            invariant
                g <= self.groups@.len(),
                models == views(self.groups@),
                table@ == map_groups(models, g as nat),
            decreases self.groups@.len() - g,
        {
            let names = &self.groups[g].cgas;
            let ghost start = table@;
            let mut j: usize = 0;
            while j < names.len()
                invariant
                    j <= names@.len(),
                    table@ == map_names(start, texts(names@), g, j as nat),
                decreases names@.len() - j,
            {
                table.insert(names[j].clone(), g);
                j = j + 1;
            }
            assert(models[g as int].cgas == texts(names@));
            g = g + 1;
        }
        table
    }

    /// The combination of the given number.
    fn combo(&self, code: usize) -> (r: RankCombo)
        requires
            self@.max_rank < usize::MAX,
        ensures
            r@ == combo_at(self@.cgas, self@.max_rank, code as nat),
    {
        proof {
            use_type_invariant(self);
        }
        let base: usize = self.max_rank + 1;
        let n_groups: usize = self.groups.len();
        let ghost whole = base_digits(code as nat, base as nat, n_groups as nat);
        let mut ranks: Vec<usize> = Vec::new();
        let mut n: usize = code;
        let mut i: usize = 0;
        assert(nats(ranks@) + whole =~= whole);
        while i < n_groups
            invariant
                i <= n_groups,
                base > 0,
                nats(ranks@) + base_digits(n as nat, base as nat, (n_groups - i) as nat) == whole,
            decreases n_groups - i,
        {
            let ghost done = nats(ranks@);
            let ghost tail = base_digits((n / base) as nat, base as nat, (n_groups - i - 1) as nat);
            ranks.push(n % base);
            assert(nats(ranks@) =~= done.push((n % base) as nat));
            assert(nats(ranks@) + tail =~= done + (seq![(n % base) as nat] + tail));
            n = n / base;
            i = i + 1;
        }
        assert(nats(ranks@) =~= whole);
        RankCombo {
            ranks_per_group: ranks,
            cga_to_group: self.group_table(),
            cgas: copy_cgas(&self.cgas),
        }
    }

    /// All combinations: the Cartesian product of the ranks of each group.
    pub fn iter(&self) -> (r: Vec<RankCombo>)
        requires
            combo_count(self@.cgas, self@.max_rank) <= usize::MAX,
        ensures
            views(r@) == combos(self@.cgas, self@.max_rank),
    {
        proof {
            use_type_invariant(self);
        }
        let mut result: Vec<RankCombo> = Vec::new();
        let n_groups: usize = self.groups.len();
        if n_groups == 0 {
            assert(views(result@) =~= combos(self@.cgas, self@.max_rank));
            return result;
        }
        proof {
            let base: int = (self@.max_rank + 1) as int;
            let m = (n_groups - 1) as nat;
            vstd::arithmetic::power::lemma_pow_adds(base, 1, m);
            vstd::arithmetic::power::lemma_pow1(base);
            vstd::arithmetic::power::lemma_pow_positive(base, m);
            assert(base * pow(base, m) >= base) by (nonlinear_arith)
                requires
                    base > 0,
                    pow(base, m) > 0,
            ;
        }
        let total: usize = power(self.max_rank + 1, n_groups);
        let mut code: usize = 0;
        while code < total
            invariant
                code <= total,
                self@.max_rank < usize::MAX,
                result@.len() == code,
                forall|j: int|
                    0 <= j < code ==> (#[trigger] result@[j])@ == combo_at(
                        self@.cgas,
                        self@.max_rank,
                        j as nat,
                    ),
            decreases total - code,
        {
            result.push(self.combo(code));
            code = code + 1;
        }
        assert(views(result@) =~= combos(self@.cgas, self@.max_rank));
        result
    }
}

/// `base` to the power of `n`.
fn power(base: usize, n: usize) -> (r: usize)
    requires
        base > 0,
        pow(base as int, n as nat) <= usize::MAX,
    ensures
        r == pow(base as int, n as nat),
{
    let mut r: usize = 1;
    let mut i: usize = 0;
    proof {
        vstd::arithmetic::power::lemma_pow0(base as int);
    }
    while i < n
        invariant
            i <= n,
            base > 0,
            pow(base as int, n as nat) <= usize::MAX,
            r == pow(base as int, i as nat),
        decreases n - i,
    {
        proof {
            vstd::arithmetic::power::lemma_pow_increases(base as nat, (i + 1) as nat, n as nat);
            vstd::arithmetic::power::lemma_pow_adds(base as int, i as nat, 1);
            vstd::arithmetic::power::lemma_pow1(base as int);
        }
        r = r * base;
        i = i + 1;
    }
    r
}

} // verus!
