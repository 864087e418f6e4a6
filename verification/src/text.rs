//! Text: the strings that names, diagnostics and generated source are made of.
//!
//! A string is modelled by its sequence of characters. Pieces of text are put
//! together with the `cat` family, lists of them with [`join`], and numbers are
//! written with [`decimal`].
use vstd::prelude::*;
use vstd::utf8::{encode_utf8, encode_utf8_first_scalar, is_ascii_chars_encode_utf8};

verus! {

/// The model of a string.
pub type Text = Seq<char>;

/// The models of a list of strings.
pub open spec fn texts(v: Seq<String>) -> Seq<Text> {
    Seq::new(v.len(), |i: int| v[i]@)
}

/// The model of an optional string.
pub open spec fn opt_text(v: Option<String>) -> Option<Text> {
    match v {
        Some(s) => Some(s@),
        None => None,
    }
}

pub proof fn lemma_texts_push(v: Seq<String>, s: String)
    ensures
        texts(v.push(s)) == texts(v).push(s@),
{
    assert(texts(v.push(s)) =~= texts(v).push(s@));
}

/// `String::push` appends one character.
pub assume_specification[ String::push ](s: &mut String, c: char)
    ensures
        final(s)@ == old(s)@.push(c),
;

/// `str` comparison is comparison of the characters.
pub assume_specification[ <str as PartialEq>::eq ](a: &str, b: &str) -> (r: bool)
    ensures
        r == (a@ == b@),
;

pub fn same(a: &str, b: &str) -> (r: bool)
    ensures
        r == (a@ == b@),
{
    *a == *b
}

pub fn cat2(a: &str, b: &str) -> (r: String)
    ensures
        r@ == a@ + b@,
{
    let mut s = a.to_owned();
    s.append(b);
    s
}

pub fn cat3(a: &str, b: &str, c: &str) -> (r: String)
    ensures
        r@ == a@ + b@ + c@,
{
    let mut s = cat2(a, b);
    s.append(c);
    s
}

pub fn cat4(a: &str, b: &str, c: &str, d: &str) -> (r: String)
    ensures
        r@ == a@ + b@ + c@ + d@,
{
    let mut s = cat3(a, b, c);
    s.append(d);
    s
}

pub fn cat5(a: &str, b: &str, c: &str, d: &str, e: &str) -> (r: String)
    ensures
        r@ == a@ + b@ + c@ + d@ + e@,
{
    let mut s = cat4(a, b, c, d);
    s.append(e);
    s
}

pub fn cat6(a: &str, b: &str, c: &str, d: &str, e: &str, f: &str) -> (r: String)
    ensures
        r@ == a@ + b@ + c@ + d@ + e@ + f@,
{
    let mut s = cat5(a, b, c, d, e);
    s.append(f);
    s
}

pub fn cat7(a: &str, b: &str, c: &str, d: &str, e: &str, f: &str, g: &str) -> (r: String)
    ensures
        r@ == a@ + b@ + c@ + d@ + e@ + f@ + g@,
{
    let mut s = cat6(a, b, c, d, e, f);
    s.append(g);
    s
}

// ---------------------------------------------------------------------------
// Numbers
// ---------------------------------------------------------------------------

/// The character for a single decimal digit.
pub open spec fn digit(d: nat) -> char {
    if d == 0 { '0' }
    else if d == 1 { '1' }
    else if d == 2 { '2' }
    else if d == 3 { '3' }
    else if d == 4 { '4' }
    else if d == 5 { '5' }
    else if d == 6 { '6' }
    else if d == 7 { '7' }
    else if d == 8 { '8' }
    else { '9' }
}

/// The decimal digits of `n`, most significant first, without leading zeros.
pub open spec fn decimal_text(n: nat) -> Text
    decreases n,
{
    if n < 10 {
        seq![digit(n)]
    } else {
        decimal_text(n / 10).push(digit(n % 10))
    }
}

fn digit_char(d: usize) -> (c: char)
    requires
        d < 10,
    ensures
        c == digit(d as nat),
{
    match d {
        0 => '0',
        1 => '1',
        2 => '2',
        3 => '3',
        4 => '4',
        5 => '5',
        6 => '6',
        7 => '7',
        8 => '8',
        _ => '9',
    }
}

pub fn decimal(n: usize) -> (r: String)
    ensures
        r@ == decimal_text(n as nat),
    decreases n,
{
    if n < 10 {
        let mut s = String::new();
        s.push(digit_char(n));
        assert(s@ =~= decimal_text(n as nat));
        s
    } else {
        let mut s = decimal(n / 10);
        s.push(digit_char(n % 10));
        s
    }
}

// ---------------------------------------------------------------------------
// Lists of strings
// ---------------------------------------------------------------------------

/// The parts one after another with `sep` between neighbours.
pub open spec fn join_text(parts: Seq<Text>, sep: Text) -> Text
    decreases parts.len(),
{
    if parts.len() == 0 {
        seq![]
    } else if parts.len() == 1 {
        parts[0]
    } else {
        join_text(parts.drop_last(), sep) + sep + parts.last()
    }
}

pub fn join(parts: &Vec<String>, sep: &str) -> (r: String)
    ensures
        r@ == join_text(texts(parts@), sep@),
{
    assert(texts(parts@).subrange(0, parts@.len() as int) =~= texts(parts@));
    join_range(parts, 0, parts.len(), sep)
}

/// Joins the strings from index `from` up to, but without, index `to`.
pub fn join_range(parts: &Vec<String>, from: usize, to: usize, sep: &str) -> (r: String)
    requires
        from <= to <= parts@.len(),
    ensures
        r@ == join_text(texts(parts@).subrange(from as int, to as int), sep@),
{
    let mut out = String::new();
    let mut i: usize = from;
    let ghost all = texts(parts@);
    while i < to
        invariant
            from <= i <= to <= parts@.len(),
            all == texts(parts@),
            out@ == join_text(all.subrange(from as int, i as int), sep@),
        decreases to - i,
    {
        assert(all.subrange(from as int, i + 1).drop_last() =~= all.subrange(from as int, i as int));
        if i > from {
            out.append(sep);
        }
        out.append(parts[i].as_str());
        assert(out@ =~= join_text(all.subrange(from as int, i + 1), sep@));
        i = i + 1;
    }
    out
}

/// Whether one of the strings reads `s`.
pub fn includes(v: &Vec<String>, s: &str) -> (r: bool)
    ensures
        r == texts(v@).contains(s@),
{
    let mut i: usize = 0;
    while i < v.len()
        invariant
            i <= v@.len(),
            forall|j: int| 0 <= j < i ==> v@[j]@ != s@,
        decreases v@.len() - i,
    {
        if same(v[i].as_str(), s) {
            assert(texts(v@)[i as int] == s@);
            return true;
        }
        i = i + 1;
    }
    assert(!texts(v@).contains(s@)) by {
        if texts(v@).contains(s@) {
            let j = choose|j: int| 0 <= j < texts(v@).len() && texts(v@)[j] == s@;
            assert(v@[j]@ == s@);
        }
    }
    false
}

pub fn clone_strings(v: &Vec<String>) -> (r: Vec<String>)
    ensures
        texts(r@) == texts(v@),
{
    let mut out: Vec<String> = Vec::new();
    let mut i: usize = 0;
    while i < v.len()
        invariant
            i <= v@.len(),
            out@.len() == i,
            forall|j: int| 0 <= j < i ==> out@[j]@ == v@[j]@,
        decreases v@.len() - i,
    {
        out.push(v[i].clone());
        i = i + 1;
    }
    assert(texts(out@) =~= texts(v@));
    out
}

/// Puts the strings of `more` behind those of `out`.
pub fn append_all(out: &mut Vec<String>, more: &Vec<String>)
    ensures
        texts(final(out)@) == texts(old(out)@) + texts(more@),
{
    let ghost start = texts(out@);
    let mut i: usize = 0;
    while i < more.len()
        invariant
            i <= more@.len(),
            texts(out@) == start + texts(more@).take(i as int),
        decreases more@.len() - i,
    {
        let ghost prev = out@;
        out.push(more[i].clone());
        proof {
            lemma_texts_push(prev, out@.last());
        }
        assert(texts(out@) =~= start + texts(more@).take(i + 1));
        i = i + 1;
    }
    assert(texts(more@).take(i as int) =~= texts(more@));
}

/// The models of a list of optional strings.
pub open spec fn slots_s(v: Seq<Option<String>>) -> Seq<Option<Text>> {
    Seq::new(v.len(), |i: int| opt_text(v[i]))
}

/// The strings that are there among the first `k` slots.
pub open spec fn filled(slots: Seq<Option<Text>>, k: nat) -> Seq<Text>
    decreases k,
{
    if k == 0 {
        seq![]
    } else {
        match slots[k - 1] {
            Some(s) => filled(slots, (k - 1) as nat).push(s),
            None => filled(slots, (k - 1) as nat),
        }
    }
}

/// How many of the first `k` slots are filled.
pub open spec fn filled_count(slots: Seq<Option<Text>>, k: nat) -> nat
    decreases k,
{
    if k == 0 {
        0
    } else {
        filled_count(slots, (k - 1) as nat) + if slots[k - 1] is Some { 1nat } else { 0nat }
    }
}

/// What fills a slot stands behind what fills the slots before it.
pub proof fn lemma_filled_at(slots: Seq<Option<Text>>, k: nat)
    requires
        k <= slots.len(),
    ensures
        filled(slots, k).len() == filled_count(slots, k),
        forall|i: int|
            0 <= i < k && (#[trigger] slots[i]) is Some ==> filled_count(slots, i as nat)
                < filled_count(slots, k) && filled(slots, k)[filled_count(slots, i as nat) as int]
                == slots[i]->Some_0,
    decreases k,
{
    if k > 0 {
        lemma_filled_at(slots, (k - 1) as nat);
    }
}

/// The strings that are there.
pub fn fill(slots: &Vec<Option<String>>) -> (r: Vec<String>)
    ensures
        texts(r@) == filled(slots_s(slots@), slots@.len()),
{
    let mut out: Vec<String> = Vec::new();
    let mut i: usize = 0;
    assert(texts(out@) =~= seq![]);
    while i < slots.len()
        invariant
            i <= slots@.len(),
            texts(out@) == filled(slots_s(slots@), i as nat),
        decreases slots@.len() - i,
    {
        match &slots[i] {
            Some(s) => {
                let ghost prev = out@;
                out.push(s.clone());
                proof {
                    lemma_texts_push(prev, out@.last());
                }
            },
            None => {},
        }
        i = i + 1;
    }
    out
}

// ---------------------------------------------------------------------------
// Order
// ---------------------------------------------------------------------------

/// The order of strings: at the first character in which two of them differ, the
/// smaller code point comes first; a string comes before its extensions.
pub open spec fn before(a: Text, b: Text) -> bool
    decreases a.len(),
{
    if b.len() == 0 {
        false
    } else if a.len() == 0 {
        true
    } else if a[0] == b[0] {
        before(a.drop_first(), b.drop_first())
    } else {
        a[0] < b[0]
    }
}

pub fn comes_before(a: &str, b: &str) -> (r: bool)
    ensures
        r == before(a@, b@),
{
    let a_len: usize = a.unicode_len();
    let b_len: usize = b.unicode_len();
    let mut i: usize = 0;
    assert(a@.skip(0) =~= a@);
    assert(b@.skip(0) =~= b@);
    while i < a_len && i < b_len
        invariant
            i <= a_len,
            i <= b_len,
            a_len == a@.len(),
            b_len == b@.len(),
            before(a@, b@) == before(a@.skip(i as int), b@.skip(i as int)),
        decreases a_len - i,
    {
        let x = a.get_char(i);
        let y = b.get_char(i);
        if x != y {
            return x < y;
        }
        assert(a@.skip(i as int).drop_first() =~= a@.skip(i + 1));
        assert(b@.skip(i as int).drop_first() =~= b@.skip(i + 1));
        i = i + 1;
    }
    i < b_len
}

/// The order of strings is a strict total order.
pub proof fn lemma_before_is_total_order(a: Text, b: Text, c: Text)
    ensures
        !before(a, a),
        before(a, b) && before(b, c) ==> before(a, c),
        a != b ==> (before(a, b) <==> !before(b, a)),
    decreases a.len(),
{
    if a.len() > 0 {
        if b.len() > 0 && c.len() > 0 {
            lemma_before_is_total_order(a.drop_first(), b.drop_first(), c.drop_first());
        } else if b.len() > 0 {
            lemma_before_is_total_order(a.drop_first(), b.drop_first(), c);
        } else {
            lemma_before_is_total_order(a.drop_first(), b, c);
        }
        if b.len() > 0 {
            if a[0] == b[0] && a.drop_first() == b.drop_first() {
                assert(a =~= seq![a[0]] + a.drop_first());
                assert(b =~= seq![b[0]] + b.drop_first());
                assert(a == b);
            } else if a[0] != b[0] {
                assert(a[0] < b[0] || b[0] < a[0]);
            }
        }
    } else if b.len() == 0 {
        assert(a =~= b);
    }
}

// ---------------------------------------------------------------------------
// Words
// ---------------------------------------------------------------------------

/// A byte that can be part of an identifier: an ASCII letter, digit or `_`.
pub open spec fn word_byte(b: u8) -> bool {
    ||| 48 <= b <= 57
    ||| 65 <= b <= 90
    ||| 97 <= b <= 122
    ||| b == 95
}

pub fn is_word_byte(b: u8) -> (r: bool)
    ensures
        r == word_byte(b),
{
    (48 <= b && b <= 57) || (65 <= b && b <= 90) || (97 <= b && b <= 122) || b == 95
}

/// `needle` stands in `haystack` at byte `i`, with no word byte on either side.
pub open spec fn word_at(haystack: Seq<u8>, needle: Seq<u8>, i: int) -> bool {
    &&& 0 <= i
    &&& i + needle.len() <= haystack.len()
    &&& haystack.subrange(i, i + needle.len()) == needle
    &&& i == 0 || !word_byte(haystack[i - 1])
    &&& i + needle.len() == haystack.len() || !word_byte(haystack[i + needle.len()])
}

/// `needle` occurs in `haystack` as a whole word.
pub open spec fn has_word(haystack: Text, needle: Text) -> bool {
    exists|i: int| word_at(encode_utf8(haystack), encode_utf8(needle), i)
}

proof fn lemma_encode_concat(a: Text, b: Text)
    ensures
        encode_utf8(a + b) == encode_utf8(a) + encode_utf8(b),
    decreases a.len(),
{
    if a.len() == 0 {
        assert(a + b =~= b);
        assert(encode_utf8(a) + encode_utf8(b) =~= encode_utf8(b));
    } else {
        assert((a + b).drop_first() =~= a.drop_first() + b);
        lemma_encode_concat(a.drop_first(), b);
        assert(encode_utf8(a + b) =~= encode_utf8(a) + encode_utf8(b));
    }
}

/// Searching for a word in two texts with a character between them that is no word byte is
/// searching for it in either.
pub proof fn law_word_search_splits(a: Text, sep: char, b: Text, needle: Text)
    requires
        needle.len() > 0,
        forall|i: int|
            0 <= i < encode_utf8(needle).len() ==> word_byte(#[trigger] encode_utf8(needle)[i]),
        (sep as u32) < 128,
        !word_byte(sep as u8),
    ensures
        has_word(a + seq![sep] + b, needle) == (has_word(a, needle) || has_word(b, needle)),
{
    let x = encode_utf8(a);
    let y = encode_utf8(b);
    let n = encode_utf8(needle);
    let all = encode_utf8(a + seq![sep] + b);
    lemma_encode_concat(a + seq![sep], b);
    lemma_encode_concat(a, seq![sep]);
    is_ascii_chars_encode_utf8(seq![sep]);
    assert(encode_utf8(seq![sep]) =~= seq![sep as u8]);
    assert(all == x + seq![sep as u8] + y);
    encode_utf8_first_scalar(needle);
    assert(n.len() > 0);
    let k = x.len() as int;
    if has_word(a, needle) {
        let i = choose|i: int| word_at(x, n, i);
        assert(all.subrange(i, i + n.len()) =~= n);
        assert(word_at(all, n, i));
    }
    if has_word(b, needle) {
        let i = choose|i: int| word_at(y, n, i);
        assert(all.subrange(i + k + 1, i + k + 1 + n.len()) =~= n);
        assert(word_at(all, n, i + k + 1));
    }
    if has_word(a + seq![sep] + b, needle) {
        let i = choose|i: int| word_at(all, n, i);
        if i + n.len() <= k {
            assert(x.subrange(i, i + n.len()) =~= n);
            assert(word_at(x, n, i));
        } else if i > k {
            assert(y.subrange(i - k - 1, i - k - 1 + n.len()) =~= n);
            assert(word_at(y, n, i - k - 1));
        } else {
            assert(all.subrange(i, i + n.len())[k - i] == all[k]);
            assert(word_byte(n[k - i]));
        }
    }
}

fn bytes_match_at(bytes: &[u8], nb: &[u8], at: usize) -> (r: bool)
    requires
        at + nb@.len() <= bytes@.len(),
    ensures
        r == (bytes@.subrange(at as int, at + nb@.len()) == nb@),
{
    let len: usize = bytes.len();
    let mut k: usize = 0;
    while k < nb.len()
        invariant
            k <= nb@.len(),
            len == bytes@.len(),
            at + nb@.len() <= bytes@.len(),
            forall|j: int| 0 <= j < k ==> bytes@[at + j] == nb@[j],
        decreases nb@.len() - k,
    {
        if bytes[at + k] != nb[k] {
            assert(bytes@.subrange(at as int, at + nb@.len())[k as int] != nb@[k as int]);
            return false;
        }
        k = k + 1;
    }
    assert(bytes@.subrange(at as int, at + nb@.len()) =~= nb@);
    true
}

pub fn contains_whole_word(haystack: &str, needle: &str) -> (r: bool)
    ensures
        r == has_word(haystack@, needle@),
{
    let bytes = haystack.as_bytes();
    let nb = needle.as_bytes();
    if nb.len() > bytes.len() {
        return false;
    }
    let last: usize = bytes.len() - nb.len();
    let mut i: usize = 0;
    loop
        invariant
            bytes@ == encode_utf8(haystack@),
            nb@ == encode_utf8(needle@),
            last + nb@.len() == bytes@.len(),
            i <= last,
            forall|j: int| j < i ==> !word_at(bytes@, nb@, j),
        decreases last - i,
    {
        if bytes_match_at(bytes, nb, i) {
            let prev_ok = i == 0 || !is_word_byte(bytes[i - 1]);
            let next_ok = i == last || !is_word_byte(bytes[i + nb.len()]);
            if prev_ok && next_ok {
                assert(word_at(bytes@, nb@, i as int));
                return true;
            }
        }
        assert(!word_at(bytes@, nb@, i as int));
        if i == last {
            return false;
        }
        i = i + 1;
    }
}

/// What `char::to_uppercase` yields for a character.
pub uninterp spec fn uppercase(c: char) -> Seq<char>;

/// Calls `char::to_uppercase` and collects what it yields. An ASCII lowercase
/// letter yields its uppercase letter, any other ASCII character itself.
#[verifier::external_body]
fn to_upper(c: char) -> (r: String)
    ensures
        r@ == uppercase(c),
        'a' <= c && c <= 'z' ==> r@ == seq![(c as u32 - 32) as char],
        (c as u32) < 128 && !('a' <= c && c <= 'z') ==> r@ == seq![c],
{
    c.to_uppercase().to_string()
}

/// `PascalCase` of what is left of a snake-case name: underscores vanish, and
/// the character after one (or at the start) is put in upper case.
pub open spec fn pascal_text(name: Text, upper_next: bool) -> Text
    decreases name.len(),
{
    if name.len() == 0 {
        seq![]
    } else if name[0] == '_' {
        pascal_text(name.drop_first(), true)
    } else if upper_next {
        uppercase(name[0]) + pascal_text(name.drop_first(), false)
    } else {
        seq![name[0]] + pascal_text(name.drop_first(), false)
    }
}

proof fn lemma_pascal_splits(a: Text, b: Text, upper_next: bool)
    ensures
        pascal_text(a + seq!['_'] + b, upper_next) == pascal_text(a, upper_next) + pascal_text(
            b,
            true,
        ),
    decreases a.len(),
{
    let whole = a + seq!['_'] + b;
    if a.len() == 0 {
        assert(whole.drop_first() =~= b);
        assert(pascal_text(a, upper_next) + pascal_text(b, true) =~= pascal_text(b, true));
    } else {
        let rest = a.drop_first();
        assert(whole.drop_first() =~= rest + seq!['_'] + b);
        lemma_pascal_splits(rest, b, true);
        lemma_pascal_splits(rest, b, false);
        assert(pascal_text(whole, upper_next) =~= pascal_text(a, upper_next) + pascal_text(
            b,
            true,
        ));
    }
}

/// In a text that is one word only that word is found, and it is found.
pub proof fn law_word_is_found_whole(haystack: Text, needle: Text)
    requires
        needle.len() > 0,
        forall|i: int|
            0 <= i < encode_utf8(haystack).len() ==> word_byte(#[trigger] encode_utf8(haystack)[i]),
    ensures
        has_word(haystack, needle) <==> encode_utf8(haystack) == encode_utf8(needle),
        has_word(needle, needle),
{
    let h = encode_utf8(haystack);
    let n = encode_utf8(needle);
    encode_utf8_first_scalar(needle);
    assert(n.len() > 0);
    assert(n.subrange(0, n.len() as int) =~= n);
    assert(word_at(n, n, 0));
    if h == n {
        assert(word_at(h, n, 0));
    }
    if has_word(haystack, needle) {
        let i = choose|i: int| word_at(h, n, i);
        assert(i == 0) by {
            if i > 0 {
                assert(word_byte(h[i - 1]));
            }
        }
        assert(n.len() == h.len()) by {
            if n.len() < h.len() {
                assert(word_byte(h[n.len() as int]));
            }
        }
        assert(h.subrange(0, h.len() as int) =~= h);
    }
}

/// The `PascalCase` of a piece without underscores is the piece with its first character in upper
/// case.
pub proof fn law_pascal_case_of_a_piece(c: char, rest: Text)
    requires
        c != '_',
        forall|i: int| 0 <= i < rest.len() ==> #[trigger] rest[i] != '_',
    ensures
        pascal_text(seq![], true) == Seq::<char>::empty(),
        pascal_text(seq![c] + rest, true) == uppercase(c) + rest,
{
    let t = seq![c] + rest;
    assert(t.drop_first() =~= rest);
    lemma_pascal_keeps(rest);
}

proof fn lemma_pascal_keeps(t: Text)
    requires
        forall|i: int| 0 <= i < t.len() ==> #[trigger] t[i] != '_',
    ensures
        pascal_text(t, false) == t,
    decreases t.len(),
{
    if t.len() > 0 {
        assert(t[0] != '_');
        let rest = t.drop_first();
        assert forall|i: int| 0 <= i < rest.len() implies #[trigger] rest[i] != '_' by {
            assert(rest[i] == t[i + 1]);
        }
        lemma_pascal_keeps(rest);
        assert(seq![t[0]] + rest =~= t);
    } else {
        assert(t =~= seq![]);
    }
}

/// The `PascalCase` of `a_b` is that of `a` followed by that of `b`.
pub proof fn law_pascal_case_splits(a: Text, b: Text)
    ensures
        pascal_text(a + seq!['_'] + b, true) == pascal_text(a, true) + pascal_text(b, true),
{
    lemma_pascal_splits(a, b, true);
}

/// The character of index `i` is the first of a piece between underscores.
pub open spec fn starts_piece(name: Text, i: int) -> bool {
    &&& 0 <= i < name.len()
    &&& name[i] != '_'
    &&& i == 0 || name[i - 1] == '_'
}

/// An ASCII character in upper case: a lowercase letter becomes its capital, any other one
/// stays.
pub open spec fn ascii_uppercase(c: char) -> Seq<char> {
    if 'a' <= c && c <= 'z' { seq![(c as u32 - 32) as char] } else { seq![c] }
}

/// A snake-case name in `PascalCase`. The second clause says what upper case is where an ASCII
/// character starts a piece.
pub fn pascal_case(name: &str) -> (r: String)
    ensures
        r@ == pascal_text(name@, true),
        forall|i: int|
            #[trigger] starts_piece(name@, i) && (name@[i] as u32) < 128 ==> uppercase(name@[i])
                == ascii_uppercase(name@[i]),
{
    let mut out = String::new();
    let mut upper_next: bool = true;
    let ghost whole = pascal_text(name@, true);
    assert(name@.skip(0) =~= name@);
    for ch in it: name.chars()
        invariant
            it.seq() == name@,
            whole == pascal_text(name@, true),
            out@ + pascal_text(name@.skip(it.index()), upper_next) =~= whole,
            upper_next == (it.index() == 0 || name@[it.index() - 1] == '_'),
            forall|i: int|
                i < it.index() && #[trigger] starts_piece(name@, i) && (name@[i] as u32) < 128
                    ==> uppercase(name@[i]) == ascii_uppercase(name@[i]),
    {
        assert(name@.skip(it.index()).drop_first() =~= name@.skip(it.index() + 1));
        if ch == '_' {
            upper_next = true;
        } else if upper_next {
            out.append(to_upper(ch).as_str());
            upper_next = false;
        } else {
            out.push(ch);
        }
    }
    out
}

} // verus!
