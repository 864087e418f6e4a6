//! Lists of results and lists of lists.
use vstd::prelude::*;

verus! {

/// All the values, or the first error.
pub open spec fn collect<T, E>(v: Seq<Result<T, E>>) -> Result<Seq<T>, E>
    decreases v.len(),
{
    if v.len() == 0 {
        Ok(seq![])
    } else {
        match collect(v.drop_last()) {
            Err(e) => Err(e),
            Ok(r) => match v.last() {
                Err(e) => Err(e),
                Ok(x) => Ok(r.push(x)),
            },
        }
    }
}

/// The lists one after another.
pub open spec fn concat<T>(v: Seq<Seq<T>>) -> Seq<T>
    decreases v.len(),
{
    if v.len() == 0 {
        seq![]
    } else {
        concat(v.drop_last()) + v.last()
    }
}

/// One more result is looked at.
pub proof fn lemma_collect_step<T, E>(v: Seq<Result<T, E>>, i: int)
    requires
        0 <= i < v.len(),
        collect(v.take(i)) is Ok,
    ensures
        v[i] is Ok ==> collect(v.take(i + 1)) == Ok::<Seq<T>, E>(
            collect(v.take(i))->Ok_0.push(v[i]->Ok_0),
        ),
        v[i] is Err ==> collect(v) == Err::<Seq<T>, E>(v[i]->Err_0),
    decreases v.len(),
{
    assert(v.take(i + 1).drop_last() =~= v.take(i));
    if v[i] is Err {
        lemma_collect_err(v, i + 1);
    }
}

/// An error among the first results is the error of all of them.
pub proof fn lemma_collect_err<T, E>(v: Seq<Result<T, E>>, i: int)
    requires
        0 <= i <= v.len(),
        collect(v.take(i)) is Err,
    ensures
        collect(v) == collect(v.take(i)),
    decreases v.len(),
{
    if i == v.len() {
        assert(v.take(i) =~= v);
    } else {
        assert(v.drop_last().take(i) =~= v.take(i));
        lemma_collect_err(v.drop_last(), i);
    }
}

/// The values are there, one for one, exactly if there is no error; otherwise the
/// error is the first one.
pub proof fn lemma_collect<T, E>(v: Seq<Result<T, E>>)
    ensures
        match collect(v) {
            Ok(r) => r.len() == v.len() && forall|i: int|
                0 <= i < v.len() ==> #[trigger] v[i] == Ok::<T, E>(r[i]),
            Err(e) => exists|i: int|
                0 <= i < v.len() && #[trigger] v[i] == Err::<T, E>(e) && forall|j: int|
                    0 <= j < i ==> (#[trigger] v[j]) is Ok,
        },
    decreases v.len(),
{
    if v.len() > 0 {
        let w = v.drop_last();
        lemma_collect(w);
        match collect(w) {
            Err(e) => {
                let i = choose|i: int|
                    0 <= i < w.len() && #[trigger] w[i] == Err::<T, E>(e) && forall|j: int|
                        0 <= j < i ==> (#[trigger] w[j]) is Ok;
                assert(v[i] == w[i]);
                assert forall|j: int| 0 <= j < i implies (#[trigger] v[j]) is Ok by {
                    assert(v[j] == w[j]);
                }
            },
            Ok(r) => {
                assert forall|j: int| 0 <= j < w.len() implies (#[trigger] v[j]) == Ok::<T, E>(
                    r[j],
                ) by {
                    assert(v[j] == w[j]);
                }
                assert(v[v.len() - 1] == v.last());
            },
        }
    }
}

pub proof fn lemma_concat_step<T>(v: Seq<Seq<T>>, i: int)
    requires
        0 <= i < v.len(),
    ensures
        concat(v.take(i + 1)) == concat(v.take(i)) + v[i],
{
    assert(v.take(i + 1).drop_last() =~= v.take(i));
}

/// What passes a filter is what it picks: every element that comes out is picked and was there,
/// and every element that was there and is picked comes out.
pub proof fn lemma_filter<T>(v: Seq<T>, pick: spec_fn(T) -> bool)
    ensures
        forall|i: int|
            0 <= i < v.filter(pick).len() ==> pick(#[trigger] v.filter(pick)[i]) && v.contains(
                v.filter(pick)[i],
            ),
        forall|i: int|
            0 <= i < v.len() && pick(#[trigger] v[i]) ==> v.filter(pick).contains(v[i]),
    decreases v.len(),
{
    reveal(Seq::filter);
    if v.len() > 0 {
        let w = v.drop_last();
        lemma_filter(w, pick);
        let out = v.filter(pick);
        let before = w.filter(pick);
        assert forall|i: int| 0 <= i < out.len() implies pick(#[trigger] out[i]) && v.contains(
            out[i],
        ) by {
            if i < before.len() {
                assert(out[i] == before[i]);
                let j = choose|j: int| 0 <= j < w.len() && w[j] == before[i];
                assert(v[j] == out[i]);
            } else {
                assert(v[v.len() - 1] == out[i]);
            }
        }
        assert forall|i: int| 0 <= i < v.len() && pick(#[trigger] v[i]) implies out.contains(
            v[i],
        ) by {
            if i < w.len() {
                assert(pick(w[i]));
                assert(before.contains(w[i]));
                let j = choose|j: int| 0 <= j < before.len() && before[j] == w[i];
                assert(out[j] == v[i]);
            } else {
                assert(out.last() == v[i]);
            }
        }
    }
}

} // verus!
