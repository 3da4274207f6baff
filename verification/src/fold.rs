use vstd::prelude::*;

verus! {

/// Feeds the items of `xs` one by one to `step`, starting from `init`; the first error ends it.
pub open spec fn fold_seq<A, T, E>(init: A, xs: Seq<T>, step: spec_fn(A, T) -> Result<A, E>) -> Result<A, E>
    decreases xs.len(),
{
    if xs.len() == 0 {
        Ok(init)
    } else {
        match fold_seq(init, xs.drop_last(), step) {
            Ok(a) => step(a, xs.last()),
            Err(e) => Err(e),
        }
    }
}

pub proof fn lemma_fold_step<A, T, E>(init: A, xs: Seq<T>, step: spec_fn(A, T) -> Result<A, E>, i: int)
    requires
        0 <= i < xs.len(),
    ensures
        fold_seq(init, xs.take(i + 1), step) == match fold_seq(init, xs.take(i), step) {
            Ok(a) => step(a, xs[i]),
            Err(e) => Err(e),
        },
{
    assert(xs.take(i + 1).drop_last() =~= xs.take(i));
}

pub proof fn lemma_fold_whole<A, T, E>(init: A, xs: Seq<T>, step: spec_fn(A, T) -> Result<A, E>)
    ensures
        fold_seq(init, xs.take(xs.len() as int), step) == fold_seq(init, xs, step),
{
    assert(xs.take(xs.len() as int) =~= xs);
}

pub proof fn lemma_fold_err<A, T, E>(init: A, xs: Seq<T>, step: spec_fn(A, T) -> Result<A, E>, i: int)
    requires
        0 <= i <= xs.len(),
        fold_seq(init, xs.take(i), step) is Err,
    ensures
        fold_seq(init, xs, step) == fold_seq(init, xs.take(i), step),
    decreases xs.len() - i,
{
    if i == xs.len() {
        lemma_fold_whole(init, xs, step);
    } else {
        lemma_fold_step(init, xs, step, i);
        lemma_fold_err(init, xs, step, i + 1);
    }
}

} // verus!
