use vstd::prelude::*;
use crate::story::Story;
use crate::errors::HnError;

verus! {

/// Fail-fast aggregation of per-page results, in requested order: the whole
/// operation succeeds only when every page did, and the output preserves the
/// input order page for page. On failure the first failed page's error is
/// returned and every other page's result is discarded -- no partial
/// success surfaces.
pub fn aggregate_pages(results: &mut Vec<Result<Vec<Story>, HnError>>) -> (r: Result<
    Vec<Vec<Story>>,
    HnError,
>)
    ensures
        match r {
            Ok(groups) => groups@.len() == old(results)@.len() && forall|i: int|
                0 <= i < old(results)@.len() ==> ((#[trigger] old(results)@[i]) matches Ok(g) && groups@[i]
                    == g),
            Err(e) => exists|i: int|
                0 <= i < old(results)@.len() && ((#[trigger] old(results)@[i]) matches Err(e0) && e0 == e)
                    && (forall|j: int| 0 <= j < i ==> (#[trigger] old(results)@[j]) is Ok),
        },
{
    let ghost orig = results@;
    let total = results.len();
    let mut out: Vec<Vec<Story>> = Vec::new();
    let mut k: usize = 0;
    proof {
        assert(results@ =~= orig.skip(0));
    }
    while results.len() > 0
        invariant
            orig == old(results)@,
            0 <= k <= total,
            total == orig.len(),
            k + results@.len() == orig.len(),
            results@ == orig.skip(k as int),
            out@.len() == k,
            forall|j: int|
                0 <= j < k ==> ((#[trigger] orig[j]) matches Ok(g) && out@[j] == g),
        decreases results@.len(),
    {
        let x = results.remove(0);
        proof {
            assert(orig.skip(k as int)[0] == orig[k as int]);
            assert(orig.skip(k as int).remove(0) =~= orig.skip(k as int + 1));
            assert(x == orig[k as int]);
        }
        match x {
            Ok(v) => {
                out.push(v);
            },
            Err(e) => {
                proof {
                    assert(old(results)@ == orig);
                    assert(0 <= k < old(results)@.len());
                    assert((#[trigger] old(results)@[k as int]) is Err && old(results)@[k as int]->Err_0 == e);
                    assert(forall|j: int| 0 <= j < k ==> (#[trigger] old(results)@[j]) is Ok);
                }
                return Err(e);
            },
        }
        k = k + 1;
    }
    proof {
        assert(orig.skip(k as int).len() == 0);
    }
    Ok(out)
}

} // verus!
