//! Lists of results: what succeeded, and what failed first.

use vstd::prelude::*;

verus! {

/// The values of `s` that are no failures, in order.
pub open spec fn successes<T, E>(s: Seq<Result<T, E>>) -> Seq<T>
    decreases s.len(),
{
    if s.len() == 0 {
        Seq::empty()
    } else {
        match s.last() {
            Ok(t) => successes(s.drop_last()).push(t),
            Err(_) => successes(s.drop_last()),
        }
    }
}

/// The first failure of `s`, if it holds one.
pub open spec fn first_failure<T, E>(s: Seq<Result<T, E>>) -> Option<E>
    decreases s.len(),
{
    if s.len() == 0 {
        None
    } else {
        match first_failure(s.drop_last()) {
            Some(e) => Some(e),
            None => match s.last() {
                Ok(_) => None,
                Err(e) => Some(e),
            },
        }
    }
}

/// The first failure of a beginning of `s` is the first failure of `s`.
pub proof fn lemma_first_failure_stays<T, E>(s: Seq<Result<T, E>>, upto: int)
    requires
        0 <= upto <= s.len(),
        first_failure(s.take(upto)) is Some,
    ensures
        first_failure(s) == first_failure(s.take(upto)),
    decreases s.len() - upto,
{
    if upto < s.len() {
        let next = s.take(upto + 1);
        assert(next.drop_last() =~= s.take(upto));
        lemma_first_failure_stays(s, upto + 1);
    } else {
        assert(s.take(upto) =~= s);
    }
}

/// Without a failure everything is a success.
pub proof fn lemma_no_failure<T, E>(s: Seq<Result<T, E>>)
    requires
        first_failure(s) is None,
    ensures
        successes(s).len() == s.len(),
        forall|i: int| 0 <= i < s.len() ==> (#[trigger] s[i]) == Ok::<T, E>(successes(s)[i]),
    decreases s.len(),
{
    if s.len() > 0 {
        lemma_no_failure(s.drop_last());
        assert forall|i: int| 0 <= i < s.len() implies (#[trigger] s[i]) == Ok::<T, E>(
            successes(s)[i],
        ) by {
            if i < s.len() - 1 {
                assert(s[i] == s.drop_last()[i]);
            }
        }
    }
}

/// Keeps what is no failure.
pub fn keep_successes<T, E>(v: Vec<Result<T, E>>) -> (kept: Vec<T>)
    ensures
        kept@ == successes(v@),
{
    let mut kept: Vec<T> = Vec::new();
    assert(v@.take(0) =~= Seq::empty());
    for r in it: v.into_iter()
        invariant
            it.seq() == v@,
            kept@ == successes(v@.take(it.index() as int)),
    {
        proof {
            let next = v@.take(it.index() + 1);
            assert(next.drop_last() =~= v@.take(it.index() as int));
            assert(next.last() == r);
        }
        match r {
            Ok(t) => {
                kept.push(t);
            },
            Err(_) => {},
        }
    }
    proof {
        assert(v@.take(v@.len() as int) =~= v@);
    }
    kept
}

/// Everything, unless something failed: then the first failure.
pub fn all_or_first_failure<T, E>(v: Vec<Result<T, E>>) -> (r: Result<Vec<T>, E>)
    ensures
        match r {
            Ok(all) => first_failure(v@) is None && all@ == successes(v@),
            Err(e) => first_failure(v@) == Some(e),
        },
{
    let mut kept: Vec<T> = Vec::new();
    assert(v@.take(0) =~= Seq::empty());
    for r in it: v.into_iter()
        invariant
            it.seq() == v@,
            kept@ == successes(v@.take(it.index() as int)),
            first_failure(v@.take(it.index() as int)) is None,
    {
        proof {
            let next = v@.take(it.index() + 1);
            assert(next.drop_last() =~= v@.take(it.index() as int));
            assert(next.last() == r);
        }
        match r {
            Ok(t) => {
                kept.push(t);
            },
            Err(e) => {
                proof {
                    lemma_first_failure_stays(v@, it.index() + 1);
                }
                return Err(e);
            },
        }
    }
    proof {
        assert(v@.take(v@.len() as int) =~= v@);
    }
    Ok(kept)
}

} // verus!
