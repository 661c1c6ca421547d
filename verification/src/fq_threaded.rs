use vstd::prelude::*;
use vstd::multiset::Multiset;
use vstd::seq_lib::group_to_multiset_ensures;

verus! {

/// The successful outcomes of a batch, in the order the scheduler gathered
/// them: every `(source path, fragment path)` pair of a run that did not
/// fail, and nothing else. A single run's failure never drops a sibling's
/// result.
pub open spec fn successes_of(rs: Seq<Result<(String, String), String>>) -> Seq<(String, String)>
    decreases rs.len(),
{
    if rs.len() == 0 {
        Seq::empty()
    } else {
        let rest = successes_of(rs.drop_last());
        match rs.last() {
            Ok(p) => rest.push(p),
            Err(_) => rest,
        }
    }
}

/// Gathers a batch's results: exactly the outcomes of the runs that did not
/// fail, in the order the results arrived.
pub fn collect_successes(results: &Vec<Result<(String, String), String>>) -> (r: Vec<
    (String, String),
>)
    ensures
        r@ == successes_of(results@),
{
    let mut out: Vec<(String, String)> = Vec::new();
    let mut i: usize = 0;
    proof {
        assert(results@.take(0) =~= Seq::<Result<(String, String), String>>::empty());
    }
    while i < results.len()
        invariant
            0 <= i <= results@.len(),
            out@ == successes_of(results@.take(i as int)),
        decreases results@.len() - i,
    {
        proof {
            assert(results@.take(i + 1).drop_last() =~= results@.take(i as int));
            assert(results@.take(i + 1).last() == results@[i as int]);
        }
        match &results[i] {
            Ok(p) => {
                out.push((p.0.clone(), p.1.clone()));
            },
            Err(_) => {},
        }
        i = i + 1;
    }
    proof {
        assert(results@.take(results@.len() as int) =~= results@);
    }
    out
}

/// How often a batch's gathered successes hold `p`: exactly as often as the
/// batch's outcomes hold `Ok(p)`.
pub proof fn lemma_successes_count(rs: Seq<Result<(String, String), String>>, p: (String, String))
    ensures
        successes_of(rs).to_multiset().count(p) == rs.to_multiset().count(Ok(p)),
    decreases rs.len(),
{
    broadcast use group_to_multiset_ensures;

    if rs.len() == 0 {
        assert(successes_of(rs).to_multiset() =~= Multiset::<(String, String)>::empty());
        assert(rs.to_multiset() =~= Multiset::<Result<(String, String), String>>::empty());
    } else {
        lemma_successes_count(rs.drop_last(), p);
        assert(rs =~= rs.drop_last().push(rs.last()));
        assert(rs.to_multiset() =~= rs.drop_last().to_multiset().insert(rs.last()));
        match rs.last() {
            Ok(q) => {
                assert(successes_of(rs) == successes_of(rs.drop_last()).push(q));
                assert(successes_of(rs).to_multiset() =~= successes_of(
                    rs.drop_last(),
                ).to_multiset().insert(q));
            },
            Err(_) => {},
        }
    }
}

/// Completeness of the scheduler: the gathered successes are exactly the
/// batch's successful outcomes, whatever the concurrency limit and however
/// completion interleaved — two schedules whose outcomes are the same batch
/// in any order gather the same successes.
pub proof fn lemma_scheduler_completeness(
    rs1: Seq<Result<(String, String), String>>,
    rs2: Seq<Result<(String, String), String>>,
)
    requires
        rs1.to_multiset() == rs2.to_multiset(),
    ensures
        successes_of(rs1).to_multiset() == successes_of(rs2).to_multiset(),
{
    assert forall|p: (String, String)|
        successes_of(rs1).to_multiset().count(p) == successes_of(
            rs2,
        ).to_multiset().count(p) by {
        lemma_successes_count(rs1, p);
        lemma_successes_count(rs2, p);
    }
    assert(successes_of(rs1).to_multiset() =~= successes_of(rs2).to_multiset());
}

} // verus!
