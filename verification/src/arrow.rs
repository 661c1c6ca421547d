use crate::fragment::{join_dir, join_path};
use crate::text::{str_eq, str_views};
use vstd::prelude::*;

verus! {

/// Name of the merge-registration ledger inside a working directory.
pub const ARROW_PARQUET_LOG: &'static str = "parquet_elements_mapped.txt";

/// Fixed name of the monolithic reference dataset inside a working directory.
pub const REFERENCE_FILE: &'static str = "SequenceSet.parquet";

/// The path of the monolithic reference dataset under directory `dir`.
pub fn get_arrow_path(dir: &str) -> (r: String)
    ensures
        r@ == join_path(dir@, REFERENCE_FILE@),
{
    join_dir(dir, REFERENCE_FILE)
}

/// The fragment paths of a registration mapping, in registration order.
pub open spec fn values_of(prs: Seq<(Seq<char>, Seq<char>)>) -> Seq<Seq<char>> {
    prs.map_values(|p: (Seq<char>, Seq<char>)| p.1)
}

/// The novel fragments of a consolidation run: the registered fragment paths
/// not yet in the merged set, in registration order, one slot per
/// registration entry.
pub open spec fn novel_spec(prs: Seq<(Seq<char>, Seq<char>)>, merged: Seq<Seq<char>>) -> Seq<
    Seq<char>,
>
    decreases prs.len(),
{
    if prs.len() == 0 {
        Seq::empty()
    } else {
        let rest = novel_spec(prs.drop_last(), merged);
        if !merged.contains(prs.last().1) {
            rest.push(prs.last().1)
        } else {
            rest
        }
    }
}

/// A fragment is novel exactly when some registration entry names it and the
/// merged set does not.
pub proof fn lemma_novel_mem(prs: Seq<(Seq<char>, Seq<char>)>, merged: Seq<Seq<char>>, v: Seq<char>)
    ensures
        novel_spec(prs, merged).contains(v) <==> (!merged.contains(v) && exists|i: int|
            0 <= i < prs.len() && (#[trigger] prs[i]).1 == v),
    decreases prs.len(),
{
    if prs.len() > 0 {
        lemma_novel_mem(prs.drop_last(), merged, v);
        let rest = novel_spec(prs.drop_last(), merged);
        if !merged.contains(prs.last().1) {
            assert(novel_spec(prs, merged) == rest.push(prs.last().1));
            if rest.push(prs.last().1).contains(v) {
                if v == prs.last().1 {
                    assert(prs[prs.len() - 1].1 == v);
                } else {
                    assert(rest.contains(v)) by {
                        let j = choose|j: int|
                            0 <= j < rest.push(prs.last().1).len() && rest.push(prs.last().1)[j]
                                == v;
                        assert(rest[j] == v);
                    }
                    let i = choose|i: int|
                        0 <= i < prs.drop_last().len() && (#[trigger] prs.drop_last()[i]).1 == v;
                    assert(prs[i].1 == v);
                }
            }
            if !merged.contains(v) && exists|i: int| 0 <= i < prs.len() && (#[trigger] prs[i]).1
                == v {
                let i = choose|i: int| 0 <= i < prs.len() && (#[trigger] prs[i]).1 == v;
                if i == prs.len() - 1 {
                    assert(rest.push(prs.last().1).last() == v);
                } else {
                    assert(prs.drop_last()[i].1 == v);
                    let j = choose|j: int| 0 <= j < rest.len() && rest[j] == v;
                    assert(rest.push(prs.last().1)[j] == v);
                }
            }
        } else {
            if novel_spec(prs, merged).contains(v) {
                let i = choose|i: int|
                    0 <= i < prs.drop_last().len() && (#[trigger] prs.drop_last()[i]).1 == v;
                assert(prs[i].1 == v);
            }
            if !merged.contains(v) && exists|i: int| 0 <= i < prs.len() && (#[trigger] prs[i]).1
                == v {
                let i = choose|i: int| 0 <= i < prs.len() && (#[trigger] prs[i]).1 == v;
                assert(i < prs.len() - 1);
                assert(prs.drop_last()[i].1 == v);
            }
        }
    }
}

/// The combined row count of a list of fragments, each fragment's rows given
/// by the `rows` model.
pub open spec fn sum_rows(fs: Seq<Seq<char>>, rows: Map<Seq<char>, nat>) -> nat
    decreases fs.len(),
{
    if fs.len() == 0 {
        0
    } else {
        sum_rows(fs.drop_last(), rows) + (if rows.dom().contains(fs.last()) {
            rows[fs.last()]
        } else {
            0
        })
    }
}

proof fn lemma_sum_rows_concat(a: Seq<Seq<char>>, b: Seq<Seq<char>>, rows: Map<Seq<char>, nat>)
    ensures
        sum_rows(a + b, rows) == sum_rows(a, rows) + sum_rows(b, rows),
    decreases b.len(),
{
    if b.len() == 0 {
        assert(a + b =~= a);
    } else {
        assert((a + b).drop_last() =~= a + b.drop_last());
        assert((a + b).last() == b.last());
        lemma_sum_rows_concat(a, b.drop_last(), rows);
    }
}

proof fn lemma_novel_all_merged(prs: Seq<(Seq<char>, Seq<char>)>, merged: Seq<Seq<char>>)
    requires
        forall|i: int| 0 <= i < prs.len() ==> merged.contains((#[trigger] prs[i]).1),
    ensures
        novel_spec(prs, merged).len() == 0,
    decreases prs.len(),
{
    if prs.len() > 0 {
        assert(merged.contains(prs[prs.len() - 1].1));
        assert forall|i: int| 0 <= i < prs.drop_last().len() implies merged.contains(
            (#[trigger] prs.drop_last()[i]).1,
        ) by {
            assert(prs.drop_last()[i] == prs[i]);
        }
        lemma_novel_all_merged(prs.drop_last(), merged);
    }
}

/// The novel fragments of distinct registrations are pairwise distinct: no
/// fragment is stacked twice within one run.
pub proof fn lemma_novel_distinct(prs: Seq<(Seq<char>, Seq<char>)>, merged: Seq<Seq<char>>)
    requires
        forall|i: int, j: int|
            0 <= i < j < prs.len() ==> (#[trigger] prs[i]).1 != (#[trigger] prs[j]).1,
    ensures
        forall|i: int, j: int|
            0 <= i < j < novel_spec(prs, merged).len() ==> novel_spec(prs, merged)[i]
                != novel_spec(prs, merged)[j],
    decreases prs.len(),
{
    if prs.len() > 0 {
        assert forall|i: int, j: int|
            0 <= i < j < prs.drop_last().len() implies (#[trigger] prs.drop_last()[i]).1 != (
        #[trigger] prs.drop_last()[j]).1 by {
            assert(prs.drop_last()[i] == prs[i]);
            assert(prs.drop_last()[j] == prs[j]);
        }
        lemma_novel_distinct(prs.drop_last(), merged);
        let rest = novel_spec(prs.drop_last(), merged);
        let v = prs.last().1;
        if !merged.contains(v) {
            assert(!rest.contains(v)) by {
                if rest.contains(v) {
                    lemma_novel_mem(prs.drop_last(), merged, v);
                    let i = choose|i: int|
                        0 <= i < prs.drop_last().len() && (#[trigger] prs.drop_last()[i]).1 == v;
                    assert(prs[i].1 == prs[prs.len() - 1].1);
                }
            }
            assert forall|i: int, j: int|
                0 <= i < j < rest.push(v).len() implies rest.push(v)[i] != rest.push(v)[j] by {
                if j < rest.len() {
                } else {
                    assert(rest.push(v)[j] == v);
                    assert(rest.push(v)[i] == rest[i]);
                    assert(rest[i] != v);
                }
            }
        }
    }
}

/// Merge completeness: after a consolidation run, every registered fragment
/// is in the merged set; nothing already merged is stacked again; the novel
/// fragments are pairwise distinct, so each is folded in exactly once; and
/// the merged set's combined row count grows by exactly the novel fragments'
/// rows — with the reference dataset holding the merged fragments' rows
/// before the run, it holds the new merged set's rows after it, with no
/// duplication and no loss.
pub proof fn lemma_merge_completeness(
    prs: Seq<(Seq<char>, Seq<char>)>,
    merged: Seq<Seq<char>>,
    rows: Map<Seq<char>, nat>,
)
    requires
        forall|i: int, j: int|
            0 <= i < j < prs.len() ==> (#[trigger] prs[i]).1 != (#[trigger] prs[j]).1,
    ensures
        forall|i: int|
            0 <= i < prs.len() ==> (merged + novel_spec(prs, merged)).contains(
                (#[trigger] prs[i]).1,
            ),
        forall|k: int|
            0 <= k < novel_spec(prs, merged).len() ==> !merged.contains(
                #[trigger] novel_spec(prs, merged)[k],
            ),
        forall|i: int, j: int|
            0 <= i < j < novel_spec(prs, merged).len() ==> novel_spec(prs, merged)[i]
                != novel_spec(prs, merged)[j],
        sum_rows(merged + novel_spec(prs, merged), rows) == sum_rows(merged, rows) + sum_rows(
            novel_spec(prs, merged),
            rows,
        ),
{
    let novel = novel_spec(prs, merged);
    let merged2 = merged + novel;
    assert forall|i: int| 0 <= i < prs.len() implies merged2.contains((#[trigger] prs[i]).1) by {
        let v = prs[i].1;
        if merged.contains(v) {
            let j = choose|j: int| 0 <= j < merged.len() && merged[j] == v;
            assert(merged2[j] == v);
        } else {
            lemma_novel_mem(prs, merged, v);
            assert(prs[i].1 == v);
            assert(novel.contains(v));
            let j = choose|j: int| 0 <= j < novel.len() && novel[j] == v;
            assert(merged2[merged.len() + j] == v);
        }
    }
    assert forall|k: int| 0 <= k < novel.len() implies !merged.contains(#[trigger] novel[k]) by {
        lemma_novel_mem(prs, merged, novel[k]);
    }
    lemma_novel_distinct(prs, merged);
    lemma_sum_rows_concat(merged, novel, rows);
}

/// Merge no-op: a consolidation run right after another, with no new
/// registration in between, finds no novel fragment, so it reports no change
/// and touches the reference dataset not at all.
pub proof fn lemma_merge_noop(prs: Seq<(Seq<char>, Seq<char>)>, merged: Seq<Seq<char>>)
    ensures
        novel_spec(prs, merged + novel_spec(prs, merged)).len() == 0,
{
    let novel = novel_spec(prs, merged);
    let merged2 = merged + novel;
    assert forall|i: int| 0 <= i < prs.len() implies merged2.contains((#[trigger] prs[i]).1) by {
        let v = prs[i].1;
        if merged.contains(v) {
            let j = choose|j: int| 0 <= j < merged.len() && merged[j] == v;
            assert(merged2[j] == v);
        } else {
            lemma_novel_mem(prs, merged, v);
            assert(prs[i].1 == v);
            assert(novel.contains(v));
            let j = choose|j: int| 0 <= j < novel.len() && novel[j] == v;
            assert(merged2[merged.len() + j] == v);
        }
    }
    lemma_novel_all_merged(prs, merged2);
}

/// Whether some element of `v` reads `s`.
pub fn contains_str(v: &Vec<String>, s: &str) -> (r: bool)
    ensures
        r == str_views(v@).contains(s@),
{
    let mut i: usize = 0;
    while i < v.len()
        invariant
            0 <= i <= v@.len(),
            forall|j: int| 0 <= j < i ==> (#[trigger] v@[j])@ != s@,
        decreases v@.len() - i,
    {
        if str_eq(v[i].as_str(), s) {
            proof {
                assert(str_views(v@)[i as int] == s@);
            }
            return true;
        }
        i = i + 1;
    }
    proof {
        assert forall|j: int| 0 <= j < str_views(v@).len() implies str_views(v@)[j] != s@ by {
            assert(v@[j]@ != s@);
        }
    }
    false
}

/// Computes the novel fragments of a run: the registered fragment paths not
/// yet marked merged, in registration order.
pub fn novel_fragments(pairs: &Vec<(String, String)>, merged: &Vec<String>) -> (r: Vec<String>)
    ensures
        str_views(r@) == novel_spec(crate::filehandlers::pair_views(pairs@), str_views(merged@)),
{
    let ghost prs = crate::filehandlers::pair_views(pairs@);
    let mut out: Vec<String> = Vec::new();
    let mut i: usize = 0;
    proof {
        assert(prs.take(0) =~= Seq::<(Seq<char>, Seq<char>)>::empty());
        assert(str_views(out@) =~= novel_spec(prs.take(0), str_views(merged@)));
    }
    while i < pairs.len()
        invariant
            0 <= i <= pairs@.len(),
            prs == crate::filehandlers::pair_views(pairs@),
            str_views(out@) =~= novel_spec(prs.take(i as int), str_views(merged@)),
        decreases pairs@.len() - i,
    {
        proof {
            assert(prs.take(i + 1).drop_last() =~= prs.take(i as int));
            assert(prs.take(i + 1).last() == (pairs@[i as int].0@, pairs@[i as int].1@));
        }
        if !contains_str(merged, pairs[i].1.as_str()) {
            let ghost prev = out@;
            out.push(pairs[i].1.clone());
            proof {
                assert(str_views(out@) =~= str_views(prev).push(pairs@[i as int].1@));
            }
        }
        i = i + 1;
    }
    proof {
        assert(prs.take(pairs@.len() as int) =~= prs);
    }
    out
}

/// What one consolidation run will do, decided from the two ledgers. The
/// order of the stacked fragments follows registration order; it is not a
/// guaranteed property of the on-disk row order.
pub struct ConsolidationPlan {
    /// The fragment whose copy becomes the initial reference dataset; present
    /// exactly when nothing was ever merged and a novel fragment exists.
    pub seed: Option<String>,
    /// The fragments to read and stack vertically onto the reference Table,
    /// each to be marked merged.
    pub stack: Vec<String>,
}

impl ConsolidationPlan {
    /// Whether the run changes the reference dataset at all.
    pub fn changed(&self) -> (r: bool)
        ensures
            r == (self.seed is Some || self.stack@.len() > 0),
    {
        self.seed.is_some() || self.stack.len() > 0
    }
}

/// Plans one consolidation run from the loaded registration mapping and the
/// loaded merged set. With no novel fragment the plan is empty: no reference
/// I/O happens at all. Otherwise, if nothing was ever merged, one novel
/// fragment seeds the reference dataset and the rest are stacked onto it;
/// else the reference is read back and every novel fragment is stacked.
pub fn consolidation_plan(pairs: &Vec<(String, String)>, merged: &Vec<String>) -> (r:
    ConsolidationPlan)
    ensures
        ({
            let novel = novel_spec(
                crate::filehandlers::pair_views(pairs@),
                str_views(merged@),
            );
            &&& novel.len() == 0 ==> r.seed is None && r.stack@.len() == 0
            &&& novel.len() > 0 && merged@.len() == 0 ==> (r.seed matches Some(s) && s@ == novel[0]
                && str_views(r.stack@) == novel.drop_first())
            &&& novel.len() > 0 && merged@.len() > 0 ==> r.seed is None && str_views(r.stack@)
                == novel
        }),
{
    let mut novel = novel_fragments(pairs, merged);
    if novel.len() == 0 {
        ConsolidationPlan { seed: None, stack: Vec::new() }
    } else if merged.len() == 0 {
        let ghost all = novel@;
        let seed = novel.remove(0);
        proof {
            assert(novel@ =~= all.drop_first());
            assert(str_views(novel@) =~= str_views(all).drop_first());
        }
        ConsolidationPlan { seed: Some(seed), stack: novel }
    } else {
        ConsolidationPlan { seed: None, stack: novel }
    }
}

} // verus!
