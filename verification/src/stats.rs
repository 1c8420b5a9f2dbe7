//! What became of all images together.

use crate::image::ImageResult;
use vstd::prelude::*;

verus! {

/// The outcome of a run.
#[derive(Clone, Copy, Debug, PartialEq, Eq, Structural)]
pub struct Summary {
    pub total: usize,
    pub success: usize,
    pub failed: usize,
    pub total_original: u64,
    pub total_compressed: u64,
    pub total_saved: u64,
}

/// How many of the images were compressed.
pub open spec fn success_count(results: Seq<ImageResult>) -> nat {
    results.filter(|r: ImageResult| r.ok).len()
}

/// The sizes of the images before they were compressed, added up.
pub open spec fn original_sum(results: Seq<ImageResult>) -> nat
    decreases results.len(),
{
    if results.len() == 0 {
        0
    } else {
        original_sum(results.drop_last()) + results.last().original_size as nat
    }
}

/// The sizes of the images after they were compressed, added up.
pub open spec fn compressed_sum(results: Seq<ImageResult>) -> nat
    decreases results.len(),
{
    if results.len() == 0 {
        0
    } else {
        compressed_sum(results.drop_last()) + results.last().compressed_size as nat
    }
}

/// Both sums fit, and what was saved is not negative.
pub open spec fn can_summarize(results: Seq<ImageResult>) -> bool {
    original_sum(results) <= u64::MAX && compressed_sum(results) <= original_sum(results)
}

/// The outcome of a run.
pub open spec fn summary_of(results: Seq<ImageResult>) -> Summary {
    Summary {
        total: results.len() as usize,
        success: success_count(results) as usize,
        failed: (results.len() - success_count(results)) as usize,
        total_original: original_sum(results) as u64,
        total_compressed: compressed_sum(results) as u64,
        total_saved: (original_sum(results) - compressed_sum(results)) as u64,
    }
}

proof fn lemma_sums_bounded(results: Seq<ImageResult>)
    ensures
        original_sum(results) <= results.len() * u64::MAX,
        compressed_sum(results) <= results.len() * u64::MAX,
    decreases results.len(),
{
    if results.len() > 0 {
        lemma_sums_bounded(results.drop_last());
        assert((results.len() - 1) * u64::MAX + u64::MAX == results.len() * u64::MAX)
            by (nonlinear_arith);
    }
}

fn sums(results: &Vec<ImageResult>) -> (r: (usize, u128, u128))
    ensures
        r.0 == success_count(results@),
        r.0 <= results@.len(),
        r.1 == original_sum(results@),
        r.2 == compressed_sum(results@),
{
    let ghost ok = |r: ImageResult| r.ok;
    let mut success: usize = 0;
    let mut original: u128 = 0;
    let mut compressed: u128 = 0;
    let mut i: usize = 0;
    proof {
        reveal(Seq::filter);
    }
    assert(results@.take(0) =~= Seq::<ImageResult>::empty());
    while i < results.len()
        invariant
            success <= i <= results.len(),
            ok == (|r: ImageResult| r.ok),
            success == results@.take(i as int).filter(ok).len(),
            original == original_sum(results@.take(i as int)),
            compressed == compressed_sum(results@.take(i as int)),
        decreases results.len() - i,
    {
        proof {
            let done = results@.take(i as int);
            let more = results@.take(i + 1);
            assert(more =~= done.push(results@[i as int]));
            assert(more.drop_last() =~= done);
            done.lemma_filter_push(results@[i as int], ok);
            lemma_sums_bounded(done);
            assert(done.len() * u64::MAX <= 0xffff_ffff_ffff_ffff * 0xffff_ffff_ffff_ffff)
                by (nonlinear_arith)
                requires
                    done.len() <= 0xffff_ffff_ffff_ffff,
            ;
        }
        if results[i].ok {
            success = success + 1;
        }
        original = original + results[i].original_size as u128;
        compressed = compressed + results[i].compressed_size as u128;
        i = i + 1;
    }
    assert(results@.take(i as int) =~= results@);
    (success, original, compressed)
}

/// Sums up the results of a run.
pub fn summarize(results: &Vec<ImageResult>) -> (summary: Summary)
    requires
        can_summarize(results@),
    ensures
        summary == summary_of(results@),
{
    let (success, original, compressed) = sums(results);
    let total = results.len();
    let total_original = original as u64;
    let total_compressed = compressed as u64;
    Summary {
        total,
        success,
        failed: total - success,
        total_original,
        total_compressed,
        total_saved: total_original - total_compressed,
    }
}

/// Sums up the results of a run, where their sums fit and nothing negative was saved.
pub fn checked_summarize(results: &Vec<ImageResult>) -> (summary: Option<Summary>)
    ensures
        summary == if can_summarize(results@) {
            Some(summary_of(results@))
        } else {
            None
        },
{
    let (_, original, compressed) = sums(results);
    if original <= 0xffff_ffff_ffff_ffff && compressed <= original {
        Some(summarize(results))
    } else {
        None
    }
}

/// The places of the results that are failures, in their order.
pub open spec fn failures(results: Seq<ImageResult>, n: int) -> Seq<usize>
    decreases n,
{
    if n <= 0 {
        seq![]
    } else if results[n - 1].ok {
        failures(results, n - 1)
    } else {
        failures(results, n - 1).push((n - 1) as usize)
    }
}

/// The places of the results that are failures, in their order.
pub fn failed_results(results: &Vec<ImageResult>) -> (places: Vec<usize>)
    ensures
        places@ == failures(results@, results@.len() as int),
{
    let mut places: Vec<usize> = Vec::new();
    let mut i: usize = 0;
    while i < results.len()
        invariant
            i <= results.len(),
            places@ =~= failures(results@, i as int),
        decreases results.len() - i,
    {
        if !results[i].ok {
            places.push(i);
        }
        i = i + 1;
    }
    places
}

proof fn lemma_success_at_most_all(results: Seq<ImageResult>)
    ensures
        success_count(results) <= results.len(),
{
    results.lemma_filter_len(|r: ImageResult| r.ok);
}

/// Every image counts as a success or as a failure, and what was saved and what is left make up
/// the original size.
pub proof fn law_summary_adds_up(results: Seq<ImageResult>)
    requires
        can_summarize(results),
        results.len() <= usize::MAX,
    ensures
        summary_of(results).success + summary_of(results).failed == summary_of(results).total,
        summary_of(results).total == results.len(),
        summary_of(results).total_saved + summary_of(results).total_compressed == summary_of(
            results,
        ).total_original,
{
    lemma_success_at_most_all(results);
}

/// The results that are listed as failures are exactly those that failed, as many as the summary
/// counts.
pub proof fn law_failures_are_listed(results: Seq<ImageResult>, n: int, i: int)
    requires
        0 <= n <= results.len(),
        results.len() <= usize::MAX,
    ensures
        failures(results, n).len() == n - success_count(results.take(n)),
        0 <= i < n ==> (failures(results, n).contains(i as usize) <==> !results[i].ok),
        forall|j: int| 0 <= j < failures(results, n).len() ==> 0 <= #[trigger] failures(
            results,
            n,
        )[j] < n,
    decreases n,
{
    reveal(Seq::filter);
    let ok = |r: ImageResult| r.ok;
    if n > 0 {
        law_failures_are_listed(results, n - 1, i);
        let before = failures(results, n - 1);
        let done = results.take(n - 1);
        assert(results.take(n) =~= done.push(results[n - 1]));
        done.lemma_filter_push(results[n - 1], ok);
        if !results[n - 1].ok {
            let after = failures(results, n);
            assert(after[after.len() - 1] == (n - 1) as usize);
            if 0 <= i < n - 1 && before.contains(i as usize) {
                let j = choose|j: int| 0 <= j < before.len() && before[j] == i as usize;
                assert(after[j] == i as usize);
            }
            if 0 <= i < n - 1 && after.contains(i as usize) {
                let j = choose|j: int| 0 <= j < after.len() && after[j] == i as usize;
                assert(before[j] == i as usize);
            }
        } else if i == n - 1 && before.contains(i as usize) {
            let j = choose|j: int| 0 <= j < before.len() && before[j] == i as usize;
            assert(before[j] < n - 1);
        }
    } else {
        assert(results.take(0) =~= Seq::<ImageResult>::empty());
    }
}

/// One more result counts in the summary for what it is: one image more, a success or a failure,
/// with its size before and its size after. Of no results nothing is counted.
pub proof fn law_each_result_counts(results: Seq<ImageResult>, r: ImageResult)
    ensures
        success_count(seq![]) == 0,
        original_sum(seq![]) == 0,
        compressed_sum(seq![]) == 0,
        success_count(results.push(r)) == success_count(results) + (if r.ok {
            1int
        } else {
            0
        }),
        original_sum(results.push(r)) == original_sum(results) + r.original_size,
        compressed_sum(results.push(r)) == compressed_sum(results) + r.compressed_size,
{
    reveal(Seq::filter);
    results.lemma_filter_push(r, |r: ImageResult| r.ok);
    assert(results.push(r).drop_last() =~= results);
}

/// A summary is made exactly if the sizes before fit in 64 bits and those after are no more; it
/// gives the count of all images, of the compressed ones and of the others, both sums, and what
/// the one is larger than the other.
pub proof fn law_summary_is_of_the_results(results: Seq<ImageResult>)
    requires
        results.len() <= usize::MAX,
    ensures
        can_summarize(results) <==> original_sum(results) <= 0xffff_ffff_ffff_ffff
            && compressed_sum(results) <= original_sum(results),
        can_summarize(results) ==> {
            let summary = summary_of(results);
            &&& summary.total == results.len()
            &&& summary.success == results.filter(|r: ImageResult| r.ok).len()
            &&& summary.failed == results.len() - results.filter(|r: ImageResult| r.ok).len()
            &&& summary.total_original == results.fold_left(
                0int,
                |sum: int, r: ImageResult| sum + r.original_size,
            )
            &&& summary.total_compressed == results.fold_left(
                0int,
                |sum: int, r: ImageResult| sum + r.compressed_size,
            )
            &&& summary.total_saved == summary.total_original - summary.total_compressed
        },
{
    lemma_success_at_most_all(results);
    lemma_sums_are_folds(results);
}

proof fn lemma_sums_are_folds(results: Seq<ImageResult>)
    ensures
        original_sum(results) == results.fold_left(
            0int,
            |sum: int, r: ImageResult| sum + r.original_size,
        ),
        compressed_sum(results) == results.fold_left(
            0int,
            |sum: int, r: ImageResult| sum + r.compressed_size,
        ),
    decreases results.len(),
{
    if results.len() > 0 {
        lemma_sums_are_folds(results.drop_last());
    }
}

/// The results that are listed as failures come in their order, each once.
pub proof fn law_failures_in_order(results: Seq<ImageResult>, n: int, a: int, b: int)
    requires
        0 <= n <= results.len(),
        results.len() <= usize::MAX,
        0 <= a < b < failures(results, n).len(),
    ensures
        failures(results, n)[a] < failures(results, n)[b] < n,
        !results[failures(results, n)[a] as int].ok,
        !results[failures(results, n)[b] as int].ok,
    decreases n,
{
    law_failures_are_listed(results, n, 0);
    if n > 0 {
        let before = failures(results, n - 1);
        law_failures_are_listed(results, n - 1, 0);
        if b < before.len() {
            law_failures_in_order(results, n - 1, a, b);
        } else {
            lemma_failure_failed(results, n - 1, a);
        }
    }
}

proof fn lemma_failure_failed(results: Seq<ImageResult>, n: int, a: int)
    requires
        0 <= n <= results.len(),
        results.len() <= usize::MAX,
        0 <= a < failures(results, n).len(),
    ensures
        0 <= failures(results, n)[a] < n,
        !results[failures(results, n)[a] as int].ok,
    decreases n,
{
    if n > 0 && a < failures(results, n - 1).len() {
        lemma_failure_failed(results, n - 1, a);
    }
}

/// What the summary says of the results: how many there are, how many succeeded and how many did
/// not, what their sizes add up to before and after, and what the one is larger than the other;
/// there is none if the sizes before do not fit in 64 bits or are less than those after.
pub proof fn law_what_is_summarized(results: Vec<ImageResult>, summary: Option<Summary>)
    requires
        call_ensures(checked_summarize, (&results,), summary),
    ensures
        ({
            let before = results@.fold_left(
                0int,
                |sum: int, r: ImageResult| sum + r.original_size,
            );
            let after = results@.fold_left(
                0int,
                |sum: int, r: ImageResult| sum + r.compressed_size,
            );
            let good = results@.filter(|r: ImageResult| r.ok).len();
            &&& summary is None <==> before > 0xffff_ffff_ffff_ffff || after > before
            &&& summary matches Some(s) ==> {
                &&& s.total == results@.len()
                &&& s.success == good
                &&& s.failed == results@.len() - good
                &&& s.total_original == before
                &&& s.total_compressed == after
                &&& s.total_saved == before - after
            }
        }),
{
    vstd::std_specs::vec::axiom_spec_len(&results);
    law_summary_is_of_the_results(results@);
    lemma_sums_are_folds(results@);
}

/// The places that are listed are those of the results that are no success.
pub proof fn law_what_is_listed_as_failed(
    results: Vec<ImageResult>,
    places: Vec<usize>,
    i: usize,
)
    requires
        call_ensures(failed_results, (&results,), places),
        i < results@.len(),
    ensures
        places@.contains(i) <==> !results@[i as int].ok,
{
    vstd::std_specs::vec::axiom_spec_len(&results);
    law_failures_are_listed(results@, results@.len() as int, i as int);
}

} // verus!
