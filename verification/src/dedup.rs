//! De-duplication of a candidate list, with an optional existence filter.

use vstd::prelude::*;

use crate::listops::join_list;
use crate::listops::split_list;
use crate::model::dedup_spec;
use crate::model::effective_keep;
use crate::model::filter_spec;
use crate::model::join_spec;
use crate::model::split_spec;

verus! {

/// What became of one candidate during a processing pass.
#[derive(Clone, Copy, Debug, PartialEq, Eq, Structural)]
pub enum Verdict {
    /// The entry was appended to the output.
    Kept,
    /// The existence filter was on and the entry's existence flag was unset.
    SkippedMissing,
    /// An equal entry already stood in the output.
    SkippedDuplicate,
}

/// The verdict on entry `i` of `s` under the flags `keep`: the flag is
/// consulted first, then membership in the output built so far.
pub open spec fn verdict_spec(s: Seq<Seq<char>>, keep: Seq<bool>, i: int) -> Verdict
    recommends
        0 <= i < s.len(),
        s.len() == keep.len(),
{
    if !keep[i] {
        Verdict::SkippedMissing
    } else if dedup_spec(filter_spec(s.take(i), keep.take(i))).contains(s[i]) {
        Verdict::SkippedDuplicate
    } else {
        Verdict::Kept
    }
}

/// The result of one processing pass: the retained entries in order, and for
/// each candidate what became of it.
pub struct Outcome {
    pub kept: Vec<String>,
    pub verdicts: Vec<Verdict>,
}

impl Outcome {
    /// The counts are consistent: no more entries retained than seen.
    pub open spec fn wf(self) -> bool {
        self.kept@.len() <= self.verdicts@.len()
    }

    /// How many candidates the pass saw.
    pub fn original_count(&self) -> (n: usize)
        ensures
            n == self.verdicts@.len(),
    {
        self.verdicts.len()
    }

    /// How many entries the pass retained.
    pub fn kept_count(&self) -> (n: usize)
        ensures
            n == self.kept@.len(),
    {
        self.kept.len()
    }

    /// How many candidates were dropped: what was seen minus what remains.
    pub fn removed_count(&self) -> (n: usize)
        requires
            self.wf(),
        ensures
            n == self.verdicts@.len() - self.kept@.len(),
    {
        self.verdicts.len() - self.kept.len()
    }
}

/// Whether an entry equal to `x` stands in `v`.
fn contains_string(v: &Vec<String>, x: &String) -> (r: bool)
    ensures
        r == v.deep_view().contains(x@),
{
    let mut j: usize = 0;
    while j < v.len()
        invariant
            j <= v@.len(),
            forall|k: int| 0 <= k < j ==> v.deep_view()[k] != x@,
        decreases v@.len() - j,
    {
        if x.eq(&v[j]) {
            proof {
                assert(v.deep_view()[j as int] == x@);
            }
            return true;
        }
        j += 1;
    }
    proof {
        assert(!v.deep_view().contains(x@));
    }
    false
}

/// One processing pass as the tool performs it: walk the candidates in
/// order; when the existence filter is on, drop an entry whose flag is
/// unset; otherwise drop it when an equal entry was already retained;
/// otherwise retain it.
pub fn process(candidates: &Vec<String>, require_exists: bool, exists: &Vec<bool>) -> (r: Outcome)
    requires
        exists@.len() == candidates@.len(),
    ensures
        r.kept.deep_view() == dedup_spec(
            filter_spec(candidates.deep_view(), effective_keep(require_exists, exists@)),
        ),
        r.verdicts@.len() == candidates@.len(),
        forall|i: int|
            0 <= i < candidates@.len() ==> r.verdicts@[i] == verdict_spec(
                candidates.deep_view(),
                effective_keep(require_exists, exists@),
                i,
            ),
        r.wf(),
        r.kept@.len() <= candidates@.len(),
{
    let ghost cand = candidates.deep_view();
    let ghost keep = effective_keep(require_exists, exists@);
    let mut kept: Vec<String> = Vec::new();
    let mut verdicts: Vec<Verdict> = Vec::new();
    let mut i: usize = 0;
    while i < candidates.len()
        invariant
            i <= candidates@.len(),
            exists@.len() == candidates@.len(),
            cand == candidates.deep_view(),
            keep == effective_keep(require_exists, exists@),
            kept.deep_view() == dedup_spec(filter_spec(cand.take(i as int), keep.take(i as int))),
            verdicts@.len() == i,
            forall|k: int| 0 <= k < i ==> verdicts@[k] == verdict_spec(cand, keep, k),
            kept@.len() <= i,
        decreases candidates@.len() - i,
    {
        proof {
            assert(cand.take(i + 1).drop_last() =~= cand.take(i as int));
            assert(keep.take(i + 1).drop_last() =~= keep.take(i as int));
            assert(cand.take(i + 1).last() == cand[i as int]);
            assert(keep.take(i + 1).last() == keep[i as int]);
        }
        let keep_this = if require_exists {
            exists[i]
        } else {
            true
        };
        proof {
            assert(keep_this == keep[i as int]);
            let f = filter_spec(cand.take(i as int), keep.take(i as int));
            let c = cand[i as int];
            assert(f.push(c).drop_last() =~= f);
            assert(f.push(c).last() == c);
            if keep[i as int] {
                assert(filter_spec(cand.take(i + 1), keep.take(i + 1)) == f.push(c));
            } else {
                assert(filter_spec(cand.take(i + 1), keep.take(i + 1)) == f);
            }
        }
        if !keep_this {
            verdicts.push(Verdict::SkippedMissing);
        } else if contains_string(&kept, &candidates[i]) {
            verdicts.push(Verdict::SkippedDuplicate);
        } else {
            let ghost old_kept = kept.deep_view();
            kept.push(candidates[i].clone());
            proof {
                assert(kept.deep_view() =~= old_kept.push(cand[i as int]));
            }
            verdicts.push(Verdict::Kept);
        }
        i += 1;
    }
    proof {
        assert(cand.take(candidates@.len() as int) =~= cand);
        assert(keep.take(candidates@.len() as int) =~= keep);
    }
    Outcome { kept, verdicts }
}

/// De-duplicate alone, no filter: keep the first occurrence of each entry.
pub fn dedup_list(candidates: &Vec<String>) -> (kept: Vec<String>)
    ensures
        kept.deep_view() == dedup_spec(candidates.deep_view()),
{
    let ghost cand = candidates.deep_view();
    let mut kept: Vec<String> = Vec::new();
    let mut i: usize = 0;
    while i < candidates.len()
        invariant
            i <= candidates@.len(),
            cand == candidates.deep_view(),
            kept.deep_view() == dedup_spec(cand.take(i as int)),
        decreases candidates@.len() - i,
    {
        proof {
            assert(cand.take(i + 1).drop_last() =~= cand.take(i as int));
            assert(cand.take(i + 1).last() == cand[i as int]);
        }
        if !contains_string(&kept, &candidates[i]) {
            let ghost old_kept = kept.deep_view();
            kept.push(candidates[i].clone());
            proof {
                assert(kept.deep_view() =~= old_kept.push(cand[i as int]));
            }
        }
        i += 1;
    }
    proof {
        assert(cand.take(candidates@.len() as int) =~= cand);
    }
    kept
}

/// The whole pass on a raw value with the existence filter off: split on
/// `sep`, de-duplicate keeping first occurrences, re-join with `sep`.
pub fn dedupe_value(raw: &str, sep: char) -> (out: String)
    ensures
        out@ == join_spec(dedup_spec(split_spec(raw@, sep)), sep),
{
    let parts = split_list(raw, sep);
    let kept = dedup_list(&parts);
    join_list(&kept, sep)
}

} // verus!
