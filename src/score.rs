//! The normalised score of a match: the share of keys in each category of
//! difference, and their sum. A match over no keys at all has no differences
//! and scores zero.
use vstd::prelude::*;
use crate::matching::{diff_views, Difference, DifferenceView, MatchResourcesResult};

verus! {

/// The category of a difference, 0 to 3 in declaration order.
pub open spec fn kind_of(d: DifferenceView) -> int {
    match d {
        DifferenceView::OnlyExistsInDataDir(..) => 0,
        DifferenceView::OnlyExistsInPack(..) => 1,
        DifferenceView::FileSizeMismatch(..) => 2,
        DifferenceView::HashMismatch(..) => 3,
    }
}

/// How many of the first `n` differences fall in category `kind`.
pub open spec fn count_below(ds: Seq<DifferenceView>, kind: int, n: int) -> nat
    decreases n,
{
    if n <= 0 || n > ds.len() {
        0
    } else {
        count_below(ds, kind, n - 1) + if kind_of(ds[n - 1]) == kind {
            1nat
        } else {
            0nat
        }
    }
}

/// How many differences fall in category `kind`.
pub open spec fn count_kind(ds: Seq<DifferenceView>, kind: int) -> nat {
    count_below(ds, kind, ds.len() as int)
}

/// A score as a fraction (numerator, positive denominator): `diffs / keys`,
/// or zero where there are no keys.
pub open spec fn score_fraction(diffs: int, keys: int) -> (int, int) {
    if keys == 0 {
        (0, 1)
    } else {
        (diffs, keys)
    }
}

/// The total score of a match result.
pub open spec fn result_score(m: MatchResourcesResult) -> (int, int) {
    score_fraction(m.differences@.len() as int, m.number_of_resources as int)
}

/// Whether score `a` is strictly lower than score `b`.
pub open spec fn score_less(a: (int, int), b: (int, int)) -> bool {
    a.0 * b.1 < b.0 * a.1
}

/// The counts behind a match's percentages: each category's share is its
/// count over `number_of_resources`, and the total is their sum.
pub struct Percentages {
    pub only_exists_in_data_dir: usize,
    pub only_exists_in_pack: usize,
    pub file_size_mismatch: usize,
    pub hash_mismatch: usize,
    pub number_of_resources: usize,
}

impl Percentages {
    /// The number of differences over all categories.
    pub open spec fn total_count(&self) -> int {
        self.only_exists_in_data_dir + self.only_exists_in_pack + self.file_size_mismatch
            + self.hash_mismatch
    }

    /// The counts fit a machine word together.
    pub open spec fn wf(&self) -> bool {
        self.total_count() <= usize::MAX
    }

    /// The total score.
    pub open spec fn score(&self) -> (int, int) {
        score_fraction(self.total_count(), self.number_of_resources as int)
    }

    /// Counts the differences of `result` by category.
    pub fn from(result: &MatchResourcesResult) -> (p: Percentages)
        ensures
            p.wf(),
            p.number_of_resources == result.number_of_resources,
            p.only_exists_in_data_dir == count_kind(diff_views(result.differences@), 0),
            p.only_exists_in_pack == count_kind(diff_views(result.differences@), 1),
            p.file_size_mismatch == count_kind(diff_views(result.differences@), 2),
            p.hash_mismatch == count_kind(diff_views(result.differences@), 3),
            p.total_count() == result.differences@.len(),
            p.score() == result_score(*result),
    {
        let ds = &result.differences;
        let ghost dv = diff_views(ds@);
        let mut c0: usize = 0;
        let mut c1: usize = 0;
        let mut c2: usize = 0;
        let mut c3: usize = 0;
        let mut i: usize = 0;
        while i < ds.len()
            invariant
                i <= ds@.len(),
                dv == diff_views(ds@),
                c0 == count_below(dv, 0, i as int),
                c1 == count_below(dv, 1, i as int),
                c2 == count_below(dv, 2, i as int),
                c3 == count_below(dv, 3, i as int),
                c0 + c1 + c2 + c3 == i,
            decreases ds@.len() - i,
        {
            assert(dv[i as int] == ds@[i as int]@);
            match &ds[i] {
                Difference::OnlyExistsInDataDir(..) => c0 = c0 + 1,
                Difference::OnlyExistsInPack(..) => c1 = c1 + 1,
                Difference::FileSizeMismatch(..) => c2 = c2 + 1,
                Difference::HashMismatch(..) => c3 = c3 + 1,
            }
            i = i + 1;
        }
        Percentages {
            only_exists_in_data_dir: c0,
            only_exists_in_pack: c1,
            file_size_mismatch: c2,
            hash_mismatch: c3,
            number_of_resources: result.number_of_resources,
        }
    }

    /// Whether this total score is strictly lower than `other`'s.
    pub fn is_less_than(&self, other: &Percentages) -> (r: bool)
        requires
            self.wf(),
            other.wf(),
        ensures
            r == score_less(self.score(), other.score()),
    {
        let a = self.total_numerator();
        let b = other.total_numerator();
        let da: u128 = if self.number_of_resources == 0 { 1 } else { self.number_of_resources as u128 };
        let db: u128 = if other.number_of_resources == 0 { 1 } else { other.number_of_resources as u128 };
        assert(a * db <= 0xffff_ffff_ffff_ffff * 0xffff_ffff_ffff_ffffu128) by (nonlinear_arith)
            requires a <= 0xffff_ffff_ffff_ffffu128, db <= 0xffff_ffff_ffff_ffffu128;
        assert(b * da <= 0xffff_ffff_ffff_ffff * 0xffff_ffff_ffff_ffffu128) by (nonlinear_arith)
            requires b <= 0xffff_ffff_ffff_ffffu128, da <= 0xffff_ffff_ffff_ffffu128;
        a * db < b * da
    }

    /// The numerator of the total score.
    fn total_numerator(&self) -> (r: u128)
        requires
            self.wf(),
        ensures
            r == self.score().0,
            r <= usize::MAX,
    {
        if self.number_of_resources == 0 {
            0
        } else {
            self.only_exists_in_data_dir as u128 + self.only_exists_in_pack as u128
                + self.file_size_mismatch as u128 + self.hash_mismatch as u128
        }
    }
}

} // verus!
