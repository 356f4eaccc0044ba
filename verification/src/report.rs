//! The report that the chart is drawn from.

use vstd::prelude::*;

use crate::bucket::{
    bucketize, chart_slices, ends_in_other, lemma_chart_keeps_rank_order, total_value, Slice,
};
use crate::rank::{is_ranked, is_ranking_of, rank};
use crate::style::PALETTE_SIZE;

verus! {

/// One project of a report, with the time that was spent on it.
#[derive(Clone, Debug, PartialEq, Eq)]
pub struct Project {
    pub name: String,
    /// Carried along; nothing in this crate reads them.
    pub tags: Vec<String>,
    /// Time spent on the project, in ticks.
    pub time: u64,
}

/// The period that a report covers, as the report states it.
#[derive(Clone, Debug, PartialEq, Eq)]
pub struct TimeSpan {
    pub from: String,
    pub to: String,
}

/// A time-tracking report.
#[derive(Clone, Debug, PartialEq, Eq)]
pub struct Report {
    pub projects: Vec<Project>,
    /// The overall time that the report states, in ticks. It is carried
    /// along and never compared with the projects' times.
    pub time: u64,
    pub timespan: TimeSpan,
}

/// The sum of the projects' times.
pub open spec fn total_time(s: Seq<Project>) -> nat
    decreases s.len(),
{
    if s.len() == 0 {
        0
    } else {
        total_time(s.drop_last()) + s.last().time as nat
    }
}

/// The total time of two sequences joined is the sum of their totals.
pub proof fn lemma_total_time_concat(a: Seq<Project>, b: Seq<Project>)
    ensures
        total_time(a + b) == total_time(a) + total_time(b),
    decreases b.len(),
{
    if b.len() == 0 {
        assert(a + b =~= a);
    } else {
        assert((a + b).drop_last() =~= a + b.drop_last());
        lemma_total_time_concat(a, b.drop_last());
    }
}

/// Taking one project out lowers the total time by that project's time.
proof fn lemma_total_time_remove(s: Seq<Project>, k: int)
    requires
        0 <= k < s.len(),
    ensures
        total_time(s) == total_time(s.remove(k)) + s[k].time,
{
    let head = s.subrange(0, k);
    let tail = s.subrange(k + 1, s.len() as int);
    let one = seq![s[k]];
    assert(s =~= head + one + tail);
    assert(s.remove(k) =~= head + tail);
    lemma_total_time_concat(head, one);
    lemma_total_time_concat(head + one, tail);
    lemma_total_time_concat(head, tail);
    assert(total_time(one) == s[k].time) by {
        assert(one.drop_last() =~= Seq::<Project>::empty());
        assert(total_time(one.drop_last()) == 0);
    }
}

/// The total time does not depend on the order of the projects.
pub proof fn lemma_total_time_of_permutation(a: Seq<Project>, b: Seq<Project>)
    requires
        a.to_multiset() == b.to_multiset(),
    ensures
        total_time(a) == total_time(b),
    decreases a.len(),
{
    vstd::seq_lib::to_multiset_len(a);
    vstd::seq_lib::to_multiset_len(b);
    if a.len() == 0 {
        assert(b =~= a);
    } else {
        let x = a.last();
        vstd::seq_lib::to_multiset_contains(a, x);
        vstd::seq_lib::to_multiset_contains(b, x);
        assert(a.contains(x));
        let k = choose|k: int| 0 <= k < b.len() && b[k] == x;
        assert(a.drop_last() =~= a.remove(a.len() - 1));
        vstd::seq_lib::to_multiset_remove(a, a.len() - 1);
        vstd::seq_lib::to_multiset_remove(b, k);
        lemma_total_time_of_permutation(a.drop_last(), b.remove(k));
        lemma_total_time_remove(b, k);
    }
}

impl Report {
    /// Ranks the projects by time, longest first. Projects with equal times
    /// keep the order they had. Nothing else in the report changes.
    pub fn sort_projects(&mut self)
        ensures
            is_ranked(final(self).projects@),
            is_ranking_of(final(self).projects@, old(self).projects@),
            final(self).time == old(self).time,
            final(self).timespan == old(self).timespan,
    {
        rank(&mut self.projects);
    }

    /// Ranks the projects, as `sort_projects` does, and cuts the ranking into
    /// the slices of the chart.
    ///
    /// The slices account for all the time of the report's projects. Those
    /// that show one project each come in descending order of value; a
    /// closing "other" slice stands outside that order.
    pub fn summarize(&mut self) -> (slices: Vec<Slice>)
        ensures
            is_ranking_of(final(self).projects@, old(self).projects@),
            final(self).time == old(self).time,
            final(self).timespan == old(self).timespan,
            slices.deep_view() == chart_slices(final(self).projects@),
            total_value(slices.deep_view()) == total_time(old(self).projects@),
            forall|i: int, j: int|
                0 <= i <= j < slices.len() && !(ends_in_other(final(self).projects@) && j
                    == PALETTE_SIZE) ==> slices[i].value >= slices[j].value,
    {
        self.sort_projects();
        let slices = bucketize(&self.projects);
        proof {
            let ranked = self.projects@;
            lemma_total_time_of_permutation(ranked, old(self).projects@);
            lemma_chart_keeps_rank_order(ranked);
            assert forall|i: int, j: int|
                0 <= i <= j < slices.len() && !(ends_in_other(self.projects@) && j
                    == PALETTE_SIZE) implies slices[i].value >= slices[j].value by {
                assert(slices.deep_view()[i] == slices[i]@);
                assert(slices.deep_view()[j] == slices[j]@);
            }
        }
        slices
    }
}

} // verus!
