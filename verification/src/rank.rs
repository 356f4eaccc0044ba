//! Ranking projects by the time spent on them, longest first.

use vstd::prelude::*;

use crate::report::Project;

verus! {

/// No project comes before one with a longer time.
pub open spec fn is_ranked(s: Seq<Project>) -> bool {
    forall|i: int, j: int| 0 <= i <= j < s.len() ==> s[i].time >= s[j].time
}

/// The test that picks the projects whose time is `t`.
pub open spec fn has_time(t: u64) -> spec_fn(Project) -> bool {
    |p: Project| p.time == t
}

/// `r` holds the projects of `s`, each as often as `s` does, longest time
/// first, and those of equal time in the order in which `s` has them.
pub open spec fn is_ranking_of(r: Seq<Project>, s: Seq<Project>) -> bool {
    &&& is_ranked(r)
    &&& r.to_multiset() == s.to_multiset()
    &&& forall|t: u64| #[trigger] r.filter(has_time(t)) == s.filter(has_time(t))
}

/// Where the project at `i` belongs among those before it: behind every
/// project that is at least as long, in front of the shorter ones.
fn insertion_point(projects: &Vec<Project>, i: usize) -> (j: usize)
    requires
        i < projects.len(),
        is_ranked(projects@.take(i as int)),
    ensures
        j <= i,
        forall|k: int| 0 <= k < j ==> projects[k].time >= projects[i as int].time,
        forall|k: int| j <= k < i ==> projects[k].time < projects[i as int].time,
{
    let time: u64 = projects[i].time;
    let mut j: usize = i;
    while j > 0 && projects[j - 1].time < time
        invariant
            j <= i < projects.len(),
            time == projects[i as int].time,
            forall|k: int| j <= k < i ==> projects[k].time < time,
        decreases j,
    {
        j -= 1;
    }
    assert forall|k: int| 0 <= k < j implies projects[k].time >= time by {
        let before = projects@.take(i as int);
        assert(before[k].time >= before[j - 1].time);
    }
    j
}

/// The sequence `s` after its project at `i` has been taken out and put
/// back at `j`.
spec fn moved(s: Seq<Project>, i: int, j: int) -> Seq<Project> {
    s.remove(i).insert(j, s[i])
}

/// A sequence none of whose projects has time `t` holds nothing to pick.
proof fn lemma_none_with_time(s: Seq<Project>, t: u64)
    requires
        forall|k: int| 0 <= k < s.len() ==> s[k].time != t,
    ensures
        s.filter(has_time(t)) == Seq::<Project>::empty(),
{
    let pred = has_time(t);
    assert(s.all(|p: Project| !pred(p)));
    s.lemma_all_neg_filter_empty(pred);
}

/// Moving a project forward past projects of other times changes neither
/// which projects there are nor the order among projects of equal time.
proof fn lemma_move_keeps_projects(s: Seq<Project>, i: int, j: int)
    requires
        0 <= j <= i < s.len(),
        forall|k: int| j <= k < i ==> s[k].time != s[i].time,
    ensures
        moved(s, i, j).to_multiset() == s.to_multiset(),
        forall|t: u64| #[trigger] moved(s, i, j).filter(has_time(t)) == s.filter(has_time(t)),
{
    let x = s[i];
    let head = s.subrange(0, j);
    let passed = s.subrange(j, i);
    let tail = s.subrange(i + 1, s.len() as int);
    let one = seq![x];
    assert(s =~= head + passed + one + tail);
    assert(moved(s, i, j) =~= head + one + passed + tail);

    assert(moved(s, i, j).to_multiset() == s.to_multiset()) by {
        broadcast use vstd::multiset::group_multiset_axioms;
        vstd::seq_lib::to_multiset_remove(s, i);
        vstd::seq_lib::to_multiset_insert(s.remove(i), j, x);
        vstd::seq_lib::to_multiset_contains(s, x);
        assert(s.contains(x));
        assert(s.to_multiset().remove(x).insert(x) =~= s.to_multiset());
    }

    assert forall|t: u64|
        #[trigger] moved(s, i, j).filter(has_time(t)) == s.filter(has_time(t)) by {
        let pred = has_time(t);
        Seq::filter_distributes_over_add(head, passed, pred);
        Seq::filter_distributes_over_add(head + passed, one, pred);
        Seq::filter_distributes_over_add(head + passed + one, tail, pred);
        Seq::filter_distributes_over_add(head, one, pred);
        Seq::filter_distributes_over_add(head + one, passed, pred);
        Seq::filter_distributes_over_add(head + one + passed, tail, pred);
        if x.time == t {
            lemma_none_with_time(passed, t);
        } else {
            lemma_none_with_time(one, t);
        }
        assert(head.filter(pred) + passed.filter(pred) + one.filter(pred) =~= head.filter(pred)
            + one.filter(pred) + passed.filter(pred));
    }
}

/// Moving the project at `i` to its insertion point `j` extends the ranked
/// prefix by one.
proof fn lemma_move_extends_ranked(s: Seq<Project>, i: int, j: int)
    requires
        0 <= j <= i < s.len(),
        is_ranked(s.take(i)),
        forall|k: int| 0 <= k < j ==> s[k].time >= s[i].time,
        forall|k: int| j <= k < i ==> s[k].time < s[i].time,
    ensures
        is_ranked(moved(s, i, j).take(i + 1)),
{
    let before = s.take(i);
    let after = moved(s, i, j).take(i + 1);
    assert forall|a: int, b: int| 0 <= a <= b < after.len() implies after[a].time
        >= after[b].time by {
        if a < j && b < j {
            assert(after[a] == before[a] && after[b] == before[b]);
        } else if a < j && b == j {
            assert(after[a] == s[a] && after[b] == s[i]);
        } else if a < j {
            assert(after[a] == before[a] && after[b] == before[b - 1]);
        } else if a == j && b == j {
        } else if a == j {
            assert(after[a] == s[i] && after[b] == s[b - 1]);
        } else {
            assert(after[a] == before[a - 1] && after[b] == before[b - 1]);
        }
    }
}

/// Ranks the projects by time, longest first. Projects with equal times keep
/// the order they had.
///
/// The projects are ranked in place by insertion, which takes one pass over
/// projects that are ranked already.
pub fn rank(projects: &mut Vec<Project>)
    ensures
        is_ranked(final(projects)@),
        is_ranking_of(final(projects)@, old(projects)@),
{
    let ghost given = projects@;
    let n: usize = projects.len();
    let mut i: usize = 0;
    while i < n
        invariant
            i <= n == projects.len(),
            is_ranked(projects@.take(i as int)),
            projects@.to_multiset() == given.to_multiset(),
            forall|t: u64| #[trigger] projects@.filter(has_time(t)) == given.filter(has_time(t)),
        decreases n - i,
    {
        let ghost before = projects@;
        let j: usize = insertion_point(projects, i);
        proof {
            lemma_move_keeps_projects(before, i as int, j as int);
            lemma_move_extends_ranked(before, i as int, j as int);
        }
        if j < i {
            let project = projects.remove(i);
            projects.insert(j, project);
        } else {
            assert(moved(before, i as int, j as int) =~= before);
        }
        assert(projects@ == moved(before, i as int, j as int));
        i += 1;
    }
    assert(projects@.take(n as int) =~= projects@);
}

/// A ranking neither drops a project nor makes one up: it is as long as what
/// it ranks, and each holds every project of the other.
pub proof fn lemma_ranking_keeps_projects(r: Seq<Project>, s: Seq<Project>)
    requires
        is_ranking_of(r, s),
    ensures
        r.len() == s.len(),
        forall|i: int| 0 <= i < s.len() ==> r.contains(#[trigger] s[i]),
        forall|i: int| 0 <= i < r.len() ==> s.contains(#[trigger] r[i]),
{
    vstd::seq_lib::to_multiset_len(r);
    vstd::seq_lib::to_multiset_len(s);
    assert forall|i: int| 0 <= i < s.len() implies r.contains(#[trigger] s[i]) by {
        vstd::seq_lib::to_multiset_contains(r, s[i]);
        vstd::seq_lib::to_multiset_contains(s, s[i]);
        assert(s.contains(s[i]));
    }
    assert forall|i: int| 0 <= i < r.len() implies s.contains(#[trigger] r[i]) by {
        vstd::seq_lib::to_multiset_contains(r, r[i]);
        vstd::seq_lib::to_multiset_contains(s, r[i]);
        assert(r.contains(r[i]));
    }
}

/// Two ranked sequences that hold the same projects, those of equal time in
/// the same order, are one and the same.
proof fn lemma_ranked_agree(a: Seq<Project>, b: Seq<Project>)
    requires
        is_ranked(a),
        is_ranked(b),
        a.to_multiset() == b.to_multiset(),
        forall|t: u64| #[trigger] a.filter(has_time(t)) == b.filter(has_time(t)),
    ensures
        a == b,
    decreases a.len(),
{
    vstd::seq_lib::to_multiset_len(a);
    vstd::seq_lib::to_multiset_len(b);
    if a.len() == 0 {
        assert(a =~= b);
    } else {
        let x = a.last();
        let y = b.last();
        let a0 = a.drop_last();
        let b0 = b.drop_last();

        // The last of each is a shortest project of both.
        assert(x.time >= y.time) by {
            vstd::seq_lib::to_multiset_contains(a, x);
            vstd::seq_lib::to_multiset_contains(b, x);
            assert(a.contains(x));
            let k = choose|k: int| 0 <= k < b.len() && b[k] == x;
            assert(b[k].time >= b[b.len() - 1].time);
        }
        assert(y.time >= x.time) by {
            vstd::seq_lib::to_multiset_contains(a, y);
            vstd::seq_lib::to_multiset_contains(b, y);
            assert(b.contains(y));
            let k = choose|k: int| 0 <= k < a.len() && a[k] == y;
            assert(a[k].time >= a[a.len() - 1].time);
        }

        // Both are therefore the last of the projects with that time.
        assert(x == y) by {
            reveal(Seq::filter);
            let pred = has_time(x.time);
            assert(a.filter(pred) == a0.filter(pred).push(x));
            assert(b.filter(pred) == b0.filter(pred).push(y));
            assert(a.filter(pred).last() == x);
            assert(b.filter(pred).last() == y);
        }

        assert(a0.to_multiset() == b0.to_multiset()) by {
            assert(a0 =~= a.remove(a.len() - 1));
            assert(b0 =~= b.remove(b.len() - 1));
            vstd::seq_lib::to_multiset_remove(a, a.len() - 1);
            vstd::seq_lib::to_multiset_remove(b, b.len() - 1);
        }
        assert forall|t: u64| #[trigger] a0.filter(has_time(t)) == b0.filter(has_time(t)) by {
            reveal(Seq::filter);
            let pred = has_time(t);
            assert(a.filter(pred) == b.filter(pred));
            if pred(x) {
                assert(a0.filter(pred) =~= a0.filter(pred).push(x).drop_last());
                assert(b0.filter(pred) =~= b0.filter(pred).push(y).drop_last());
            }
        }
        assert(is_ranked(a0)) by {
            assert forall|i: int, j: int| 0 <= i <= j < a0.len() implies a0[i].time
                >= a0[j].time by {
                assert(a[i].time >= a[j].time);
            }
        }
        assert(is_ranked(b0)) by {
            assert forall|i: int, j: int| 0 <= i <= j < b0.len() implies b0[i].time
                >= b0[j].time by {
                assert(b[i].time >= b[j].time);
            }
        }
        lemma_ranked_agree(a0, b0);
        assert(a =~= a0.push(x));
        assert(b =~= b0.push(y));
    }
}

/// A sequence of projects has one ranking only: any two rankings of it are
/// equal.
pub proof fn lemma_ranking_unique(a: Seq<Project>, b: Seq<Project>, s: Seq<Project>)
    requires
        is_ranking_of(a, s),
        is_ranking_of(b, s),
    ensures
        a == b,
{
    assert forall|t: u64| #[trigger] a.filter(has_time(t)) == b.filter(has_time(t)) by {
        assert(a.filter(has_time(t)) == s.filter(has_time(t)));
        assert(b.filter(has_time(t)) == s.filter(has_time(t)));
    }
    lemma_ranked_agree(a, b);
}

/// Ranking is idempotent: the ranking of a sequence that is ranked already
/// is that sequence, so ranking a second time changes nothing.
pub proof fn lemma_ranking_idempotent(r: Seq<Project>, s: Seq<Project>)
    requires
        is_ranked(s),
        is_ranking_of(r, s),
    ensures
        r == s,
{
    lemma_ranked_agree(r, s);
}

} // verus!
