//! Cutting a ranking of projects into the slices of a chart: one slice each
//! for the leading projects, one more for whatever is left.

use vstd::prelude::*;

use crate::rank::is_ranked;
use crate::report::{lemma_total_time_concat, total_time, Project};
use crate::style::{glyph_at, palette, palette_color, Color, GlyphCycle, GLYPH_COUNT, PALETTE_SIZE};

verus! {

/// One wedge of the chart.
#[derive(Clone, Debug, PartialEq, Eq)]
pub struct Slice {
    pub label: String,
    /// The time that the wedge stands for, in ticks.
    pub value: u128,
    pub color: Option<Color>,
    pub fill_glyph: char,
}

/// What a `Slice` holds, as plain values.
pub struct SliceView {
    pub label: Seq<char>,
    pub value: nat,
    pub color: Option<Color>,
    pub fill_glyph: char,
}

impl View for Slice {
    type V = SliceView;

    open spec fn view(&self) -> SliceView {
        SliceView {
            label: self.label@,
            value: self.value as nat,
            color: self.color,
            fill_glyph: self.fill_glyph,
        }
    }
}

impl DeepView for Slice {
    type V = SliceView;

    open spec fn deep_view(&self) -> SliceView {
        self@
    }
}

/// The sum of the slices' values.
pub open spec fn total_value(slices: Seq<SliceView>) -> nat
    decreases slices.len(),
{
    if slices.len() == 0 {
        0
    } else {
        total_value(slices.drop_last()) + slices.last().value
    }
}

/// Of `count` projects, how many get a slice and a palette colour of their
/// own: all of them, as far as the palette reaches.
pub open spec fn standalone_count(count: nat) -> nat {
    if count <= PALETTE_SIZE {
        count
    } else {
        PALETTE_SIZE as nat
    }
}

/// Whether the one project behind `last_index` is the last of `count`
/// projects. Such a project is shown under its own name.
pub open spec fn is_single_leftover(last_index: int, count: int) -> bool {
    last_index + 1 == count - 1
}

/// The slice of the project `p` standing at rank `i` within the palette.
pub open spec fn standalone_slice(p: Project, i: int) -> SliceView {
    SliceView {
        label: p.name@,
        value: p.time as nat,
        color: Some(palette()[i]),
        fill_glyph: glyph_at(i),
    }
}

/// The slice, the `i`-th of the chart, of a single project `p` left behind
/// the palette.
pub open spec fn leftover_slice(p: Project, i: int) -> SliceView {
    SliceView {
        label: p.name@,
        value: p.time as nat,
        color: Some(Color::White),
        fill_glyph: glyph_at(i),
    }
}

/// The slice, the `i`-th of the chart, that stands for all of `rest`.
pub open spec fn other_slice(rest: Seq<Project>, i: int) -> SliceView {
    SliceView {
        label: "other"@,
        value: total_time(rest),
        color: Some(Color::White),
        fill_glyph: glyph_at(i),
    }
}

/// The slices of the projects that the palette reaches, in rank order.
pub open spec fn standalone_slices(s: Seq<Project>) -> Seq<SliceView> {
    Seq::new(standalone_count(s.len()), |i: int| standalone_slice(s[i], i))
}

/// The slices of the chart for the projects `s`: the standalone slices,
/// followed, where projects remain, by one more slice. That one shows a
/// single leftover project by itself and several as "other", with their
/// times summed.
pub open spec fn chart_slices(s: Seq<Project>) -> Seq<SliceView> {
    let cut = standalone_count(s.len()) as int;
    if s.len() == cut {
        standalone_slices(s)
    } else if is_single_leftover(cut - 1, s.len() as int) {
        standalone_slices(s).push(leftover_slice(s.last(), cut))
    } else {
        standalone_slices(s).push(other_slice(s.skip(cut), cut))
    }
}

/// Whether the one project behind `last_index` is the last of `count`
/// projects.
pub fn single_leftover(last_index: usize, count: usize) -> (single: bool)
    ensures
        single == is_single_leftover(last_index as int, count as int),
{
    count >= 2 && last_index == count - 2
}

/// The summed time of the projects from position `from` on.
pub fn remaining_time(projects: &Vec<Project>, from: usize) -> (sum: u128)
    requires
        from <= projects.len(),
    ensures
        sum == total_time(projects@.skip(from as int)),
{
    let n: usize = projects.len();
    let mut sum: u128 = 0;
    let mut i: usize = from;
    while i < n
        invariant
            from <= i <= n == projects.len(),
            sum == total_time(projects@.subrange(from as int, i as int)),
            sum <= (i - from) * u64::MAX,
        decreases n - i,
    {
        proof {
            let done = projects@.subrange(from as int, i as int);
            let next = projects@.subrange(from as int, i + 1);
            assert(next.drop_last() =~= done);
        }
        sum = sum + projects[i].time as u128;
        i += 1;
    }
    assert(projects@.subrange(from as int, n as int) =~= projects@.skip(from as int));
    sum
}

/// The standalone slices add up to the time of the projects they show.
proof fn lemma_standalone_value(s: Seq<Project>, k: int)
    requires
        0 <= k <= standalone_count(s.len()),
    ensures
        total_value(standalone_slices(s).take(k)) == total_time(s.take(k)),
    decreases k,
{
    if k > 0 {
        let slices = standalone_slices(s).take(k);
        assert(slices.drop_last() =~= standalone_slices(s).take(k - 1));
        assert(s.take(k).drop_last() =~= s.take(k - 1));
        assert(slices.last() == standalone_slice(s[k - 1], k - 1));
        lemma_standalone_value(s, k - 1);
    }
}

/// No time is dropped and none is counted twice: the values of the slices
/// add up to the total time of the projects.
pub proof fn lemma_chart_conserves_time(s: Seq<Project>)
    ensures
        total_value(chart_slices(s)) == total_time(s),
{
    let cut = standalone_count(s.len()) as int;
    let head = standalone_slices(s);
    let chart = chart_slices(s);
    lemma_standalone_value(s, cut);
    assert(head.take(cut) =~= head);
    if s.len() == cut {
        assert(s.take(cut) =~= s);
    } else {
        assert(chart.drop_last() =~= head);
        if is_single_leftover(cut - 1, s.len() as int) {
            assert(s.drop_last() =~= s.take(cut));
        } else {
            assert(s =~= s.take(cut) + s.skip(cut));
            lemma_total_time_concat(s.take(cut), s.skip(cut));
        }
    }
}

/// The standalone slices are never more than the palette has colours, they
/// come first, and exactly one more slice follows them if and only if
/// projects remain behind them.
pub proof fn lemma_chart_cardinality(s: Seq<Project>)
    ensures
        standalone_count(s.len()) <= PALETTE_SIZE,
        standalone_count(s.len()) <= s.len(),
        s.len() > standalone_count(s.len()) ==> chart_slices(s).len() == standalone_count(s.len())
            + 1,
        s.len() == standalone_count(s.len()) ==> chart_slices(s).len() == standalone_count(
            s.len(),
        ),
        forall|i: int|
            0 <= i < standalone_count(s.len()) ==> #[trigger] chart_slices(s)[i]
                == standalone_slice(s[i], i),
{
}

/// Whether the chart for `s` ends in a slice that folds several projects
/// into one.
pub open spec fn ends_in_other(s: Seq<Project>) -> bool {
    let cut = standalone_count(s.len()) as int;
    s.len() > cut && !is_single_leftover(cut - 1, s.len() as int)
}

/// The slices of a ranking keep its order: among the slices that show one
/// project each, none comes before one of greater value. Only a closing
/// "other" slice, which is always the last, stands outside that order.
pub proof fn lemma_chart_keeps_rank_order(s: Seq<Project>)
    requires
        is_ranked(s),
    ensures
        ends_in_other(s) ==> chart_slices(s).len() == PALETTE_SIZE + 1,
        forall|i: int, j: int|
            0 <= i <= j < chart_slices(s).len() && !(ends_in_other(s) && j == PALETTE_SIZE)
                ==> chart_slices(s)[i].value >= chart_slices(s)[j].value,
{
    let chart = chart_slices(s);
    assert forall|i: int, j: int|
        0 <= i <= j < chart.len() && !(ends_in_other(s) && j == PALETTE_SIZE) implies chart[i].value
        >= chart[j].value by {
        assert(chart[i].value == s[i].time);
        assert(chart[j].value == s[j].time);
    }
}

/// Without projects there are no slices.
pub proof fn lemma_chart_of_nothing(s: Seq<Project>)
    requires
        s.len() == 0,
    ensures
        chart_slices(s) == Seq::<SliceView>::empty(),
{
    assert(chart_slices(s) =~= Seq::<SliceView>::empty());
}

/// Cuts the projects, in the order given, into the slices of a chart.
///
/// The first `PALETTE_SIZE` projects get a slice each, coloured from the
/// palette in turn. If exactly one project is left after them, it gets a
/// white slice under its own name; if more are left, a single white slice
/// labelled "other" carries their summed time. Every slice, of whichever
/// kind, takes the next glyph of the cycle.
pub fn bucketize(projects: &Vec<Project>) -> (slices: Vec<Slice>)
    ensures
        slices.deep_view() == chart_slices(projects@),
        total_value(slices.deep_view()) == total_time(projects@),
        projects.len() <= PALETTE_SIZE ==> slices.len() == projects.len(),
        projects.len() > PALETTE_SIZE ==> slices.len() == PALETTE_SIZE + 1,
{
    let n: usize = projects.len();
    let mut slices: Vec<Slice> = Vec::new();
    let mut glyphs = GlyphCycle::new();
    let mut i: usize = 0;
    while i < n && i < PALETTE_SIZE
        invariant
            n == projects.len(),
            i <= n,
            i <= PALETTE_SIZE,
            slices.len() == i,
            glyphs.position() == i % GLYPH_COUNT,
            forall|m: int| 0 <= m < i ==> (#[trigger] slices[m])@ == standalone_slice(projects[m], m),
        decreases n - i,
    {
        let project = &projects[i];
        let fill_glyph = glyphs.next_glyph();
        slices.push(
            Slice {
                label: project.name.clone(),
                value: project.time as u128,
                color: palette_color(i),
                fill_glyph,
            },
        );
        i += 1;
    }
    proof {
        lemma_chart_conserves_time(projects@);
    }
    if i == 0 {
        assert(slices.deep_view() =~= chart_slices(projects@));
        return slices;
    }
    let last_index: usize = i - 1;
    if single_leftover(last_index, n) {
        let project = &projects[n - 1];
        slices.push(
            Slice {
                label: project.name.clone(),
                value: project.time as u128,
                color: Some(Color::White),
                fill_glyph: glyphs.next_glyph(),
            },
        );
    } else if last_index + 1 < n {
        slices.push(
            Slice {
                label: "other".to_owned(),
                value: remaining_time(projects, last_index + 1),
                color: Some(Color::White),
                fill_glyph: glyphs.next_glyph(),
            },
        );
    }
    assert(slices.deep_view() =~= chart_slices(projects@));
    slices
}

} // verus!
