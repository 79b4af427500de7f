//! The samples behind the graphs of the display. A graph has some plots;
//! each plot follows one channel and keeps its samples of the last while.

use std::collections::VecDeque;
use vstd::prelude::*;
use crate::config::Color;
use crate::package::Value;
use crate::telemetry::{DataPointView, Frame, data_points_view};

verus! {

/// One sample of a plot: the number and the time at which it came, in
/// nanoseconds since the Unix epoch.
#[derive(Clone, Copy, Debug, PartialEq, Eq, Structural)]
pub struct Sample {
    pub at: i64,
    pub value: Value,
}

/// One line of a graph: the samples of the channel `source_name`, oldest
/// first, drawn under `name`.
#[derive(Debug)]
pub struct GraphPlot {
    pub name: String,
    pub source_name: String,
    pub color: Color,
    pub data: VecDeque<Sample>,
}

/// A [`GraphPlot`] as contracts see it.
pub struct GraphPlotView {
    pub name: Seq<char>,
    pub source_name: Seq<char>,
    pub color: Color,
    pub data: Seq<Sample>,
}

impl View for GraphPlot {
    type V = GraphPlotView;

    open spec fn view(&self) -> GraphPlotView {
        GraphPlotView {
            name: self.name@,
            source_name: self.source_name@,
            color: self.color,
            data: self.data@,
        }
    }
}

/// What a plot is made from: its name, the channel it follows, its colour.
pub type PlotSpec = (Seq<char>, Seq<char>, Color);

/// What plots are made from, as contracts see it.
pub open spec fn plot_specs(plots: Seq<(String, String, Color)>) -> Seq<PlotSpec> {
    Seq::new(plots.len(), |i: int| (plots[i].0@, plots[i].1@, plots[i].2))
}

/// Plots as contracts see them.
pub open spec fn plots_view(plots: Seq<GraphPlot>) -> Seq<GraphPlotView> {
    Seq::new(plots.len(), |i: int| plots[i]@)
}

/// Whether one of `plots` bears `name`.
pub open spec fn named(plots: Seq<PlotSpec>, name: Seq<char>) -> bool {
    exists|i: int| 0 <= i < plots.len() && (#[trigger] plots[i]).0 == name
}

/// The plots of a new graph: one, without samples, for each of `plots` whose
/// name does not come again later. Of plots that share a name the last
/// stands.
pub open spec fn fresh_plots(plots: Seq<PlotSpec>) -> Seq<GraphPlotView>
    decreases plots.len(),
{
    if plots.len() == 0 {
        Seq::empty()
    } else if named(plots.drop_first(), plots[0].0) {
        fresh_plots(plots.drop_first())
    } else {
        seq![
            GraphPlotView {
                name: plots[0].0,
                source_name: plots[0].1,
                color: plots[0].2,
                data: Seq::empty(),
            },
        ] + fresh_plots(plots.drop_first())
    }
}

/// Whether `sample` is older at the time `now` than the window shows.
pub open spec fn stale(sample: Sample, now: int, window: int) -> bool {
    now - sample.at > window
}

/// The number of stale samples at the front of `data`.
pub open spec fn stale_len(data: Seq<Sample>, now: int, window: int) -> nat
    decreases data.len(),
{
    if data.len() == 0 || !stale(data[0], now, window) {
        0
    } else {
        1 + stale_len(data.drop_first(), now, window)
    }
}

/// `data` without the stale samples at its front.
pub open spec fn trimmed(data: Seq<Sample>, now: int, window: int) -> Seq<Sample> {
    data.skip(stale_len(data, now, window) as int)
}

impl GraphPlotView {
    /// The plot after a sample of the channel `name` came at the time `now`:
    /// a plot that follows the channel takes the sample and drops the stale
    /// samples at its front; another plot stays as it is.
    pub open spec fn sampled(
        self,
        name: Seq<char>,
        value: Value,
        now: int,
        window: int,
    ) -> GraphPlotView {
        if self.source_name == name {
            GraphPlotView {
                name: self.name,
                source_name: self.source_name,
                color: self.color,
                data: trimmed(self.data.push(Sample { at: now as i64, value: value }), now, window),
            }
        } else {
            self
        }
    }

    /// The plot without its samples.
    pub open spec fn cleared(self) -> GraphPlotView {
        GraphPlotView {
            name: self.name,
            source_name: self.source_name,
            color: self.color,
            data: Seq::empty(),
        }
    }
}

/// The plots of a graph, the time of its first sample, and the length of the
/// window that it shows, in nanoseconds.
pub struct Graph {
    name: String,
    plots: Vec<GraphPlot>,
    start: Option<i64>,
    window: i64,
}

/// A [`Graph`] as contracts see it.
pub struct GraphView {
    pub name: Seq<char>,
    pub plots: Seq<GraphPlotView>,
    pub start: Option<i64>,
    pub window: i64,
}

impl View for Graph {
    type V = GraphView;

    closed spec fn view(&self) -> GraphView {
        GraphView {
            name: self.name@,
            plots: plots_view(self.plots@),
            start: self.start,
            window: self.window,
        }
    }
}

impl GraphView {
    /// No two plots bear the same name.
    pub open spec fn wf(self) -> bool {
        forall|i: int, j: int|
            0 <= i < j < self.plots.len() ==> (#[trigger] self.plots[i]).name != (
            #[trigger] self.plots[j]).name
    }

    /// The graph after a sample of the channel `name` came at the time
    /// `now`. The first sample starts the graph.
    pub open spec fn add_data(self, name: Seq<char>, value: Value, now: i64) -> GraphView {
        GraphView {
            name: self.name,
            plots: Seq::new(
                self.plots.len(),
                |i: int| self.plots[i].sampled(name, value, now as int, self.window as int),
            ),
            start: match self.start {
                Some(start) => Some(start),
                None => Some(now),
            },
            window: self.window,
        }
    }

    /// The graph after the samples `points` came, one after the other, at
    /// the time `now`.
    pub open spec fn add_points(self, points: Seq<DataPointView>, now: i64) -> GraphView
        decreases points.len(),
    {
        if points.len() == 0 {
            self
        } else {
            self.add_points(points.drop_last(), now).add_data(
                points.last().name,
                points.last().value,
                now,
            )
        }
    }

    /// The graph without its samples, not started.
    pub open spec fn reset(self) -> GraphView {
        GraphView {
            name: self.name,
            plots: Seq::new(self.plots.len(), |i: int| self.plots[i].cleared()),
            start: None,
            window: self.window,
        }
    }
}

/// Whether the newest data, which came at the time `last_data`, is older at
/// the time `now` than `timeout` allows. Times are in nanoseconds.
pub fn data_is_stale(now: i64, last_data: i64, timeout: i64) -> (is_stale: bool)
    ensures
        is_stale == (now - last_data > timeout),
{
    (now as i128) - (last_data as i128) > timeout as i128
}

/// Whether a plot after the first `from` bears `name`.
fn named_later(plots: &[(String, String, Color)], from: usize, name: &String) -> (found: bool)
    requires
        from <= plots.len(),
    ensures
        found == named(plot_specs(plots@).skip(from as int), name@),
{
    let ghost rest = plot_specs(plots@).skip(from as int);
    let mut i: usize = from;
    while i < plots.len()
        invariant
            from <= i <= plots.len(),
            rest == plot_specs(plots@).skip(from as int),
            forall|k: int| 0 <= k < i - from ==> (#[trigger] rest[k]).0 != name@,
        decreases plots.len() - i,
    {
        if plots[i].0 == *name {
            assert(rest[i - from].0 == name@);
            return true;
        }
        i = i + 1;
    }
    false
}

impl Graph {
    /// A graph named `name` that shows the last `window` nanoseconds of its
    /// plots. Each of `plots` gives a plot's name, the channel it follows and
    /// its colour.
    pub fn new(name: &str, plots: &[(String, String, Color)], window: i64) -> (graph: Graph)
        ensures
            graph@ == (GraphView {
                name: name@,
                plots: fresh_plots(plot_specs(plots@)),
                start: None,
                window: window,
            }),
            graph@.wf(),
    {
        let ghost all = plot_specs(plots@);
        let mut made: Vec<GraphPlot> = Vec::new();
        let mut i: usize = 0;
        proof {
            assert(all.skip(0) =~= all);
            assert(plots_view(made@) + fresh_plots(all) =~= fresh_plots(all));
        }
        while i < plots.len()
            invariant
                i <= plots.len(),
                all == plot_specs(plots@),
                plots_view(made@) + fresh_plots(all.skip(i as int)) == fresh_plots(all),
            decreases plots.len() - i,
        {
            let ghost before = plots_view(made@);
            let ghost rest = all.skip(i as int);
            proof {
                assert(rest[0] == all[i as int]);
                assert(rest.drop_first() =~= all.skip(i + 1));
            }
            if !named_later(plots, i + 1, &plots[i].0) {
                let plot = GraphPlot {
                    name: plots[i].0.clone(),
                    source_name: plots[i].1.clone(),
                    color: plots[i].2,
                    data: VecDeque::new(),
                };
                made.push(plot);
                proof {
                    assert(plots_view(made@) =~= before.push(plot@));
                    assert(before.push(plot@) + fresh_plots(all.skip(i + 1)) =~= before + (
                    seq![plot@] + fresh_plots(all.skip(i + 1))));
                }
            }
            i = i + 1;
        }
        proof {
            assert(all.skip(all.len() as int) =~= Seq::<PlotSpec>::empty());
            assert(plots_view(made@) + Seq::<GraphPlotView>::empty() =~= plots_view(made@));
            lemma_fresh_plots_are_distinct(all);
        }
        Graph { name: name.to_owned(), plots: made, start: None, window }
    }

    /// The name of the graph.
    pub fn name(&self) -> (name: &str)
        ensures
            name@ == self@.name,
    {
        self.name.as_str()
    }

    /// The plots of the graph.
    pub fn plots(&self) -> (plots: &Vec<GraphPlot>)
        ensures
            plots_view(plots@) == self@.plots,
    {
        &self.plots
    }

    /// The time of the first sample since the graph was made or reset.
    pub fn start(&self) -> (start: Option<i64>)
        ensures
            start == self@.start,
    {
        self.start
    }

    /// The length of the window that the graph shows, in nanoseconds.
    pub fn window(&self) -> (window: i64)
        ensures
            window == self@.window,
    {
        self.window
    }

    /// Takes a sample of the channel `name` that came at the time `now`.
    pub fn add_data(&mut self, name: &str, value: Value, now: i64)
        ensures
            final(self)@ == old(self)@.add_data(name@, value, now),
            old(self)@.wf() ==> final(self)@.wf(),
    {
        if self.start.is_none() {
            self.start = Some(now);
        }
        let wanted = name.to_owned();
        let window = self.window;
        let count = self.plots.len();
        let ghost goal = old(self)@.add_data(name@, value, now);
        let mut i: usize = 0;
        while i < count
            invariant
                i <= count,
                count == self.plots@.len(),
                count == old(self).plots@.len(),
                self.name == old(self).name,
                self.window == old(self).window,
                window == self.window,
                self.start == goal.start,
                wanted@ == name@,
                goal == old(self)@.add_data(name@, value, now),
                forall|k: int| 0 <= k < i ==> (#[trigger] self.plots@[k])@ == goal.plots[k],
                forall|k: int|
                    i <= k < count ==> (#[trigger] self.plots@[k])@ == old(self)@.plots[k],
            decreases count - i,
        {
            let plot = &mut self.plots[i];
            if plot.source_name == wanted {
                plot.data.push_back(Sample { at: now, value });
                trim(&mut plot.data, now, window);
            }
            i = i + 1;
        }
        proof {
            assert(self@.plots =~= goal.plots);
            assert forall|a: int, b: int| 0 <= a < b < goal.plots.len() && old(
                self,
            )@.wf() implies goal.plots[a].name != goal.plots[b].name by {
                assert(goal.plots[a].name == old(self)@.plots[a].name);
                assert(goal.plots[b].name == old(self)@.plots[b].name);
            }
        }
    }

    /// Takes the samples of `frame`, which came at the time `now`, in their
    /// order.
    pub fn add_frame(&mut self, frame: &Frame, now: i64)
        ensures
            final(self)@ == old(self)@.add_points(frame@.data_points, now),
            old(self)@.wf() ==> final(self)@.wf(),
    {
        let ghost points = frame@.data_points;
        let mut i: usize = 0;
        assert(points.take(0) =~= Seq::<DataPointView>::empty());
        while i < frame.data_points.len()
            invariant
                i <= frame.data_points.len(),
                points == data_points_view(frame.data_points@),
                self@ == old(self)@.add_points(points.take(i as int), now),
                old(self)@.wf() ==> self@.wf(),
            decreases frame.data_points.len() - i,
        {
            proof {
                let early = points.take(i + 1);
                assert(early.drop_last() =~= points.take(i as int));
                assert(early.last() == frame.data_points@[i as int]@);
            }
            self.add_data(frame.data_points[i].name.as_str(), frame.data_points[i].value, now);
            i = i + 1;
        }
        assert(points.take(points.len() as int) =~= points);
    }

    /// Forgets the samples and the start of the graph.
    pub fn reset(&mut self)
        ensures
            final(self)@ == old(self)@.reset(),
            old(self)@.wf() ==> final(self)@.wf(),
    {
        self.start = None;
        let count = self.plots.len();
        let ghost goal = old(self)@.reset();
        let mut i: usize = 0;
        while i < count
            invariant
                i <= count,
                count == self.plots@.len(),
                count == old(self).plots@.len(),
                self.name == old(self).name,
                self.window == old(self).window,
                self.start == goal.start,
                goal == old(self)@.reset(),
                forall|k: int| 0 <= k < i ==> (#[trigger] self.plots@[k])@ == goal.plots[k],
                forall|k: int|
                    i <= k < count ==> (#[trigger] self.plots@[k])@ == old(self)@.plots[k],
            decreases count - i,
        {
            let plot = &mut self.plots[i];
            plot.data.clear();
            i = i + 1;
        }
        proof {
            assert(self@.plots =~= goal.plots);
            assert forall|a: int, b: int| 0 <= a < b < goal.plots.len() && old(
                self,
            )@.wf() implies goal.plots[a].name != goal.plots[b].name by {
                assert(goal.plots[a].name == old(self)@.plots[a].name);
                assert(goal.plots[b].name == old(self)@.plots[b].name);
            }
        }
    }
}

/// Drops the stale samples at the front of `data`.
fn trim(data: &mut VecDeque<Sample>, now: i64, window: i64)
    ensures
        final(data)@ == trimmed(old(data)@, now as int, window as int),
{
    let ghost all = old(data)@;
    let ghost mut dropped: int = 0;
    assert(all.skip(0) =~= all);
    while data.len() > 0 && (now as i128) - (data[0].at as i128) > window as i128
        invariant
            0 <= dropped <= all.len(),
            data@ == all.skip(dropped),
            stale_len(all, now as int, window as int) == dropped + stale_len(
                data@,
                now as int,
                window as int,
            ),
        decreases data.len(),
    {
        let ghost before = data@;
        let _ = data.pop_front();
        proof {
            assert(data@ =~= before.drop_first());
            assert(before.drop_first() =~= all.skip(dropped + 1));
            dropped = dropped + 1;
        }
    }
}

/// Whether the samples stand in the order of their times.
pub open spec fn in_order(data: Seq<Sample>) -> bool {
    forall|i: int, j: int| 0 <= i <= j < data.len() ==> data[i].at <= data[j].at
}

/// The stale samples at the front are no more than there are samples, and
/// the sample after them, if there is one, is not stale.
pub proof fn lemma_stale_len(data: Seq<Sample>, now: int, window: int)
    ensures
        stale_len(data, now, window) <= data.len(),
        stale_len(data, now, window) < data.len() ==> !stale(
            data[stale_len(data, now, window) as int],
            now,
            window,
        ),
    decreases data.len(),
{
    if data.len() != 0 && stale(data[0], now, window) {
        let rest = data.drop_first();
        lemma_stale_len(rest, now, window);
        let k = stale_len(rest, now, window);
        if k < rest.len() {
            assert(rest[k as int] == data[k as int + 1]);
        }
    }
}

/// Where the samples stand in the order of their times, none that is kept
/// is stale: the plot holds the window and nothing older.
pub proof fn lemma_trimmed_is_fresh(data: Seq<Sample>, now: int, window: int)
    requires
        in_order(data),
    ensures
        forall|i: int|
            0 <= i < trimmed(data, now, window).len() ==> !stale(
                #[trigger] trimmed(data, now, window)[i],
                now,
                window,
            ),
{
    lemma_stale_len(data, now, window);
    let k = stale_len(data, now, window) as int;
    let kept = trimmed(data, now, window);
    assert forall|i: int| 0 <= i < kept.len() implies !stale(#[trigger] kept[i], now, window) by {
        assert(kept[i] == data[k + i]);
        assert(data[k].at <= data[k + i].at);
    }
}

/// The plots of a new graph bear different names.
pub proof fn lemma_fresh_plots_are_distinct(plots: Seq<PlotSpec>)
    ensures
        forall|i: int, j: int|
            0 <= i < j < fresh_plots(plots).len() ==> (#[trigger] fresh_plots(plots)[i]).name != (
            #[trigger] fresh_plots(plots)[j]).name,
        forall|i: int|
            0 <= i < fresh_plots(plots).len() ==> named(
                plots,
                (#[trigger] fresh_plots(plots)[i]).name,
            ),
    decreases plots.len(),
{
    let made = fresh_plots(plots);
    if plots.len() != 0 {
        let rest = plots.drop_first();
        let later = fresh_plots(rest);
        lemma_fresh_plots_are_distinct(rest);
        assert forall|i: int| 0 <= i < later.len() implies named(
            plots,
            (#[trigger] later[i]).name,
        ) by {
            let k = choose|k: int| 0 <= k < rest.len() && rest[k].0 == later[i].name;
            assert(plots[k + 1].0 == later[i].name);
        }
        if named(rest, plots[0].0) {
        } else {
            assert(plots[0].0 == plots[0].0);
            assert(named(plots, made[0].name));
            assert forall|i: int, j: int| 0 <= i < j < made.len() implies (
            #[trigger] made[i]).name != (#[trigger] made[j]).name by {
                assert(made[j] == later[j - 1]);
                if i > 0 {
                    assert(made[i] == later[i - 1]);
                } else {
                    assert(named(rest, later[j - 1].name));
                }
            }
            assert forall|i: int| 0 <= i < made.len() implies named(
                plots,
                (#[trigger] made[i]).name,
            ) by {
                if i > 0 {
                    assert(made[i] == later[i - 1]);
                }
            }
        }
    }
}

} // verus!
