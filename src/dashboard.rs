use vstd::prelude::*;

use crate::chart::{project, series_of, values_of, axis_bounds, MetricKey, SAMPLE_PERIOD_MS};
use crate::history::{appended, HistoryStore};
use crate::metrics::MetricSample;

verus! {

/// A key press that the dashboard acts on; other keys are ignored before
/// they get here.
#[derive(Clone, Copy, Debug, PartialEq, Eq, Structural)]
pub enum Command {
    Quit,
    PreviousTab,
    NextTab,
}

/// What the event loop does after one tick.
#[derive(Clone, Copy, Debug, PartialEq, Eq, Structural)]
pub enum Tick {
    /// Leave the loop.
    Quit,
    /// Collect a sample now and hand it to `App::update`.
    Collect,
    /// Nothing is due: draw and poll again.
    Wait,
}

/// The tab after `i` among `n`, wrapping to the first.
pub open spec fn next_index(i: nat, n: nat) -> nat {
    if i + 1 >= n { 0 } else { i + 1 }
}

/// The tab before `i` among `n`, wrapping to the last.
pub open spec fn previous_index(i: nat, n: nat) -> nat {
    if i == 0 { (n - 1) as nat } else { (i - 1) as nat }
}

/// A sample is due once a full period has passed since the last one.
pub open spec fn sample_due(last_ms: u64, now_ms: u64) -> bool {
    now_ms >= last_ms + SAMPLE_PERIOD_MS
}

/// Collection instants `c` after a start at `start_ms`: each comes at least
/// a sampling period after the one before it, the first at least a period
/// after the start.
pub open spec fn spaced(start_ms: u64, c: Seq<u64>) -> bool {
    &&& c.len() > 0 ==> start_ms + SAMPLE_PERIOD_MS <= c[0]
    &&& forall|k: int| 0 <= k < c.len() - 1 ==> c[k] + SAMPLE_PERIOD_MS <= #[trigger] c[k + 1]
}

/// The instants at which the loop collects, given the instants of its ticks
/// and the instant `last_ms` of the previous collection.
pub open spec fn collect_instants(last_ms: u64, ticks: Seq<u64>) -> Seq<u64>
    decreases ticks.len(),
{
    if ticks.len() == 0 {
        Seq::empty()
    } else if sample_due(last_ms, ticks[0]) {
        seq![ticks[0]] + collect_instants(ticks[0], ticks.drop_first())
    } else {
        collect_instants(last_ms, ticks.drop_first())
    }
}

/// Session state of the dashboard: the sample history, the tabs and the
/// selected one, and the instant (on a monotonic millisecond clock) of the
/// last collection.  Ghost state records the session's start and every
/// instant at which a tick asked for a collection.
pub struct App {
    history: HistoryStore,
    current_tab: usize,
    tab_titles: Vec<String>,
    last_refresh_ms: u64,
    started_ms: Ghost<u64>,
    collected: Ghost<Seq<u64>>,
}

impl App {
    pub closed spec fn wf(&self) -> bool {
        &&& self.history.wf()
        &&& self.tab_titles@.len() > 0
        &&& self.current_tab < self.tab_titles@.len()
        &&& spaced(self.started_ms@, self.collected@)
        &&& self.last_refresh_ms == (if self.collected@.len() == 0 {
            self.started_ms@
        } else {
            self.collected@.last()
        })
    }

    /// Names of the tabs, in order.
    pub closed spec fn titles(&self) -> Seq<Seq<char>> {
        self.tab_titles@.map_values(|t: String| t@)
    }

    /// The instants, oldest first, at which a tick of this session asked for
    /// a collection.
    pub closed spec fn collections(&self) -> Seq<u64> {
        self.collected@
    }

    /// The instant at which the session started.
    pub closed spec fn started(&self) -> u64 {
        self.started_ms@
    }

    pub closed spec fn samples(&self) -> Seq<MetricSample> {
        self.history@
    }

    pub closed spec fn tab(&self) -> nat {
        self.current_tab as nat
    }

    pub closed spec fn tab_count(&self) -> nat {
        self.tab_titles@.len()
    }

    pub closed spec fn last_refresh(&self) -> u64 {
        self.last_refresh_ms
    }

    /// A fresh session at instant `now_ms`, with no samples and the tabs CPU,
    /// GPU, NPU, RGA, Memory and Thermal, the first one selected.
    pub fn new(now_ms: u64) -> (r: App)
        ensures
            r.wf(),
            r.samples() == Seq::<MetricSample>::empty(),
            r.tab() == 0,
            r.tab_count() == 6,
            r.titles() == seq!["CPU"@, "GPU"@, "NPU"@, "RGA"@, "Memory"@, "Thermal"@],
            r.last_refresh() == now_ms,
            r.started() == now_ms,
            r.collections() == Seq::<u64>::empty(),
    {
        let mut tab_titles: Vec<String> = Vec::new();
        tab_titles.push("CPU".to_owned());
        tab_titles.push("GPU".to_owned());
        tab_titles.push("NPU".to_owned());
        tab_titles.push("RGA".to_owned());
        tab_titles.push("Memory".to_owned());
        tab_titles.push("Thermal".to_owned());
        let r = App {
            history: HistoryStore::new(),
            current_tab: 0,
            tab_titles,
            last_refresh_ms: now_ms,
            started_ms: Ghost(now_ms),
            collected: Ghost(Seq::empty()),
        };
        assert(r.titles() =~= seq!["CPU"@, "GPU"@, "NPU"@, "RGA"@, "Memory"@, "Thermal"@]);
        r
    }

    /// Appends a collected sample to the history.
    pub fn update(&mut self, metrics: MetricSample)
        requires
            old(self).wf(),
        ensures
            final(self).wf(),
            final(self).samples() == appended(old(self).samples(), metrics),
            final(self).tab() == old(self).tab(),
            final(self).tab_count() == old(self).tab_count(),
            final(self).titles() == old(self).titles(),
            final(self).started() == old(self).started(),
            final(self).collections() == old(self).collections(),
            final(self).last_refresh() == old(self).last_refresh(),
    {
        self.history.append(metrics);
    }

    /// Chart series and value-axis bounds of `key` over the history.
    pub fn get_data_for_chart(&self, key: MetricKey) -> (r: (Vec<(u64, u64)>, (u128, u128)))
        requires
            self.wf(),
        ensures
            r.0@ == series_of(self.samples(), key),
            r.1.0 == axis_bounds(values_of(self.samples(), key)).0,
            r.1.1 == axis_bounds(values_of(self.samples(), key)).1,
    {
        project(&self.history, key)
    }

    /// Selects the next tab, wrapping from the last to the first.
    pub fn next_tab(&mut self)
        requires
            old(self).wf(),
        ensures
            final(self).wf(),
            final(self).tab() == next_index(old(self).tab(), old(self).tab_count()),
            final(self).samples() == old(self).samples(),
            final(self).tab_count() == old(self).tab_count(),
            final(self).titles() == old(self).titles(),
            final(self).started() == old(self).started(),
            final(self).collections() == old(self).collections(),
            final(self).last_refresh() == old(self).last_refresh(),
    {
        if self.current_tab >= self.tab_titles.len() - 1 {
            self.current_tab = 0;
        } else {
            self.current_tab = self.current_tab + 1;
        }
    }

    /// Selects the previous tab, wrapping from the first to the last.
    pub fn previous_tab(&mut self)
        requires
            old(self).wf(),
        ensures
            final(self).wf(),
            final(self).tab() == previous_index(old(self).tab(), old(self).tab_count()),
            final(self).samples() == old(self).samples(),
            final(self).tab_count() == old(self).tab_count(),
            final(self).titles() == old(self).titles(),
            final(self).started() == old(self).started(),
            final(self).collections() == old(self).collections(),
            final(self).last_refresh() == old(self).last_refresh(),
    {
        if self.current_tab > 0 {
            self.current_tab = self.current_tab - 1;
        } else {
            self.current_tab = self.tab_titles.len() - 1;
        }
    }

    /// One tick of the event loop at instant `now_ms`, after `command` (if a
    /// key was pressed during the poll).  Quitting leaves the state as it is.
    /// Otherwise the tab moves as asked, and once a sampling period has passed
    /// since the last collection the tick asks for a sample and takes `now_ms`
    /// as the new reference, so that the cadence does not drift.
    pub fn tick(&mut self, command: Option<Command>, now_ms: u64) -> (r: Tick)
        requires
            old(self).wf(),
            now_ms >= old(self).last_refresh(),
        ensures
            final(self).wf(),
            final(self).samples() == old(self).samples(),
            final(self).tab_count() == old(self).tab_count(),
            final(self).titles() == old(self).titles(),
            final(self).started() == old(self).started(),
            final(self).collections() == (if r == Tick::Collect {
                old(self).collections().push(now_ms)
            } else {
                old(self).collections()
            }),
            command == Some(Command::Quit) ==> r == Tick::Quit && final(self).tab() == old(
                self,
            ).tab() && final(self).last_refresh() == old(self).last_refresh(),
            command != Some(Command::Quit) ==> {
                &&& final(self).tab() == (match command {
                    Some(Command::NextTab) => next_index(old(self).tab(), old(self).tab_count()),
                    Some(Command::PreviousTab) => previous_index(
                        old(self).tab(),
                        old(self).tab_count(),
                    ),
                    _ => old(self).tab(),
                })
                &&& (r == Tick::Collect) == sample_due(old(self).last_refresh(), now_ms)
                &&& r != Tick::Quit
                &&& final(self).last_refresh() == (if sample_due(
                    old(self).last_refresh(),
                    now_ms,
                ) {
                    now_ms
                } else {
                    old(self).last_refresh()
                })
            },
    {
        match command {
            Some(Command::Quit) => {
                return Tick::Quit;
            },
            Some(Command::NextTab) => self.next_tab(),
            Some(Command::PreviousTab) => self.previous_tab(),
            None => {},
        }
        if now_ms - self.last_refresh_ms >= SAMPLE_PERIOD_MS {
            let ghost before = self.collected@;
            self.last_refresh_ms = now_ms;
            self.collected = Ghost(self.collected@.push(now_ms));
            assert forall|k: int| 0 <= k < self.collected@.len() - 1 implies self.collected@[k]
                + SAMPLE_PERIOD_MS <= #[trigger] self.collected@[k + 1] by {
                if k + 1 < before.len() {
                    assert(before[k] + SAMPLE_PERIOD_MS <= before[k + 1]);
                }
            }
            Tick::Collect
        } else {
            Tick::Wait
        }
    }

    /// Index of the selected tab.
    pub fn current_tab(&self) -> (r: usize)
        ensures
            r == self.tab(),
    {
        self.current_tab
    }

    /// Names of the tabs, in order.
    pub fn tab_titles(&self) -> (r: &Vec<String>)
        ensures
            r@.len() == self.tab_count(),
            r@.map_values(|t: String| t@) == self.titles(),
    {
        &self.tab_titles
    }

    /// Instant of the last collection (or of the start, before any).
    pub fn last_refresh_ms(&self) -> (r: u64)
        ensures
            r == self.last_refresh(),
    {
        self.last_refresh_ms
    }

    /// The sample history, oldest first.
    pub fn history(&self) -> (r: &HistoryStore)
        ensures
            r@ == self.samples(),
            self.wf() ==> r.wf(),
    {
        &self.history
    }
}

/// Selecting the next tab from the last one gives the first, and the
/// previous tab from the first one gives the last.
pub proof fn lemma_tabs_wrap(n: nat)
    requires
        n > 0,
    ensures
        next_index((n - 1) as nat, n) == 0,
        previous_index(0, n) == n - 1,
{
}

/// Throughout a session, the instants at which ticks asked for a collection
/// never decrease, two consecutive ones are at least a sampling period
/// apart, and the first comes at least a period after the start.
pub proof fn lemma_session_collections_spaced(app: &App)
    requires
        app.wf(),
    ensures
        spaced(app.started(), app.collections()),
        forall|i: int, j: int|
            0 <= i <= j < app.collections().len() ==> app.collections()[i] <= app.collections()[j],
{
    let c = app.collections();
    assert forall|i: int, j: int| 0 <= i <= j < c.len() implies c[i] <= c[j] by {
        lemma_spaced_monotone(app.started(), c, i, j);
    }
}

proof fn lemma_spaced_monotone(start_ms: u64, c: Seq<u64>, i: int, j: int)
    requires
        spaced(start_ms, c),
        0 <= i <= j < c.len(),
    ensures
        c[i] <= c[j],
    decreases j - i,
{
    if i < j {
        lemma_spaced_monotone(start_ms, c, i, j - 1);
        assert(c[j - 1] + SAMPLE_PERIOD_MS <= c[(j - 1) + 1]);
    }
}

/// On a clock that never runs backwards, the collection instants never
/// decrease and two consecutive ones are at least a sampling period apart;
/// the first comes at least a period after the previous collection.
pub proof fn lemma_collections_spaced(last_ms: u64, ticks: Seq<u64>)
    requires
        forall|i: int, j: int| 0 <= i <= j < ticks.len() ==> ticks[i] <= ticks[j],
        ticks.len() > 0 ==> last_ms <= ticks[0],
    ensures
        forall|k: int|
            0 <= k < collect_instants(last_ms, ticks).len() - 1 ==> collect_instants(last_ms, ticks)[k]
                + SAMPLE_PERIOD_MS <= #[trigger] collect_instants(last_ms, ticks)[k + 1],
        collect_instants(last_ms, ticks).len() > 0 ==> last_ms + SAMPLE_PERIOD_MS
            <= collect_instants(last_ms, ticks)[0],
        forall|k: int|
            0 <= k < collect_instants(last_ms, ticks).len() ==> ticks.contains(
                #[trigger] collect_instants(last_ms, ticks)[k],
            ),
    decreases ticks.len(),
{
    if ticks.len() > 0 {
        let rest = ticks.drop_first();
        let next_last = if sample_due(last_ms, ticks[0]) { ticks[0] } else { last_ms };
        if rest.len() > 0 {
            assert(ticks[0] <= ticks[1]);
        }
        lemma_collections_spaced(next_last, rest);
        let c = collect_instants(last_ms, ticks);
        let d = collect_instants(next_last, rest);
        assert forall|k: int| 0 <= k < d.len() implies ticks.contains(#[trigger] d[k]) by {
            let j = choose|j: int| 0 <= j < rest.len() && rest[j] == d[k];
            assert(ticks[j + 1] == d[k]);
        }
        if sample_due(last_ms, ticks[0]) {
            assert(c =~= seq![ticks[0]] + d);
            assert forall|k: int| 0 <= k < c.len() - 1 implies c[k] + SAMPLE_PERIOD_MS <= #[trigger] c[k + 1] by {
                if k > 0 {
                    assert(c[k] == d[k - 1]);
                    assert(c[k + 1] == d[k]);
                    assert(d[k - 1] + SAMPLE_PERIOD_MS <= d[(k - 1) + 1]);
                } else {
                    assert(c[1] == d[0]);
                }
            }
            assert(ticks.contains(c[0]));
        } else {
            assert(c == d);
        }
    }
}

} // verus!
