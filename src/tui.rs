use vstd::multiset::Multiset;
use vstd::prelude::*;

use crate::order::{
    all_wf, distinct_keys, same_key, sorted, insert_sorted, lemma_sort_independent_of_arrival, models, sort_spec,
    sorted_insert,
};
use crate::reader::{oks, ProbeError, RepoInfo, RepoModel};

verus! {

broadcast use vstd::seq_lib::group_to_multiset_ensures;

/// The state of the dashboard: the records so far, in order, and where the
/// two lists are scrolled to.
pub struct App {
    pub repos: Vec<RepoInfo>,
    pub verbose: bool,
    pub scroll_offset: usize,
    pub loading: bool,
    pub total_found: usize,
    pub clean_scroll_offset: usize,
    pub failed: usize,
}

pub struct AppModel {
    pub repos: Seq<RepoModel>,
    pub verbose: bool,
    pub scroll_offset: nat,
    pub loading: bool,
    pub total_found: nat,
    pub clean_scroll_offset: nat,
    pub failed: nat,
}

impl View for App {
    type V = AppModel;

    open spec fn view(&self) -> AppModel {
        AppModel {
            repos: models(self.repos@),
            verbose: self.verbose,
            scroll_offset: self.scroll_offset as nat,
            loading: self.loading,
            total_found: self.total_found as nat,
            clean_scroll_offset: self.clean_scroll_offset as nat,
            failed: self.failed as nat,
        }
    }
}

/// What can happen to the dashboard.
pub enum Event {
    Arrived(RepoInfo),
    Failed(ProbeError),
    Closed,
    ScrollDown { cols: usize, height: usize },
    Fit { cols: usize, height: usize },
    ScrollUp,
    ScrollLeft,
    ScrollRight { visible: usize },
    Quit,
}

pub enum EventModel {
    Arrived(RepoModel),
    Failed(Seq<char>),
    Closed,
    ScrollDown { cols: nat, height: nat },
    Fit { cols: nat, height: nat },
    ScrollUp,
    ScrollLeft,
    ScrollRight { visible: nat },
    Quit,
}

impl View for Event {
    type V = EventModel;

    open spec fn view(&self) -> EventModel {
        match self {
            Event::Arrived(r) => EventModel::Arrived(r@),
            Event::Failed(e) => EventModel::Failed(e.path@),
            Event::Closed => EventModel::Closed,
            Event::ScrollDown { cols, height } => EventModel::ScrollDown {
                cols: *cols as nat,
                height: *height as nat,
            },
            Event::Fit { cols, height } => EventModel::Fit { cols: *cols as nat, height: *height as nat },
            Event::ScrollUp => EventModel::ScrollUp,
            Event::ScrollLeft => EventModel::ScrollLeft,
            Event::ScrollRight { visible } => EventModel::ScrollRight { visible: *visible as nat },
            Event::Quit => EventModel::Quit,
        }
    }
}

/// How many records have changes.
pub open spec fn changed_count(s: Seq<RepoModel>) -> nat
    decreases s.len(),
{
    if s.len() == 0 {
        0
    } else {
        changed_count(s.drop_last()) + if s.last().has_changes() {
            1nat
        } else {
            0nat
        }
    }
}

/// How many records have no changes.
pub open spec fn clean_count(s: Seq<RepoModel>) -> nat {
    (s.len() - changed_count(s)) as nat
}

/// The rows that `n` panels take in a grid of `cols` columns.
pub open spec fn row_count(n: nat, cols: nat) -> nat
    recommends
        cols > 0,
{
    if n % cols == 0 {
        n / cols
    } else {
        n / cols + 1
    }
}

/// The rows that a viewport of `height` lines is taken to hold.
pub open spec fn estimated_rows(height: nat) -> nat {
    if height / 6 > 1 {
        height / 6
    } else {
        1
    }
}

impl AppModel {
    pub open spec fn initial(verbose: bool) -> AppModel {
        AppModel {
            repos: Seq::empty(),
            verbose,
            scroll_offset: 0,
            loading: true,
            total_found: 0,
            clean_scroll_offset: 0,
            failed: 0,
        }
    }

    pub open spec fn step(self, e: EventModel) -> AppModel {
        match e {
            EventModel::Arrived(r) => AppModel {
                repos: sorted_insert(self.repos, r),
                total_found: self.repos.len() + 1,
                ..self
            },
            EventModel::Failed(_) => AppModel {
                failed: if self.failed < usize::MAX {
                    self.failed + 1
                } else {
                    self.failed
                },
                ..self
            },
            EventModel::Closed => AppModel { loading: false, ..self },
            EventModel::ScrollDown { cols, height } => {
                if cols > 0 && self.scroll_offset + estimated_rows(height) < row_count(
                    changed_count(self.repos),
                    cols,
                ) {
                    AppModel { scroll_offset: self.scroll_offset + 1, ..self }
                } else {
                    self
                }
            },
            EventModel::Fit { cols, height } => {
                let rows = row_count(changed_count(self.repos), cols);
                let est = estimated_rows(height);
                if cols > 0 && self.scroll_offset + est > rows {
                    AppModel {
                        scroll_offset: if rows > est {
                            (rows - est) as nat
                        } else {
                            0
                        },
                        ..self
                    }
                } else {
                    self
                }
            },
            EventModel::ScrollUp => {
                if self.scroll_offset > 0 {
                    AppModel { scroll_offset: (self.scroll_offset - 1) as nat, ..self }
                } else {
                    self
                }
            },
            EventModel::ScrollLeft => {
                if self.clean_scroll_offset > 0 {
                    AppModel { clean_scroll_offset: (self.clean_scroll_offset - 1) as nat, ..self }
                } else {
                    self
                }
            },
            EventModel::ScrollRight { visible } => {
                if self.clean_scroll_offset + visible < clean_count(self.repos) {
                    AppModel { clean_scroll_offset: self.clean_scroll_offset + 1, ..self }
                } else {
                    self
                }
            },
            EventModel::Quit => self,
        }
    }
}

/// A record that the event brings shares no name and path with those held.
pub open spec fn fresh_key(held: Seq<RepoModel>, e: EventModel) -> bool {
    match e {
        EventModel::Arrived(r) => forall|i: int| 0 <= i < held.len() ==> !same_key(#[trigger] held[i], r),
        _ => true,
    }
}

/// The state after a sequence of events.
pub open spec fn replay(m: AppModel, es: Seq<EventModel>) -> AppModel
    decreases es.len(),
{
    if es.len() == 0 {
        m
    } else {
        replay(m, es.drop_last()).step(es.last())
    }
}

/// The events of a stream of probe outcomes, then its close.
pub open spec fn stream_events(outs: Seq<Result<RepoModel, Seq<char>>>) -> Seq<EventModel> {
    outs.map_values(
        |o: Result<RepoModel, Seq<char>>|
            match o {
                Ok(r) => EventModel::Arrived(r),
                Err(p) => EventModel::Failed(p),
            },
    ).push(EventModel::Closed)
}

proof fn lemma_replay_outcomes(m: AppModel, outs: Seq<Result<RepoModel, Seq<char>>>)
    requires
        m.repos.len() == 0,
    ensures
        replay(m, stream_events(outs).drop_last()).repos == sort_spec(oks(outs)),
    decreases outs.len(),
{
    let es = stream_events(outs).drop_last();
    if outs.len() > 0 {
        let d = outs.drop_last();
        lemma_replay_outcomes(m, d);
        assert(es.drop_last() =~= stream_events(d).drop_last());
        assert(es.last() == match outs.last() {
            Ok(r) => EventModel::Arrived(r),
            Err(p) => EventModel::Failed(p),
        });
        if let Ok(r) = outs.last() {
            assert(oks(outs) == oks(d).push(r));
            assert(oks(d).push(r).drop_last() =~= oks(d));
        }
    } else {
        assert(es =~= Seq::<EventModel>::empty());
    }
}

proof fn lemma_oks_count(s: Seq<Result<RepoModel, Seq<char>>>, r: RepoModel)
    ensures
        oks(s).to_multiset().count(r) == s.to_multiset().count(Ok(r)),
    decreases s.len(),
{
    if s.len() > 0 {
        let d = s.drop_last();
        lemma_oks_count(d, r);
        assert(s == d.push(s.last()));
        if let Ok(x) = s.last() {
            assert(oks(s) == oks(d).push(x));
        }
    } else {
        assert(s.to_multiset() =~= Multiset::empty());
        assert(oks(s).to_multiset() =~= Multiset::empty());
    }
}

/// After the stream of probe outcomes closes, the dashboard holds exactly
/// the records that the batch run returns for the same outcomes, in the
/// same order, whatever order they arrived in; and it is no longer loading.
pub proof fn lemma_streaming_complete(
    arrivals: Seq<Result<RepoModel, Seq<char>>>,
    batch: Seq<Result<RepoModel, Seq<char>>>,
    verbose: bool,
)
    requires
        arrivals.to_multiset() == batch.to_multiset(),
        distinct_keys(oks(batch)),
    ensures
        replay(AppModel::initial(verbose), stream_events(arrivals)).repos == sort_spec(oks(batch)),
        !replay(AppModel::initial(verbose), stream_events(arrivals)).loading,
{
    let init = AppModel::initial(verbose);
    lemma_replay_outcomes(init, arrivals);
    let es = stream_events(arrivals);
    assert(es.last() == EventModel::Closed);
    assert forall|r: RepoModel| oks(batch).to_multiset().count(r) == oks(arrivals).to_multiset().count(r) by {
        lemma_oks_count(batch, r);
        lemma_oks_count(arrivals, r);
    }
    assert(oks(batch).to_multiset() =~= oks(arrivals).to_multiset());
    lemma_sort_independent_of_arrival(oks(batch), oks(arrivals));
}

/// The rows that `n` panels take in a grid of `cols` columns.
pub fn rows_for(n: usize, cols: usize) -> (r: usize)
    requires
        cols > 0,
    ensures
        r == row_count(n as nat, cols as nat),
        r <= n,
{
    if n % cols == 0 {
        assert(n / cols <= n) by (nonlinear_arith)
            requires
                cols > 0,
        ;
        n / cols
    } else {
        assert(n / cols < n) by (nonlinear_arith)
            requires
                n % cols != 0,
                cols > 0,
        {
            if cols == 1 {
                assert(n % cols == 0);
            }
            assert(n / cols <= n / 2);
        }
        n / cols + 1
    }
}

/// Where records with changes exist, a fitted grid, and a grid scrolled down
/// from a position that shows a row, still show at least one row.
pub proof fn lemma_a_row_stays_visible(m: AppModel, cols: nat, height: nat)
    requires
        cols > 0,
        changed_count(m.repos) > 0,
    ensures
        m.step(EventModel::Fit { cols, height }).scroll_offset < row_count(changed_count(m.repos), cols),
        m.scroll_offset < row_count(changed_count(m.repos), cols) ==> m.step(
            EventModel::ScrollDown { cols, height },
        ).scroll_offset < row_count(changed_count(m.repos), cols),
{
    let n = changed_count(m.repos);
    assert(row_count(n, cols) > 0) by (nonlinear_arith)
        requires
            n > 0,
            cols > 0,
            row_count(n, cols) == if n % cols == 0 { n / cols } else { n / cols + 1 },
    ;
}

impl App {
    /// The well-formed records that the dashboard keeps.
    pub open spec fn wf(&self) -> bool {
        all_wf(models(self.repos@))
    }

    pub fn new(verbose: bool) -> (r: App)
        ensures
            r@ == AppModel::initial(verbose),
            r.wf(),
            sorted(r@.repos),
    {
        let r = App {
            repos: Vec::new(),
            verbose,
            scroll_offset: 0,
            loading: true,
            total_found: 0,
            clean_scroll_offset: 0,
            failed: 0,
        };
        assert(models(r.repos@) =~= Seq::<RepoModel>::empty());
        r
    }

    /// Takes in a new record at its place in the order.
    pub fn add_repo(&mut self, repo: RepoInfo)
        requires
            old(self).wf(),
            repo@.wf(),
        ensures
            final(self)@ == old(self)@.step(EventModel::Arrived(repo@)),
            final(self).wf(),
            sorted(old(self)@.repos) && (forall|i: int|
                0 <= i < old(self)@.repos.len() ==> !same_key(#[trigger] old(self)@.repos[i], repo@))
                ==> sorted(final(self)@.repos),
    {
        proof {
            crate::order::lemma_sorted_insert(models(self.repos@), repo@);
        }
        insert_sorted(&mut self.repos, repo);
        self.total_found = self.repos.len();
    }

    /// Notes a probe that failed.
    pub fn add_failure(&mut self)
        ensures
            final(self)@ == old(self)@.step(EventModel::Failed(Seq::empty())),
            final(self).repos@ == old(self).repos@,
    {
        if self.failed < usize::MAX {
            self.failed += 1;
        }
    }

    /// The stream is exhausted.
    pub fn set_loading_complete(&mut self)
        ensures
            final(self)@ == old(self)@.step(EventModel::Closed),
            final(self).repos@ == old(self).repos@,
    {
        self.loading = false;
    }

    /// How many records have changes.
    pub fn changed_repos(&self) -> (r: usize)
        ensures
            r == changed_count(self@.repos),
            r <= self.repos.len(),
    {
        let mut n: usize = 0;
        let mut i: usize = 0;
        while i < self.repos.len()
            invariant
                i <= self.repos.len(),
                n <= i,
                n == changed_count(models(self.repos@).take(i as int)),
            decreases self.repos.len() - i,
        {
            assert(models(self.repos@).take(i + 1).drop_last() =~= models(self.repos@).take(i as int));
            if self.repos[i].has_changes() {
                n += 1;
            }
            i += 1;
        }
        assert(models(self.repos@).take(i as int) =~= models(self.repos@));
        n
    }

    /// Scrolls the grid down one row, while rows remain below the viewport.
    pub fn scroll_down(&mut self, cols: usize, available_height: usize)
        requires
            cols > 0,
        ensures
            final(self)@ == old(self)@.step(EventModel::ScrollDown { cols: cols as nat, height: available_height as nat }),
            final(self).repos@ == old(self).repos@,
    {
        let changed = self.changed_repos();
        let total_rows = rows_for(changed, cols);
        let estimated_visible_rows = if available_height / 6 > 1 {
            available_height / 6
        } else {
            1
        };
        if estimated_visible_rows < total_rows && self.scroll_offset < total_rows - estimated_visible_rows {
            self.scroll_offset += 1;
        }
    }

    /// Moves the grid up where the viewport of `available_height` lines now
    /// holds more rows than remain below the scroll position.
    pub fn clamp_scroll(&mut self, cols: usize, available_height: usize)
        requires
            cols > 0,
        ensures
            final(self)@ == old(self)@.step(EventModel::Fit { cols: cols as nat, height: available_height as nat }),
            final(self).repos@ == old(self).repos@,
    {
        let changed = self.changed_repos();
        let total_rows = rows_for(changed, cols);
        let estimated_visible_rows = if available_height / 6 > 1 {
            available_height / 6
        } else {
            1
        };
        if self.scroll_offset > total_rows || total_rows - self.scroll_offset < estimated_visible_rows {
            self.scroll_offset = if total_rows > estimated_visible_rows {
                total_rows - estimated_visible_rows
            } else {
                0
            };
        }
    }

    pub fn scroll_up(&mut self)
        ensures
            final(self)@ == old(self)@.step(EventModel::ScrollUp),
            final(self).repos@ == old(self).repos@,
    {
        if self.scroll_offset > 0 {
            self.scroll_offset -= 1;
        }
    }

    pub fn scroll_clean_left(&mut self)
        ensures
            final(self)@ == old(self)@.step(EventModel::ScrollLeft),
            final(self).repos@ == old(self).repos@,
    {
        if self.clean_scroll_offset > 0 {
            self.clean_scroll_offset -= 1;
        }
    }

    /// Scrolls the strip of clean records right, while some remain past it.
    pub fn scroll_clean_right(&mut self, visible_clean_repos: usize)
        ensures
            final(self)@ == old(self)@.step(EventModel::ScrollRight { visible: visible_clean_repos as nat }),
            final(self).repos@ == old(self).repos@,
    {
        let clean = self.repos.len() - self.changed_repos();
        if visible_clean_repos < clean && self.clean_scroll_offset < clean - visible_clean_repos {
            self.clean_scroll_offset += 1;
        }
    }

    /// Applies one event; returns whether the dashboard goes on.
    pub fn handle(&mut self, event: Event) -> (go_on: bool)
        requires
            old(self).wf(),
            event matches Event::Arrived(r) ==> r@.wf(),
        ensures
            final(self)@ == old(self)@.step(event@),
            final(self).wf(),
            go_on == !(event is Quit),
            sorted(old(self)@.repos) && fresh_key(old(self)@.repos, event@) ==> sorted(
                final(self)@.repos,
            ),
    {
        match event {
            Event::Arrived(r) => {
                self.add_repo(r);
                true
            },
            Event::Failed(_) => {
                self.add_failure();
                true
            },
            Event::Closed => {
                self.set_loading_complete();
                true
            },
            Event::ScrollDown { cols, height } => {
                if cols > 0 {
                    self.scroll_down(cols, height);
                }
                true
            },
            Event::Fit { cols, height } => {
                if cols > 0 {
                    self.clamp_scroll(cols, height);
                }
                true
            },
            Event::ScrollUp => {
                self.scroll_up();
                true
            },
            Event::ScrollLeft => {
                self.scroll_clean_left();
                true
            },
            Event::ScrollRight { visible } => {
                self.scroll_clean_right(visible);
                true
            },
            Event::Quit => false,
        }
    }
}

} // verus!
